//! Choosing the alias under which a Dawn file imports another.
use vstd::prelude::*;
use vstd::set_lib::{lemma_int_range, lemma_len_subset, lemma_map_size, set_int_range};
use crate::model::decimal::{decimal_digits, lemma_decimal_digits, u64_to_decimal};
use crate::model::kinds::DawnImport;
use crate::text::{concat, str_eq, string_from_chars};
use crate::document::inspect::{sanitize_alias, spec_sanitize_alias};

verus! {

/// The `k`-th alias tried for `base`: `base` itself, then `base2`, `base3`, …
pub open spec fn alias_candidate(base: Seq<char>, k: int) -> Seq<char> {
    if k <= 1 {
        base
    } else {
        base + decimal_digits(k as nat)
    }
}

pub open spec fn import_aliases(imports: Seq<DawnImport>) -> Seq<Seq<char>> {
    imports.map_values(|i: DawnImport| i.alias@)
}

/// The alias that `imports` do not use yet: the first of the candidates for
/// `base` that none of them uses.
pub open spec fn is_unique_alias(alias: Seq<char>, base: Seq<char>, aliases: Seq<Seq<char>>) -> bool {
    &&& !aliases.contains(alias)
    &&& exists|k: int|
        k >= 1 && alias == alias_candidate(base, k) && forall|j: int|
            1 <= j < k ==> aliases.contains(#[trigger] alias_candidate(base, j))
}

proof fn lemma_candidates_distinct(base: Seq<char>, a: int, b: int)
    requires
        1 <= a < b,
    ensures
        alias_candidate(base, a) != alias_candidate(base, b),
{
    lemma_decimal_digits(b as nat);
    if a >= 2 {
        lemma_decimal_digits(a as nat);
        if alias_candidate(base, a) == alias_candidate(base, b) {
            let da = decimal_digits(a as nat);
            let db = decimal_digits(b as nat);
            assert((base + da).len() == (base + db).len());
            assert(da =~= (base + da).subrange(base.len() as int, (base + da).len() as int));
            assert(db =~= (base + db).subrange(base.len() as int, (base + db).len() as int));
        }
    } else {
        assert(alias_candidate(base, b).len() > base.len());
    }
}

/// When the first `m` candidates are all used, there are at least `m` imports.
proof fn lemma_used_candidates_bound(base: Seq<char>, aliases: Seq<Seq<char>>, m: int)
    requires
        m >= 0,
        forall|j: int| 1 <= j <= m ==> aliases.contains(#[trigger] alias_candidate(base, j)),
    ensures
        m <= aliases.len(),
{
    let x = set_int_range(1, m + 1);
    lemma_int_range(1, m + 1);
    let f = |k: int| alias_candidate(base, k);
    let y = x.map(f);
    assert forall|a: int, b: int| x.contains(a) && x.contains(b) && #[trigger] f(a) == #[trigger] f(b) implies a
        == b by {
        if a < b {
            lemma_candidates_distinct(base, a, b);
        } else if b < a {
            lemma_candidates_distinct(base, b, a);
        }
    }
    lemma_map_size(x, y, f);
    assert forall|s: Seq<char>| y.contains(s) implies aliases.to_set().contains(s) by {
        let k = choose|k: int| x.contains(k) && f(k) == s;
        assert(aliases.contains(alias_candidate(base, k)));
    }
    aliases.lemma_cardinality_of_set();
    lemma_len_subset(y, aliases.to_set());
}

fn alias_in_use(imports: &Vec<DawnImport>, alias: &str) -> (b: bool)
    ensures
        b == import_aliases(imports@).contains(alias@),
{
    let ghost aliases = import_aliases(imports@);
    let mut k: usize = 0;
    while k < imports.len()
        invariant
            k <= imports@.len(),
            aliases == import_aliases(imports@),
            forall|m: int| 0 <= m < k ==> aliases[m] != alias@,
        decreases imports@.len() - k,
    {
        if str_eq(imports[k].alias.as_str(), alias) {
            assert(aliases[k as int] == alias@);
            return true;
        }
        k += 1;
    }
    false
}

/// The alias for a new import based on `base`: `base` when no import uses it,
/// else `base2`, `base3`, … the first that none uses.
pub fn unique_import_alias(base: &str, imports: &Vec<DawnImport>) -> (alias: String)
    requires
        imports@.len() < u32::MAX - 2,
    ensures
        is_unique_alias(alias@, base@, import_aliases(imports@)),
{
    let ghost aliases = import_aliases(imports@);
    let mut alias = String::from_str(base);
    let mut suffix: u32 = 2;
    while alias_in_use(imports, alias.as_str())
        invariant
            aliases == import_aliases(imports@),
            imports@.len() < u32::MAX - 2,
            2 <= suffix <= imports@.len() + 2,
            alias@ == alias_candidate(base@, suffix - 1),
            forall|j: int| 1 <= j < suffix - 1 ==> aliases.contains(#[trigger] alias_candidate(base@, j)),
        decreases imports@.len() + 2 - suffix,
    {
        proof {
            assert forall|j: int| 1 <= j <= suffix - 1 implies aliases.contains(
                #[trigger] alias_candidate(base@, j),
            ) by {
                if j == suffix - 1 {
                    assert(alias@ == alias_candidate(base@, j));
                }
            }
            lemma_used_candidates_bound(base@, aliases, suffix - 1);
        }
        let digits = string_from_chars(u64_to_decimal(suffix as u64).as_slice());
        alias = concat(base, digits.as_str());
        suffix = suffix + 1;
    }
    alias
}

/// The first position at or after `i` of `resolved` that is `target`.
pub open spec fn first_resolved(resolved: Seq<String>, target: Seq<char>, i: int) -> Option<int>
    decreases resolved.len() - i,
{
    if i < 0 || i >= resolved.len() {
        None
    } else if resolved[i]@ == target {
        Some(i)
    } else {
        first_resolved(resolved, target, i + 1)
    }
}

/// The alias that a new import of a module named `name` starts from: the
/// sanitized name, or `module` when the path gives no name.
pub open spec fn spec_alias_base(name: Option<Seq<char>>) -> Seq<char> {
    match name {
        Some(n) => spec_sanitize_alias(n),
        None => "module"@,
    }
}

/// The import through which a file reaches the module at the resolved path
/// `target`: when one of `imports` (whose resolved paths are `resolved`)
/// already reaches it, the first such import's alias and nothing to add;
/// else a new import from `from` under an alias made from the module's name
/// `name` that no import uses yet.
pub fn module_import(
    imports: &Vec<DawnImport>,
    resolved: &Vec<String>,
    target: &str,
    from: &str,
    name: Option<&str>,
) -> (r: (String, Option<DawnImport>))
    requires
        resolved@.len() == imports@.len(),
        imports@.len() < u32::MAX - 2,
    ensures
        match first_resolved(resolved@, target@, 0) {
            Some(k) => r.0@ == imports@[k].alias@ && r.1 is None,
            None => {
                &&& is_unique_alias(
                    r.0@,
                    spec_alias_base(
                        match name {
                            Some(n) => Some(n@),
                            None => None,
                        },
                    ),
                    import_aliases(imports@),
                )
                &&& r.1 matches Some(i) && i.from@ == from@ && i.alias@ == r.0@
            },
        },
{
    let mut k: usize = 0;
    while k < resolved.len()
        invariant
            k <= resolved@.len(),
            resolved@.len() == imports@.len(),
            first_resolved(resolved@, target@, 0) == first_resolved(resolved@, target@, k as int),
        decreases resolved@.len() - k,
    {
        if str_eq(resolved[k].as_str(), target) {
            return (imports[k].alias.clone(), None);
        }
        k += 1;
    }
    let base = match name {
        Some(n) => sanitize_alias(n),
        None => String::from_str("module"),
    };
    let alias = unique_import_alias(base.as_str(), imports);
    let import = DawnImport { from: String::from_str(from), alias: alias.clone() };
    (alias, Some(import))
}

/// The first position at or after `i` of `resolved` that is `path`, or is
/// `dir` when that is given.
pub open spec fn first_reaching(resolved: Seq<String>, path: Seq<char>, dir: Option<Seq<char>>, i: int) -> Option<int>
    decreases resolved.len() - i,
{
    if i < 0 || i >= resolved.len() {
        None
    } else if resolved[i]@ == path || dir == Some(resolved[i]@) {
        Some(i)
    } else {
        first_reaching(resolved, path, dir, i + 1)
    }
}

/// How a file refers to the fixture `key` of the file at `path` (in the
/// directory `dir`): through the first of its `imports` (whose resolved
/// paths are `resolved`) that reaches that file or its directory, as
/// `alias.key`; else by the import path `serialized` itself, as
/// `serialized::key`.
pub fn fixture_import_string(
    imports: &Vec<DawnImport>,
    resolved: &Vec<String>,
    path: &str,
    dir: Option<&str>,
    serialized: &str,
    key: &str,
) -> (r: String)
    requires
        resolved@.len() == imports@.len(),
    ensures
        r@ == match first_reaching(
            resolved@,
            path@,
            match dir {
                Some(d) => Some(d@),
                None => None,
            },
            0,
        ) {
            Some(i) => imports@[i].alias@ + "."@ + key@,
            None => serialized@ + "::"@ + key@,
        },
{
    let mut i: usize = 0;
    while i < resolved.len()
        invariant
            i <= resolved@.len(),
            resolved@.len() == imports@.len(),
            first_reaching(
                resolved@,
                path@,
                match dir {
                    Some(d) => Some(d@),
                    None => None,
                },
                0,
            ) == first_reaching(
                resolved@,
                path@,
                match dir {
                    Some(d) => Some(d@),
                    None => None,
                },
                i as int,
            ),
        decreases resolved@.len() - i,
    {
        let in_dir = match dir {
            Some(d) => str_eq(resolved[i].as_str(), d),
            None => false,
        };
        if str_eq(resolved[i].as_str(), path) || in_dir {
            return crate::text::concat3(imports[i].alias.as_str(), ".", key);
        }
        i += 1;
    }
    crate::text::concat3(serialized, "::", key)
}

} // verus!
