//! The identifier checks of layout and fixture edits: placement ids and
//! names used once, fixture object keys that are identifiers used once.
use vstd::prelude::*;
use crate::model::decimal::{decimal_digits, u64_to_decimal};
use crate::model::kinds::FixtureId;
use crate::model::refs::{identifier_problem, validate_identifier};
use crate::text::{
    chars_eq, chars_of, concat3, leading_whitespace, leading_whitespace_exec, str_eq, string_from_chars,
    trimmed_end, trimmed_end_exec,
};

verus! {

/// `s` without its leading and trailing whitespace (`str::trim`).
pub open spec fn trimmed(s: Seq<char>) -> Seq<char> {
    let rest = s.subrange(leading_whitespace(s), s.len() as int);
    rest.subrange(0, trimmed_end(rest))
}

/// The characters of `s` without its leading and trailing whitespace.
pub fn trim_chars(s: &str) -> (t: Vec<char>)
    ensures
        t@ == trimmed(s@),
{
    let chars = chars_of(s);
    let n = chars.len();
    let lead = leading_whitespace_exec(&chars, 0, n);
    assert(chars@.subrange(0, n as int) =~= s@);
    let len = trimmed_end_exec(&chars, lead, n);
    let mut t: Vec<char> = Vec::new();
    let mut k: usize = 0;
    while k < len
        invariant
            lead + len <= n == chars@.len(),
            k <= len,
            t@ == chars@.subrange(lead as int, lead + k),
        decreases len - k,
    {
        t.push(chars[lead + k]);
        k += 1;
        assert(t@ =~= chars@.subrange(lead as int, lead + k));
    }
    assert(chars@.subrange(lead as int, n as int).subrange(0, len as int) =~= chars@.subrange(
        lead as int,
        lead + len,
    ));
    t
}

pub open spec fn placement_ids(ps: Seq<(FixtureId, String)>) -> Seq<FixtureId> {
    ps.map_values(|p: (FixtureId, String)| p.0)
}

pub open spec fn placement_names(ps: Seq<(FixtureId, String)>) -> Seq<Seq<char>> {
    ps.map_values(|p: (FixtureId, String)| trimmed(p.1@))
}

/// The first problem with a layout's fixture placements (each an id and a
/// name), read from the front: an id used before, a name that is blank, or a
/// name, trimmed, that an earlier placement has.
pub open spec fn layout_identifier_problem(ps: Seq<(FixtureId, String)>) -> Option<Seq<char>>
    decreases ps.len(),
{
    if ps.len() == 0 {
        None
    } else {
        match layout_identifier_problem(ps.drop_last()) {
            Some(m) => Some(m),
            None => {
                let p = ps.last();
                let name = trimmed(p.1@);
                if placement_ids(ps.drop_last()).contains(p.0) {
                    Some("duplicate fixture placement id `"@ + decimal_digits(p.0.0 as nat) + "`"@)
                } else if name.len() == 0 {
                    Some("fixture placement name cannot be empty"@)
                } else if placement_names(ps.drop_last()).contains(name) {
                    Some("duplicate fixture placement name `"@ + name + "`"@)
                } else {
                    None
                }
            },
        }
    }
}

proof fn lemma_layout_problem_of_prefix(ps: Seq<(FixtureId, String)>, m: int)
    requires
        0 <= m <= ps.len(),
        layout_identifier_problem(ps.subrange(0, m)) is Some,
    ensures
        layout_identifier_problem(ps) == layout_identifier_problem(ps.subrange(0, m)),
    decreases ps.len() - m,
{
    if m == ps.len() {
        assert(ps.subrange(0, m) =~= ps);
    } else {
        assert(ps.drop_last().subrange(0, m) =~= ps.subrange(0, m));
        lemma_layout_problem_of_prefix(ps.drop_last(), m);
    }
}

fn placement_id_before(ps: &Vec<(FixtureId, String)>, end: usize, id: FixtureId) -> (b: bool)
    requires
        end <= ps@.len(),
    ensures
        b == placement_ids(ps@.subrange(0, end as int)).contains(id),
{
    let ghost ids = placement_ids(ps@.subrange(0, end as int));
    let mut k: usize = 0;
    while k < end
        invariant
            k <= end <= ps@.len(),
            ids == placement_ids(ps@.subrange(0, end as int)),
            forall|m: int| 0 <= m < k ==> ps@[m].0 != id,
        decreases end - k,
    {
        if ps[k].0 == id {
            assert(ids[k as int] == id);
            return true;
        }
        k += 1;
    }
    assert forall|m: int| 0 <= m < ids.len() implies ids[m] != id by {
        assert(ids[m] == ps@[m].0);
    }
    false
}

fn placement_name_before(ps: &Vec<(FixtureId, String)>, end: usize, name: &Vec<char>) -> (b: bool)
    requires
        end <= ps@.len(),
    ensures
        b == placement_names(ps@.subrange(0, end as int)).contains(name@),
{
    let ghost names = placement_names(ps@.subrange(0, end as int));
    let mut k: usize = 0;
    while k < end
        invariant
            k <= end <= ps@.len(),
            names == placement_names(ps@.subrange(0, end as int)),
            forall|m: int| 0 <= m < k ==> trimmed(ps@[m].1@) != name@,
        decreases end - k,
    {
        let t = trim_chars(ps[k].1.as_str());
        if chars_eq(t.as_slice(), name.as_slice()) {
            assert(names[k as int] == name@);
            return true;
        }
        k += 1;
    }
    assert forall|m: int| 0 <= m < names.len() implies names[m] != name@ by {
        assert(names[m] == trimmed(ps@[m].1@));
    }
    false
}

/// Checks the fixture placements of a layout, each given by its id and name:
/// no id twice, no blank name, and no name twice once names are trimmed. The
/// error reports the first placement that fails.
pub fn validate_layout_identifiers(placements: &Vec<(FixtureId, String)>) -> (r: Result<(), String>)
    ensures
        match r {
            Ok(()) => layout_identifier_problem(placements@) is None,
            Err(m) => layout_identifier_problem(placements@) == Some(m@),
        },
{
    let n = placements.len();
    let mut i: usize = 0;
    while i < n
        invariant
            n == placements@.len(),
            i <= n,
            layout_identifier_problem(placements@.subrange(0, i as int)) is None,
        decreases n - i,
    {
        let id = placements[i].0;
        let ghost pre = placements@.subrange(0, i as int);
        assert(placements@.subrange(0, i + 1).drop_last() =~= pre);
        assert(placements@.subrange(0, i + 1).last() == placements@[i as int]);
        if placement_id_before(placements, i, id) {
            proof {
                lemma_layout_problem_of_prefix(placements@, (i + 1) as int);
            }
            let digits = string_from_chars(u64_to_decimal(id.0 as u64).as_slice());
            return Err(concat3("duplicate fixture placement id `", digits.as_str(), "`"));
        }
        let name = trim_chars(placements[i].1.as_str());
        if name.len() == 0 {
            proof {
                lemma_layout_problem_of_prefix(placements@, (i + 1) as int);
            }
            return Err(String::from_str("fixture placement name cannot be empty"));
        }
        if placement_name_before(placements, i, &name) {
            proof {
                lemma_layout_problem_of_prefix(placements@, (i + 1) as int);
            }
            let shown = string_from_chars(name.as_slice());
            return Err(concat3("duplicate fixture placement name `", shown.as_str(), "`"));
        }
        i += 1;
    }
    assert(placements@.subrange(0, n as int) =~= placements@);
    Ok(())
}

pub open spec fn key_views(keys: Seq<String>) -> Seq<Seq<char>> {
    keys.map_values(|k: String| k@)
}

/// The first problem with the object keys of a fixture document, read from
/// the front: a key that is no identifier, or a key used before.
pub open spec fn fixture_key_problem(keys: Seq<String>) -> Option<Seq<char>>
    decreases keys.len(),
{
    if keys.len() == 0 {
        None
    } else {
        match fixture_key_problem(keys.drop_last()) {
            Some(m) => Some(m),
            None => {
                let k = keys.last()@;
                match identifier_problem(k) {
                    Some(suffix) => Some("fixture object key"@ + suffix),
                    None => if key_views(keys.drop_last()).contains(k) {
                        Some("duplicate fixture object key `"@ + k + "`"@)
                    } else {
                        None
                    },
                }
            },
        }
    }
}

proof fn lemma_key_problem_of_prefix(keys: Seq<String>, m: int)
    requires
        0 <= m <= keys.len(),
        fixture_key_problem(keys.subrange(0, m)) is Some,
    ensures
        fixture_key_problem(keys) == fixture_key_problem(keys.subrange(0, m)),
    decreases keys.len() - m,
{
    if m == keys.len() {
        assert(keys.subrange(0, m) =~= keys);
    } else {
        assert(keys.drop_last().subrange(0, m) =~= keys.subrange(0, m));
        lemma_key_problem_of_prefix(keys.drop_last(), m);
    }
}

fn key_before(keys: &Vec<String>, end: usize, key: &str) -> (b: bool)
    requires
        end <= keys@.len(),
    ensures
        b == key_views(keys@.subrange(0, end as int)).contains(key@),
{
    let ghost views = key_views(keys@.subrange(0, end as int));
    let mut k: usize = 0;
    while k < end
        invariant
            k <= end <= keys@.len(),
            views == key_views(keys@.subrange(0, end as int)),
            forall|m: int| 0 <= m < k ==> keys@[m]@ != key@,
        decreases end - k,
    {
        if str_eq(keys[k].as_str(), key) {
            assert(views[k as int] == key@);
            return true;
        }
        k += 1;
    }
    assert forall|m: int| 0 <= m < views.len() implies views[m] != key@ by {
        assert(views[m] == keys@[m]@);
    }
    false
}

/// Checks the object keys of the fixtures of a fixture document: each must be
/// an identifier, and none may occur twice. The error reports the first key
/// that fails.
pub fn validate_fixture_document(object_keys: &Vec<String>) -> (r: Result<(), String>)
    ensures
        match r {
            Ok(()) => fixture_key_problem(object_keys@) is None,
            Err(m) => fixture_key_problem(object_keys@) == Some(m@),
        },
{
    let n = object_keys.len();
    let mut i: usize = 0;
    while i < n
        invariant
            n == object_keys@.len(),
            i <= n,
            fixture_key_problem(object_keys@.subrange(0, i as int)) is None,
        decreases n - i,
    {
        let key = object_keys[i].as_str();
        assert(object_keys@.subrange(0, i + 1).drop_last() =~= object_keys@.subrange(0, i as int));
        assert(object_keys@.subrange(0, i + 1).last() == object_keys@[i as int]);
        if let Err(m) = validate_identifier(key, "fixture object key") {
            proof {
                lemma_key_problem_of_prefix(object_keys@, (i + 1) as int);
            }
            return Err(m);
        }
        if key_before(object_keys, i, key) {
            proof {
                lemma_key_problem_of_prefix(object_keys@, (i + 1) as int);
            }
            return Err(concat3("duplicate fixture object key `", key, "`"));
        }
        i += 1;
    }
    assert(object_keys@.subrange(0, n as int) =~= object_keys@);
    Ok(())
}

} // verus!
