//! What a Dawn file declares at its top level: its imports, each with an
//! alias, and the names of the objects it exports.
use vstd::prelude::*;
use crate::diagnostics::{DiagnosticCode, DiagnosticSeverity, ProjectDiagnostic, TextRange};
use crate::model::kinds::DawnImport;
use crate::model::refs::{identifier_problem, validate_identifier};
use crate::parse::source_map::{SegmentView, YamlPath, YamlSourceMap, YamlSourceRange};
use crate::text::{concat3, str_eq};

verus! {

/// Where the value at `p` is written, by the source map `sm`.
pub open spec fn value_range_at(sm: Map<Seq<SegmentView>, YamlSourceRange>, p: Seq<SegmentView>) -> Option<
    TextRange,
> {
    if sm.contains_key(p) {
        Some(sm[p].value_range)
    } else {
        None
    }
}

/// Where the key of the entry at `p` is written, by the source map `sm`.
pub open spec fn key_range_at(sm: Map<Seq<SegmentView>, YamlSourceRange>, p: Seq<SegmentView>) -> Option<
    TextRange,
> {
    if sm.contains_key(p) {
        sm[p].key_range
    } else {
        None
    }
}

/// The path of the alias of the `i`-th import.
pub open spec fn import_alias_path(i: int) -> Seq<SegmentView> {
    seq![SegmentView::Field("imports"@), SegmentView::Index(i as usize), SegmentView::Field("as"@)]
}

/// The problems with the aliases of the imports, in order: each alias that is
/// not an identifier, and each that an earlier import already uses; each
/// reported where the alias is written.
pub open spec fn alias_problems(sm: Map<Seq<SegmentView>, YamlSourceRange>, aliases: Seq<Seq<char>>) -> Seq<
    (Option<TextRange>, Seq<char>),
>
    decreases aliases.len(),
{
    if aliases.len() == 0 {
        seq![]
    } else {
        let i = aliases.len() - 1;
        let a = aliases.last();
        let range = value_range_at(sm, import_alias_path(i));
        let invalid = match identifier_problem(a) {
            Some(p) => seq![(range, "import alias"@ + p)],
            None => seq![],
        };
        let duplicate = if aliases.drop_last().contains(a) {
            seq![(range, "duplicate import alias `"@ + a + "`"@)]
        } else {
            seq![]
        };
        alias_problems(sm, aliases.drop_last()) + invalid + duplicate
    }
}

/// The exported object names that are not identifiers, each reported where
/// the name is written.
pub open spec fn name_problems(sm: Map<Seq<SegmentView>, YamlSourceRange>, names: Seq<Seq<char>>) -> Seq<
    (Option<TextRange>, Seq<char>),
>
    decreases names.len(),
{
    if names.len() == 0 {
        seq![]
    } else {
        let n = names.last();
        let rest = name_problems(sm, names.drop_last());
        match identifier_problem(n) {
            Some(p) => rest.push((key_range_at(sm, seq![SegmentView::Field(n)]), "exported object name"@ + p)),
            None => rest,
        }
    }
}

pub open spec fn aliases_of(imports: Seq<DawnImport>) -> Seq<Seq<char>> {
    imports.map_values(|i: DawnImport| i.alias@)
}

pub open spec fn names_of(keys: Seq<String>) -> Seq<Seq<char>> {
    keys.map_values(|k: String| k@)
}

/// The diagnostics that `added` holds: for each problem, an error of kind
/// `code` about `path` at its range with its message.
pub open spec fn reports(
    path: Seq<char>,
    code: DiagnosticCode,
    added: Seq<ProjectDiagnostic>,
    problems: Seq<(Option<TextRange>, Seq<char>)>,
) -> bool {
    &&& added.len() == problems.len()
    &&& forall|j: int|
        0 <= j < added.len() ==> {
            &&& (#[trigger] added[j]).path@ == path
            &&& added[j].severity == DiagnosticSeverity::Error
            &&& added[j].code == code
            &&& added[j].range == problems[j].0
            &&& added[j].message@ == problems[j].1
        }
}

/// After one more report at the end of `ds`.
pub proof fn lemma_reported(
    prior: Seq<ProjectDiagnostic>,
    ds: Seq<ProjectDiagnostic>,
    start: int,
    path: Seq<char>,
    code: DiagnosticCode,
    problems: Seq<(Option<TextRange>, Seq<char>)>,
    p: (Option<TextRange>, Seq<char>),
)
    requires
        0 <= start <= prior.len(),
        ds.len() == prior.len() + 1,
        ds.subrange(0, prior.len() as int) == prior,
        reports(path, code, prior.subrange(start, prior.len() as int), problems),
        ds.last().path@ == path,
        ds.last().severity == DiagnosticSeverity::Error,
        ds.last().code == code,
        ds.last().range == p.0,
        ds.last().message@ == p.1,
    ensures
        reports(path, code, ds.subrange(start, ds.len() as int), problems.push(p)),
        ds.subrange(0, start) == prior.subrange(0, start),
{
    let added = ds.subrange(start, ds.len() as int);
    let prev = prior.subrange(start, prior.len() as int);
    assert forall|j: int| 0 <= j < prev.len() implies added[j] == prev[j] by {
        assert(ds.subrange(0, prior.len() as int)[start + j] == prior[start + j]);
    }
    assert forall|j: int| 0 <= j < start implies ds.subrange(0, start)[j] == prior.subrange(0, start)[j] by {
        assert(ds.subrange(0, prior.len() as int)[j] == prior[j]);
    }
    assert(ds.subrange(0, start) =~= prior.subrange(0, start));
    assert forall|j: int| 0 <= j < added.len() implies {
        &&& (#[trigger] added[j]).path@ == path
        &&& added[j].severity == DiagnosticSeverity::Error
        &&& added[j].code == code
        &&& added[j].range == problems.push(p)[j].0
        &&& added[j].message@ == problems.push(p)[j].1
    } by {
        if j < prev.len() {
            assert(added[j] == prev[j]);
        }
    }
}

pub fn report(
    diagnostics: &mut Vec<ProjectDiagnostic>,
    path: &str,
    code: DiagnosticCode,
    range: Option<TextRange>,
    message: String,
)
    ensures
        final(diagnostics)@.len() == old(diagnostics)@.len() + 1,
        final(diagnostics)@.subrange(0, old(diagnostics)@.len() as int) == old(diagnostics)@,
        final(diagnostics)@.last().path@ == path@,
        final(diagnostics)@.last().severity == DiagnosticSeverity::Error,
        final(diagnostics)@.last().code == code,
        final(diagnostics)@.last().range == range,
        final(diagnostics)@.last().message@ == message@,
{
    let d = ProjectDiagnostic::error(String::from_str(path), range, code, message);
    diagnostics.push(d);
    assert(final(diagnostics)@.subrange(0, old(diagnostics)@.len() as int) =~= old(diagnostics)@);
}

/// Whether an import before the `i`-th uses its alias.
fn alias_used_before(imports: &Vec<DawnImport>, i: usize) -> (b: bool)
    requires
        i < imports@.len(),
    ensures
        b == aliases_of(imports@).subrange(0, i as int).contains(imports@[i as int].alias@),
{
    let ghost pre = aliases_of(imports@).subrange(0, i as int);
    let mut k: usize = 0;
    while k < i
        invariant
            i < imports@.len(),
            k <= i,
            pre == aliases_of(imports@).subrange(0, i as int),
            forall|m: int| 0 <= m < k ==> pre[m] != imports@[i as int].alias@,
        decreases i - k,
    {
        if str_eq(imports[k].alias.as_str(), imports[i].alias.as_str()) {
            assert(pre[k as int] == imports@[i as int].alias@);
            return true;
        }
        k += 1;
    }
    false
}

/// Checks the imports and exported object names of a Dawn file at `path`,
/// adding a diagnostic for each alias that is not an identifier or is used
/// twice, and for each object name that is not an identifier.
pub fn validate_module_declarations(
    path: &str,
    source_map: &YamlSourceMap,
    imports: &Vec<DawnImport>,
    object_keys: &Vec<String>,
    diagnostics: &mut Vec<ProjectDiagnostic>,
)
    ensures
        final(diagnostics)@.subrange(0, old(diagnostics)@.len() as int) == old(diagnostics)@,
        final(diagnostics)@.len() >= old(diagnostics)@.len(),
        reports(
            path@,
            DiagnosticCode::Import,
            final(diagnostics)@.subrange(old(diagnostics)@.len() as int, final(diagnostics)@.len() as int),
            alias_problems(source_map@, aliases_of(imports@)) + name_problems(source_map@, names_of(object_keys@)),
        ),
{
    let ghost start = diagnostics@.len();
    let ghost before = diagnostics@;
    let ghost sm = source_map@;
    let ghost aliases = aliases_of(imports@);
    let mut i: usize = 0;
    while i < imports.len()
        invariant
            i <= imports@.len(),
            start == before.len(),
            sm == source_map@,
            aliases == aliases_of(imports@),
            diagnostics@.len() >= start,
            diagnostics@.subrange(0, start as int) == before,
            reports(
                path@,
                DiagnosticCode::Import,
                diagnostics@.subrange(start as int, diagnostics@.len() as int),
                alias_problems(sm, aliases.subrange(0, i as int)),
            ),
        decreases imports@.len() - i,
    {
        let ghost pre = aliases.subrange(0, i as int);
        let ghost next = aliases.subrange(0, i + 1);
        assert(next.drop_last() =~= pre);
        assert(next.last() == imports@[i as int].alias@);
        let alias_path = YamlPath::root().field(String::from_str("imports")).index(i).field(String::from_str("as"));
        assert(alias_path@ =~= import_alias_path(i as int));
        let range = source_map.value_range(alias_path);
        let ghost invalid: Seq<(Option<TextRange>, Seq<char>)> = match identifier_problem(imports@[i as int].alias@) {
            Some(p) => seq![(range, "import alias"@ + p)],
            None => seq![],
        };
        match validate_identifier(imports[i].alias.as_str(), "import alias") {
            Ok(()) => {
                assert(alias_problems(sm, pre) + invalid =~= alias_problems(sm, pre));
            },
            Err(message) => {
                let ghost prior = diagnostics@;
                report(diagnostics, path, DiagnosticCode::Import, range, message);
                proof {
                    lemma_reported(prior, diagnostics@, start as int, path@, DiagnosticCode::Import, alias_problems(sm, pre), (range, message@));
                    assert(alias_problems(sm, pre).push((range, message@)) =~= alias_problems(sm, pre) + invalid);
                }
            },
        }
        let duplicate = alias_used_before(imports, i);
        assert(pre =~= aliases_of(imports@).subrange(0, i as int));
        let ghost dup: Seq<(Option<TextRange>, Seq<char>)> = if duplicate {
            seq![(range, "duplicate import alias `"@ + next.last() + "`"@)]
        } else {
            seq![]
        };
        if duplicate {
            let m = concat3("duplicate import alias `", imports[i].alias.as_str(), "`");
            let ghost prior = diagnostics@;
            report(diagnostics, path, DiagnosticCode::Import, range, m);
            proof {
                lemma_reported(prior, diagnostics@, start as int, path@, DiagnosticCode::Import, alias_problems(sm, pre) + invalid, (range, m@));
                assert((alias_problems(sm, pre) + invalid).push((range, m@)) =~= alias_problems(sm, pre) + invalid + dup);
            }
        } else {
            assert(alias_problems(sm, pre) + invalid + dup =~= alias_problems(sm, pre) + invalid);
        }
        assert(alias_problems(sm, next) == alias_problems(sm, pre) + invalid + dup);
        i += 1;
    }
    assert(aliases.subrange(0, imports@.len() as int) =~= aliases);
    let ghost alias_part = alias_problems(sm, aliases);
    let ghost names = names_of(object_keys@);
    let mut k: usize = 0;
    while k < object_keys.len()
        invariant
            k <= object_keys@.len(),
            start == before.len(),
            sm == source_map@,
            names == names_of(object_keys@),
            diagnostics@.len() >= start,
            diagnostics@.subrange(0, start as int) == before,
            reports(
                path@,
                DiagnosticCode::Import,
                diagnostics@.subrange(start as int, diagnostics@.len() as int),
                alias_part + name_problems(sm, names.subrange(0, k as int)),
            ),
        decreases object_keys@.len() - k,
    {
        let ghost pre = names.subrange(0, k as int);
        let ghost next = names.subrange(0, k + 1);
        assert(next.drop_last() =~= pre);
        assert(next.last() == object_keys@[k as int]@);
        match validate_identifier(object_keys[k].as_str(), "exported object name") {
            Ok(()) => {
                assert(alias_part + name_problems(sm, next) =~= alias_part + name_problems(sm, pre));
            },
            Err(message) => {
                let key_path = YamlPath::root().field(object_keys[k].clone());
                assert(key_path@ =~= seq![SegmentView::Field(object_keys@[k as int]@)]);
                let range = source_map.key_range(key_path);
                let ghost prior = diagnostics@;
                report(diagnostics, path, DiagnosticCode::Import, range, message);
                proof {
                    lemma_reported(
                        prior,
                        diagnostics@,
                        start as int,
                        path@,
                        DiagnosticCode::Import,
                        alias_part + name_problems(sm, pre),
                        (range, message@),
                    );
                    assert((alias_part + name_problems(sm, pre)).push((range, message@)) =~= alias_part + name_problems(
                        sm,
                        next,
                    ));
                }
            },
        }
        k += 1;
    }
    assert(names.subrange(0, object_keys@.len() as int) =~= names);
}

} // verus!
