//! Checking the mark collections of the sequences of a Dawn file.
use vstd::prelude::*;
use crate::analysis::declarations::{lemma_reported, report, reports, value_range_at};
use crate::diagnostics::{DiagnosticCode, ProjectDiagnostic, TextRange};
use crate::document::marks::{is_mark_collection_key, mark_collection_key_problem};
use crate::document::timeline::SequenceMarkCollectionDocument;
use crate::model::color::{spec_parse_color, Color};
use crate::parse::source_map::{SegmentView, YamlPath, YamlSourceMap, YamlSourceRange};
use crate::text::{concat, concat3, str_eq};

verus! {

/// The path of `field` of the `i`-th mark collection of the sequence `object`.
pub open spec fn collection_field_path(object: Seq<char>, i: int, field: Seq<char>) -> Seq<SegmentView> {
    seq![
        SegmentView::Field(object),
        SegmentView::Field("mark_collections"@),
        SegmentView::Index(i as usize),
        SegmentView::Field(field),
    ]
}

pub open spec fn collection_keys(cs: Seq<SequenceMarkCollectionDocument>) -> Seq<Seq<char>> {
    cs.map_values(|c: SequenceMarkCollectionDocument| c.key@)
}

/// The problems with the mark collections `cs` of the sequence `object`, in
/// order: for each, a key that does not match `[a-z][a-z0-9_]*`, a key that
/// an earlier collection has, and a color that does not parse.
pub open spec fn collection_problems(
    sm: Map<Seq<SegmentView>, YamlSourceRange>,
    object: Seq<char>,
    cs: Seq<SequenceMarkCollectionDocument>,
) -> Seq<(Option<TextRange>, Seq<char>)>
    decreases cs.len(),
{
    if cs.len() == 0 {
        seq![]
    } else {
        let i = cs.len() - 1;
        let key = cs.last().key@;
        let key_range = value_range_at(sm, collection_field_path(object, i, "key"@));
        let bad_key = if mark_collection_key_problem(key) is Some {
            seq![(key_range, "sequence `"@ + object + "` mark collection key `"@ + key + "` must match [a-z][a-z0-9_]*"@)]
        } else {
            seq![]
        };
        let duplicate = if collection_keys(cs.drop_last()).contains(key) {
            seq![(key_range, "sequence `"@ + object + "` has duplicate mark collection key `"@ + key + "`"@)]
        } else {
            seq![]
        };
        let bad_color = match spec_parse_color(cs.last().color@) {
            Err(e) => seq![
                (
                    value_range_at(sm, collection_field_path(object, i, "color"@)),
                    "sequence `"@ + object + "` mark collection `"@ + key + "` color is invalid: "@ + e,
                ),
            ],
            Ok(_) => seq![],
        };
        collection_problems(sm, object, cs.drop_last()) + bad_key + duplicate + bad_color
    }
}

/// The problems with the mark collections of each sequence, sequence by
/// sequence.
pub open spec fn sequence_mark_problems(
    sm: Map<Seq<SegmentView>, YamlSourceRange>,
    seqs: Seq<(String, Vec<SequenceMarkCollectionDocument>)>,
) -> Seq<(Option<TextRange>, Seq<char>)>
    decreases seqs.len(),
{
    if seqs.len() == 0 {
        seq![]
    } else {
        sequence_mark_problems(sm, seqs.drop_last()) + collection_problems(sm, seqs.last().0@, seqs.last().1@)
    }
}

fn key_used_before(cs: &Vec<SequenceMarkCollectionDocument>, i: usize) -> (b: bool)
    requires
        i < cs@.len(),
    ensures
        b == collection_keys(cs@).subrange(0, i as int).contains(cs@[i as int].key@),
{
    let ghost pre = collection_keys(cs@).subrange(0, i as int);
    let mut k: usize = 0;
    while k < i
        invariant
            i < cs@.len(),
            k <= i,
            pre == collection_keys(cs@).subrange(0, i as int),
            forall|m: int| 0 <= m < k ==> pre[m] != cs@[i as int].key@,
        decreases i - k,
    {
        if str_eq(cs[k].key.as_str(), cs[i].key.as_str()) {
            assert(pre[k as int] == cs@[i as int].key@);
            return true;
        }
        k += 1;
    }
    false
}

fn field_path(object: &String, i: usize, field: &str) -> (p: YamlPath)
    ensures
        p@ == collection_field_path(object@, i as int, field@),
{
    let p = YamlPath::root().field(object.clone()).field(String::from_str("mark_collections")).index(i).field(
        String::from_str(field),
    );
    assert(p@ =~= collection_field_path(object@, i as int, field@));
    p
}

/// Reports the mark collections of one sequence, `object`, at `path`.
fn validate_collections(
    path: &str,
    source_map: &YamlSourceMap,
    object: &String,
    cs: &Vec<SequenceMarkCollectionDocument>,
    diagnostics: &mut Vec<ProjectDiagnostic>,
    Ghost(start): Ghost<int>,
    Ghost(done): Ghost<Seq<(Option<TextRange>, Seq<char>)>>,
)
    requires
        0 <= start <= old(diagnostics)@.len(),
        reports(
            path@,
            DiagnosticCode::Sequence,
            old(diagnostics)@.subrange(start, old(diagnostics)@.len() as int),
            done,
        ),
    ensures
        final(diagnostics)@.len() >= old(diagnostics)@.len(),
        final(diagnostics)@.subrange(0, start) == old(diagnostics)@.subrange(0, start),
        reports(
            path@,
            DiagnosticCode::Sequence,
            final(diagnostics)@.subrange(start, final(diagnostics)@.len() as int),
            done + collection_problems(source_map@, object@, cs@),
        ),
{
    let ghost sm = source_map@;
    let ghost head = diagnostics@.subrange(0, start);
    let mut i: usize = 0;
    assert(cs@.subrange(0, 0) =~= Seq::<SequenceMarkCollectionDocument>::empty());
    assert(done + collection_problems(sm, object@, cs@.subrange(0, 0)) =~= done);
    while i < cs.len()
        invariant
            i <= cs@.len(),
            0 <= start <= diagnostics@.len(),
            sm == source_map@,
            head == old(diagnostics)@.subrange(0, start),
            diagnostics@.subrange(0, start) == head,
            reports(
                path@,
                DiagnosticCode::Sequence,
                diagnostics@.subrange(start, diagnostics@.len() as int),
                done + collection_problems(sm, object@, cs@.subrange(0, i as int)),
            ),
        decreases cs@.len() - i,
    {
        let ghost pre = cs@.subrange(0, i as int);
        let ghost next = cs@.subrange(0, i + 1);
        assert(next.drop_last() =~= pre);
        assert(next.last() == cs@[i as int]);
        let ghost acc = done + collection_problems(sm, object@, pre);
        let c = &cs[i];
        let key_range = source_map.value_range(field_path(object, i, "key"));
        let ghost bad_key: Seq<(Option<TextRange>, Seq<char>)> = if mark_collection_key_problem(c.key@) is Some {
            seq![(key_range, "sequence `"@ + object@ + "` mark collection key `"@ + c.key@ + "` must match [a-z][a-z0-9_]*"@)]
        } else {
            seq![]
        };
        if !is_mark_collection_key(c.key.as_str()) {
            let head_text = concat3("sequence `", object.as_str(), "` mark collection key `");
            let m = concat3(head_text.as_str(), c.key.as_str(), "` must match [a-z][a-z0-9_]*");
            let ghost prior = diagnostics@;
            report(diagnostics, path, DiagnosticCode::Sequence, key_range, m);
            proof {
                lemma_reported(prior, diagnostics@, start, path@, DiagnosticCode::Sequence, acc, (key_range, m@));
                assert(acc.push((key_range, m@)) =~= acc + bad_key);
                assert(diagnostics@.subrange(0, start) =~= head) by {
                    assert(prior.subrange(0, start) == head);
                }
            }
        } else {
            assert(acc + bad_key =~= acc);
        }
        let ghost acc2 = acc + bad_key;
        let duplicate = key_used_before(cs, i);
        assert(collection_keys(pre) =~= collection_keys(cs@).subrange(0, i as int));
        let ghost dup: Seq<(Option<TextRange>, Seq<char>)> = if duplicate {
            seq![(key_range, "sequence `"@ + object@ + "` has duplicate mark collection key `"@ + c.key@ + "`"@)]
        } else {
            seq![]
        };
        if duplicate {
            let head_text = concat3("sequence `", object.as_str(), "` has duplicate mark collection key `");
            let m = concat3(head_text.as_str(), c.key.as_str(), "`");
            let ghost prior = diagnostics@;
            report(diagnostics, path, DiagnosticCode::Sequence, key_range, m);
            proof {
                lemma_reported(prior, diagnostics@, start, path@, DiagnosticCode::Sequence, acc2, (key_range, m@));
                assert(acc2.push((key_range, m@)) =~= acc2 + dup);
                assert(diagnostics@.subrange(0, start) =~= head) by {
                    assert(prior.subrange(0, start) == head);
                }
            }
        } else {
            assert(acc2 + dup =~= acc2);
        }
        let ghost acc3 = acc2 + dup;
        match Color::parse(c.color.as_str()) {
            Ok(_) => {
                assert(acc3 + seq![] =~= acc3);
            },
            Err(e) => {
                let color_range = source_map.value_range(field_path(object, i, "color"));
                let head_text = concat3("sequence `", object.as_str(), "` mark collection `");
                let middle = concat3(head_text.as_str(), c.key.as_str(), "` color is invalid: ");
                let m = concat(middle.as_str(), e.as_str());
                let ghost prior = diagnostics@;
                report(diagnostics, path, DiagnosticCode::Sequence, color_range, m);
                proof {
                    lemma_reported(prior, diagnostics@, start, path@, DiagnosticCode::Sequence, acc3, (color_range, m@));
                    assert(diagnostics@.subrange(0, start) =~= head) by {
                        assert(prior.subrange(0, start) == head);
                    }
                }
            },
        }
        assert(done + collection_problems(sm, object@, next) =~= acc3 + (match spec_parse_color(c.color@) {
            Err(e) => seq![
                (
                    value_range_at(sm, collection_field_path(object@, i as int, "color"@)),
                    "sequence `"@ + object@ + "` mark collection `"@ + c.key@ + "` color is invalid: "@ + e,
                ),
            ],
            Ok(_) => seq![],
        }));
        i += 1;
    }
    assert(cs@.subrange(0, cs@.len() as int) =~= cs@);
}

/// Checks the mark collections of the sequences `sequences` (each an object
/// key and its collections) of the Dawn file at `path`: a diagnostic for each
/// key that does not match `[a-z][a-z0-9_]*`, each key used twice in a
/// sequence, and each color that does not parse.
pub fn validate_sequence_marks(
    path: &str,
    source_map: &YamlSourceMap,
    sequences: &Vec<(String, Vec<SequenceMarkCollectionDocument>)>,
    diagnostics: &mut Vec<ProjectDiagnostic>,
)
    ensures
        final(diagnostics)@.len() >= old(diagnostics)@.len(),
        final(diagnostics)@.subrange(0, old(diagnostics)@.len() as int) == old(diagnostics)@,
        reports(
            path@,
            DiagnosticCode::Sequence,
            final(diagnostics)@.subrange(old(diagnostics)@.len() as int, final(diagnostics)@.len() as int),
            sequence_mark_problems(source_map@, sequences@),
        ),
{
    let ghost start = diagnostics@.len() as int;
    let ghost before = diagnostics@;
    let mut k: usize = 0;
    assert(diagnostics@.subrange(start, start) =~= Seq::<ProjectDiagnostic>::empty());
    assert(diagnostics@.subrange(0, start) =~= before);
    while k < sequences.len()
        invariant
            k <= sequences@.len(),
            start == before.len(),
            diagnostics@.len() >= start,
            diagnostics@.subrange(0, start) == before,
            reports(
                path@,
                DiagnosticCode::Sequence,
                diagnostics@.subrange(start, diagnostics@.len() as int),
                sequence_mark_problems(source_map@, sequences@.subrange(0, k as int)),
            ),
        decreases sequences@.len() - k,
    {
        assert(sequences@.subrange(0, k + 1).drop_last() =~= sequences@.subrange(0, k as int));
        assert(sequences@.subrange(0, k + 1).last() == sequences@[k as int]);
        validate_collections(
            path,
            source_map,
            &sequences[k].0,
            &sequences[k].1,
            diagnostics,
            Ghost(start),
            Ghost(sequence_mark_problems(source_map@, sequences@.subrange(0, k as int))),
        );
        k += 1;
    }
    assert(sequences@.subrange(0, sequences@.len() as int) =~= sequences@);
}

} // verus!
