//! The first reading of a Dawn file: its source map, then its top-level
//! objects by key, with the `imports` entry set apart.
use vstd::prelude::*;
use crate::analysis::visit::without;
use crate::parse::builder::{spec_marker_range, yaml_error_range, DawnParseDiagnostic};
use crate::parse::source_map::YamlSourceMap;
use crate::parse::yaml_events::{build_source_map, spec_source_map};
use crate::diagnostics::TextRange;
use crate::text::{concat3, str_eq};
use crate::model::kinds::{spec_object_kind_label, ObjectKind};
use crate::parse::source_map::{SegmentView, YamlPath, YamlSourceRange};

verus! {

#[verifier::external_type_specification]
#[verifier::external_body]
pub struct ExYamlValue(serde_yaml::Value);

/// The keys, in order, of the mapping that `serde_yaml` reads from `text`
/// into an `IndexMap<String, serde_yaml::Value>`; or the error's `Display`
/// text with its location (line and column, both counted from one).
pub uninterp spec fn spec_yaml_top_level_keys(text: Seq<char>) -> Result<
    Seq<Seq<char>>,
    (Seq<char>, Option<(usize, usize)>),
>;

pub open spec fn entry_keys(es: Seq<(String, serde_yaml::Value)>) -> Seq<Seq<char>> {
    es.map_values(|e: (String, serde_yaml::Value)| e.0@)
}

/// `serde_yaml::from_str::<IndexMap<String, serde_yaml::Value>>`, its entries
/// taken out in order. The keys are the named result for `text`, and they
/// are distinct, as an `IndexMap`'s keys are; on an error, its `Display`
/// text and location. What the values hold is not stated.
#[verifier::external_body]
fn yaml_top_level(text: &str) -> (r: Result<Vec<(String, serde_yaml::Value)>, (String, Option<(usize, usize)>)>)
    ensures
        spec_yaml_top_level_keys(text@) == match r {
            Ok(es) => Ok(entry_keys(es@)),
            Err(e) => Err((e.0@, e.1)),
        },
        r matches Ok(es) ==> entry_keys(es@).no_duplicates(),
{
    serde_yaml::from_str::<indexmap::IndexMap<String, serde_yaml::Value>>(text)
        .map(|map| map.into_iter().collect())
        .map_err(|error| (error.to_string(), error.location().map(|l| (l.line(), l.column()))))
}

/// The range of a `serde_yaml` error at `location` (line and column counted
/// from one).
pub open spec fn spec_yaml_error_range(location: Option<(usize, usize)>) -> Option<TextRange> {
    match location {
        None => None,
        Some((line, column)) => Some(
            spec_marker_range(
                line,
                if column >= 1 {
                    (column - 1) as usize
                } else {
                    0
                },
            ),
        ),
    }
}

/// Sets the `imports` entry of the top-level `entries` apart from the
/// objects: the entry keyed `imports` (the last, if several), and the other entries,
/// in order.
pub fn split_imports(entries: Vec<(String, serde_yaml::Value)>) -> (r: (
    Option<serde_yaml::Value>,
    Vec<(String, serde_yaml::Value)>,
))
    ensures
        r.0 is Some <==> entry_keys(entries@).contains("imports"@),
        entry_keys(r.1@) == without(entry_keys(entries@), "imports"@),
{
    let mut entries = entries;
    let ghost all = entry_keys(entries@);
    let mut imports: Option<serde_yaml::Value> = None;
    let mut objects: Vec<(String, serde_yaml::Value)> = Vec::new();
    let ghost mut k: int = 0;
    while entries.len() > 0
        invariant
            0 <= k <= all.len(),
            entry_keys(entries@) == all.subrange(k, all.len() as int),
            entry_keys(objects@) == without(all.subrange(0, k), "imports"@),
            imports is Some <==> all.subrange(0, k).contains("imports"@),
        decreases entries@.len(),
    {
        let ghost before = objects@;
        let ghost old_entries = entries@;
        assert(entry_keys(old_entries).len() == all.len() - k);
        assert(k < all.len());
        assert(entry_keys(old_entries)[0] == all.subrange(k, all.len() as int)[0]);
        assert(all.subrange(k, all.len() as int)[0] == all[k]);
        assert(entry_keys(old_entries)[0] == old_entries[0].0@);
        let entry = entries.remove(0);
        assert(entry == old_entries[0]);
        let (key, value) = entry;
        assert(key@ == old_entries[0].0@);
        assert(key@ == all[k]);
        assert(entry_keys(entries@) =~= entry_keys(old_entries).drop_first());
        proof {
            assert(all.subrange(0, k + 1).drop_last() =~= all.subrange(0, k));
            assert(all.subrange(0, k + 1).last() == all[k]);
            vstd::seq_lib::lemma_seq_contains_after_push(all.subrange(0, k), all[k], "imports"@);
            assert(all.subrange(0, k + 1) =~= all.subrange(0, k).push(all[k]));
        }
        if str_eq(key.as_str(), "imports") {
            imports = Some(value);
        } else {
            objects.push((key, value));
            assert(entry_keys(objects@) =~= entry_keys(before).push(all[k]));
        }
        proof {
            k = k + 1;
        }
        assert(entry_keys(entries@) =~= all.subrange(k, all.len() as int));
    }
    assert(all.subrange(0, all.len() as int) =~= all);
    (imports, objects)
}

/// The top level of a Dawn file: its source map, its `imports` entry if it
/// has one, and its other objects by key, in order.
pub struct DawnTopLevel {
    pub source_map: YamlSourceMap,
    pub imports: Option<serde_yaml::Value>,
    pub objects: Vec<(String, serde_yaml::Value)>,
}

/// Reads the top level of the Dawn file `text`: the source map first (its
/// error is the file's), then the mapping of objects (its error placed where
/// `serde_yaml` says), with the `imports` entry set apart from the objects.
pub fn read_dawn_top_level(text: &str) -> (r: Result<DawnTopLevel, DawnParseDiagnostic>)
    ensures
        spec_source_map(text@) matches Err((m, range)) ==> (r matches Err(d) && d.message@ == m && d.range
            == range),
        spec_source_map(text@) matches Ok(map) ==> match spec_yaml_top_level_keys(text@) {
            Err((m, location)) => r matches Err(d) && d.message@ == m && d.range == spec_yaml_error_range(location),
            Ok(keys) => r matches Ok(t) && t.source_map@ == map && (t.imports is Some <==> keys.contains(
                "imports"@,
            )) && entry_keys(t.objects@) == without(keys, "imports"@),
        },
{
    let source_map = match build_source_map(text) {
        Ok(m) => m,
        Err(d) => {
            return Err(d);
        },
    };
    let entries = match yaml_top_level(text) {
        Ok(es) => es,
        Err((message, location)) => {
            return Err(DawnParseDiagnostic { message, range: yaml_error_range(location) });
        },
    };
    let (imports, objects) = split_imports(entries);
    Ok(DawnTopLevel { source_map, imports, objects })
}

/// The text of the entry `key` of the YAML value `value`, when `value` is a
/// mapping whose entry `key` is a string.
pub uninterp spec fn spec_yaml_entry_str(value: serde_yaml::Value, key: Seq<char>) -> Option<Seq<char>>;

/// `serde_yaml::Value::as_mapping`, then `Mapping::get` with `key`, then
/// `Value::as_str`: the result is the named entry text of `value` at `key`.
#[verifier::external_body]
fn yaml_entry_str(value: &serde_yaml::Value, key: &str) -> (r: Option<String>)
    ensures
        spec_yaml_entry_str(*value, key@) == match r {
            Some(s) => Some(s@),
            None => None,
        },
{
    value.as_mapping()?.get(key)?.as_str().map(str::to_string)
}

/// The kind of Dawn object tagged `tag`: the kinds that a file can hold
/// (every kind but an effect, which lives in a script).
pub open spec fn spec_kind_for_tag(tag: Seq<char>) -> Option<ObjectKind> {
    if tag == spec_object_kind_label(ObjectKind::Project) {
        Some(ObjectKind::Project)
    } else if tag == spec_object_kind_label(ObjectKind::Display) {
        Some(ObjectKind::Display)
    } else if tag == spec_object_kind_label(ObjectKind::Controller) {
        Some(ObjectKind::Controller)
    } else if tag == spec_object_kind_label(ObjectKind::Layout) {
        Some(ObjectKind::Layout)
    } else if tag == spec_object_kind_label(ObjectKind::Fixture) {
        Some(ObjectKind::Fixture)
    } else if tag == spec_object_kind_label(ObjectKind::Patch) {
        Some(ObjectKind::Patch)
    } else if tag == spec_object_kind_label(ObjectKind::Sequence) {
        Some(ObjectKind::Sequence)
    } else if tag == spec_object_kind_label(ObjectKind::Curve) {
        Some(ObjectKind::Curve)
    } else {
        None
    }
}

fn map_range(map: &YamlSourceMap, path: YamlPath) -> (r: Option<TextRange>)
    ensures
        r == (if map@.contains_key(path@) {
            Some(map@[path@].value_range)
        } else {
            None
        }),
{
    map.entry_range(path)
}

fn kind_for_tag(t: &str) -> (r: Option<ObjectKind>)
    ensures
        r == spec_kind_for_tag(t@),
{
            let kinds = [
                ObjectKind::Project,
                ObjectKind::Display,
                ObjectKind::Controller,
                ObjectKind::Layout,
                ObjectKind::Fixture,
                ObjectKind::Patch,
                ObjectKind::Sequence,
                ObjectKind::Curve,
            ];
            let mut i: usize = 0;
            while i < 8
                invariant
                    i <= 8,
                    kinds@ == seq![
                        ObjectKind::Project,
                        ObjectKind::Display,
                        ObjectKind::Controller,
                        ObjectKind::Layout,
                        ObjectKind::Fixture,
                        ObjectKind::Patch,
                        ObjectKind::Sequence,
                        ObjectKind::Curve,
                    ],
                    forall|j: int| 0 <= j < i ==> t@ != spec_object_kind_label(#[trigger] kinds@[j]),
                decreases 8 - i,
            {
                if str_eq(t, kinds[i].label()) {
                    return Some(kinds[i]);
                }
                i += 1;
            }
            assert(t@ != spec_object_kind_label(kinds@[0]));
            assert(t@ != spec_object_kind_label(kinds@[1]));
            assert(t@ != spec_object_kind_label(kinds@[2]));
            assert(t@ != spec_object_kind_label(kinds@[3]));
            assert(t@ != spec_object_kind_label(kinds@[4]));
            assert(t@ != spec_object_kind_label(kinds@[5]));
            assert(t@ != spec_object_kind_label(kinds@[6]));
            assert(t@ != spec_object_kind_label(kinds@[7]));
    None
}

/// The value range of `path` in `map`, if the map knows it.
pub open spec fn range_at(map: Map<Seq<SegmentView>, YamlSourceRange>, path: Seq<SegmentView>) -> Option<TextRange> {
    if map.contains_key(path) {
        Some(map[path].value_range)
    } else {
        None
    }
}

/// The kind of the object at `base` whose `type` entry reads `tag`, or the
/// message and range of why it has none.
pub open spec fn spec_kind_outcome(
    tag: Option<Seq<char>>,
    map: Map<Seq<SegmentView>, YamlSourceRange>,
    base: Seq<SegmentView>,
) -> Result<ObjectKind, (Seq<char>, Option<TextRange>)> {
    match tag {
        None => Err(("missing field `type`"@, range_at(map, base))),
        Some(t) => match spec_kind_for_tag(t) {
            Some(k) => Ok(k),
            None => Err(
                ("unknown Dawn object type `"@ + t + "`"@, range_at(map, base.push(SegmentView::Field("type"@)))),
            ),
        },
    }
}

pub open spec fn kind_result_view(r: Result<ObjectKind, DawnParseDiagnostic>) -> Result<
    ObjectKind,
    (Seq<char>, Option<TextRange>),
> {
    match r {
        Ok(k) => Ok(k),
        Err(d) => Err((d.message@, d.range)),
    }
}

/// The kind of the object at `base` whose `type` entry reads `tag`, or why
/// it has none: no `type` (reported at the object), or a tag that names no
/// kind a file can hold (reported at the `type` entry).
pub fn object_kind_for_tag(tag: Option<String>, map: &YamlSourceMap, base: &YamlPath) -> (r: Result<
    ObjectKind,
    DawnParseDiagnostic,
>)
    ensures
        kind_result_view(r) == spec_kind_outcome(
            match tag {
                Some(t) => Some(t@),
                None => None,
            },
            map@,
            base@,
        ),
{
    match tag {
        None => Err(DawnParseDiagnostic {
            message: String::from_str("missing field `type`"),
            range: map_range(map, base.duplicate()),
        }),
        Some(t) => {
            if let Some(k) = kind_for_tag(t.as_str()) {
                return Ok(k);
            }
            Err(DawnParseDiagnostic {
                message: concat3("unknown Dawn object type `", t.as_str(), "`"),
                range: map_range(map, base.duplicate().field(String::from_str("type"))),
            })
        },
    }
}

/// The kind of the top-level object `value` at `base`, by its `type` entry.
pub fn object_kind_of(value: &serde_yaml::Value, map: &YamlSourceMap, base: &YamlPath) -> (r: Result<
    ObjectKind,
    DawnParseDiagnostic,
>)
    ensures
        kind_result_view(r) == spec_kind_outcome(spec_yaml_entry_str(*value, "type"@), map@, base@),
{
    object_kind_for_tag(yaml_entry_str(value, "type"), map, base)
}

} // verus!
