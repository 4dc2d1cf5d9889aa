//! Finding where a Dawn file names a fixture, so that a diagnostic about a
//! fixture that does not exist can point at a use of it.
use vstd::prelude::*;
use crate::diagnostics::TextRange;
use crate::model::kinds::FixtureId;
use crate::parse::source_map::{SegmentView, YamlPath, YamlSourceMap, YamlSourceRange};
use crate::analysis::refs::{field, index};

verus! {

/// The fixtures that an object of a Dawn file names: the members of each
/// group of a layout, the fixture of each route of a patch, and for each
/// effect of a sequence the fixture it targets (`None` for another target).
#[derive(Debug, Clone)]
pub enum FixtureUses {
    Layout { groups: Vec<Vec<FixtureId>> },
    Patch { routes: Vec<FixtureId> },
    Sequence { effect_targets: Vec<Option<FixtureId>> },
    Other,
}

/// A file of the project as the search reads it: its path, and, when it was
/// parsed, its source map and its objects by key, in order.
pub struct FixtureFile {
    pub path: String,
    pub parsed: Option<(YamlSourceMap, Vec<(String, FixtureUses)>)>,
}

/// The first position at or after `i` of `ids` that is `id`.
pub open spec fn first_id(ids: Seq<FixtureId>, id: FixtureId, i: int) -> Option<int>
    decreases ids.len() - i,
{
    if i < 0 || i >= ids.len() {
        None
    } else if ids[i] == id {
        Some(i)
    } else {
        first_id(ids, id, i + 1)
    }
}

/// The first effect at or after `i` whose target is the fixture `id`.
pub open spec fn first_target(targets: Seq<Option<FixtureId>>, id: FixtureId, i: int) -> Option<int>
    decreases targets.len() - i,
{
    if i < 0 || i >= targets.len() {
        None
    } else if targets[i] == Some(id) {
        Some(i)
    } else {
        first_target(targets, id, i + 1)
    }
}

/// The first group at or after `g` that has `id` as a member, with the
/// member's position.
pub open spec fn first_member(groups: Seq<Vec<FixtureId>>, id: FixtureId, g: int) -> Option<(int, int)>
    decreases groups.len() - g,
{
    if g < 0 || g >= groups.len() {
        None
    } else {
        match first_id(groups[g]@, id, 0) {
            Some(m) => Some((g, m)),
            None => first_member(groups, id, g + 1),
        }
    }
}

/// Where the object `key` first names the fixture `id`, if it does.
pub open spec fn use_path(key: Seq<char>, uses: FixtureUses, id: FixtureId) -> Option<Seq<SegmentView>> {
    let at = field(Seq::empty(), key);
    match uses {
        FixtureUses::Layout { groups } => match first_member(groups@, id, 0) {
            Some((g, m)) => Some(index(field(index(field(at, "groups"@), g), "members"@), m)),
            None => None,
        },
        FixtureUses::Patch { routes } => match first_id(routes@, id, 0) {
            Some(r) => Some(field(index(field(at, "routes"@), r), "fixture"@)),
            None => None,
        },
        FixtureUses::Sequence { effect_targets } => match first_target(effect_targets@, id, 0) {
            Some(e) => Some(field(field(index(field(at, "effects"@), e), "target"@), "id"@)),
            None => None,
        },
        FixtureUses::Other => None,
    }
}

/// Where the first object at or after `i` that names `id` names it.
pub open spec fn objects_path(objects: Seq<(String, FixtureUses)>, id: FixtureId, i: int) -> Option<Seq<SegmentView>>
    decreases objects.len() - i,
{
    if i < 0 || i >= objects.len() {
        None
    } else {
        match use_path(objects[i].0@, objects[i].1, id) {
            Some(p) => Some(p),
            None => objects_path(objects, id, i + 1),
        }
    }
}

/// Where the file names `id`: the value range of the first use, when the
/// source map knows it; nothing for a file that was not parsed.
pub open spec fn file_fixture_range(
    parsed: Option<(Map<Seq<SegmentView>, YamlSourceRange>, Seq<(String, FixtureUses)>)>,
    id: FixtureId,
) -> Option<TextRange> {
    match parsed {
        None => None,
        Some((map, objects)) => match objects_path(objects, id, 0) {
            Some(p) => if map.contains_key(p) {
                Some(map[p].value_range)
            } else {
                None
            },
            None => None,
        },
    }
}

pub open spec fn parsed_view(f: FixtureFile) -> Option<(Map<Seq<SegmentView>, YamlSourceRange>, Seq<(String, FixtureUses)>)> {
    match f.parsed {
        None => None,
        Some((m, os)) => Some((m@, os@)),
    }
}

/// The first file at or after `i` that names `id` where its source map
/// knows it, with the range.
pub open spec fn spec_locate_fixture_ref(files: Seq<FixtureFile>, id: FixtureId, i: int) -> Option<(Seq<char>, TextRange)>
    decreases files.len() - i,
{
    if i < 0 || i >= files.len() {
        None
    } else {
        match file_fixture_range(parsed_view(files[i]), id) {
            Some(r) => Some((files[i].path@, r)),
            None => spec_locate_fixture_ref(files, id, i + 1),
        }
    }
}

fn first_id_exec(ids: &Vec<FixtureId>, id: FixtureId) -> (r: Option<usize>)
    ensures
        match r {
            Some(k) => first_id(ids@, id, 0) == Some(k as int),
            None => first_id(ids@, id, 0) is None,
        },
{
    let mut i: usize = 0;
    while i < ids.len()
        invariant
            i <= ids@.len(),
            first_id(ids@, id, 0) == first_id(ids@, id, i as int),
        decreases ids@.len() - i,
    {
        if ids[i].0 == id.0 {
            return Some(i);
        }
        i += 1;
    }
    None
}

fn first_target_exec(targets: &Vec<Option<FixtureId>>, id: FixtureId) -> (r: Option<usize>)
    ensures
        match r {
            Some(k) => first_target(targets@, id, 0) == Some(k as int),
            None => first_target(targets@, id, 0) is None,
        },
{
    let mut i: usize = 0;
    while i < targets.len()
        invariant
            i <= targets@.len(),
            first_target(targets@, id, 0) == first_target(targets@, id, i as int),
        decreases targets@.len() - i,
    {
        match targets[i] {
            Some(t) => {
                if t.0 == id.0 {
                    return Some(i);
                }
            },
            None => {},
        }
        i += 1;
    }
    None
}

fn first_member_exec(groups: &Vec<Vec<FixtureId>>, id: FixtureId) -> (r: Option<(usize, usize)>)
    ensures
        match r {
            Some((g, m)) => first_member(groups@, id, 0) == Some((g as int, m as int)),
            None => first_member(groups@, id, 0) is None,
        },
{
    let mut g: usize = 0;
    while g < groups.len()
        invariant
            g <= groups@.len(),
            first_member(groups@, id, 0) == first_member(groups@, id, g as int),
        decreases groups@.len() - g,
    {
        match first_id_exec(&groups[g], id) {
            Some(m) => {
                return Some((g, m));
            },
            None => {},
        }
        g += 1;
    }
    None
}

fn key_path(key: &String) -> (p: YamlPath)
    ensures
        p@ == field(Seq::empty(), key@),
{
    YamlPath::root().field(key.clone())
}

fn use_path_exec(key: &String, uses: &FixtureUses, id: FixtureId) -> (r: Option<YamlPath>)
    ensures
        match r {
            Some(p) => use_path(key@, *uses, id) == Some(p@),
            None => use_path(key@, *uses, id) is None,
        },
{
    match uses {
        FixtureUses::Layout { groups } => match first_member_exec(groups, id) {
            Some((g, m)) => Some(
                key_path(key).field(String::from_str("groups")).index(g).field(String::from_str("members")).index(m),
            ),
            None => None,
        },
        FixtureUses::Patch { routes } => match first_id_exec(routes, id) {
            Some(r) => Some(key_path(key).field(String::from_str("routes")).index(r).field(String::from_str("fixture"))),
            None => None,
        },
        FixtureUses::Sequence { effect_targets } => match first_target_exec(effect_targets, id) {
            Some(e) => Some(
                key_path(key).field(String::from_str("effects")).index(e).field(String::from_str("target")).field(
                    String::from_str("id"),
                ),
            ),
            None => None,
        },
        FixtureUses::Other => None,
    }
}

fn file_fixture_range_exec(file: &FixtureFile, id: FixtureId) -> (r: Option<TextRange>)
    ensures
        r == file_fixture_range(parsed_view(*file), id),
{
    match &file.parsed {
        None => None,
        Some((map, objects)) => {
            let mut i: usize = 0;
            while i < objects.len()
                invariant
                    i <= objects@.len(),
                    parsed_view(*file) == Some((map@, objects@)),
                    objects_path(objects@, id, 0) == objects_path(objects@, id, i as int),
                decreases objects@.len() - i,
            {
                match use_path_exec(&objects[i].0, &objects[i].1, id) {
                    Some(p) => {
                        return map.value_range(p);
                    },
                    None => {},
                }
                i += 1;
            }
            None
        },
    }
}

/// Where the project's files first name the fixture `id`: the first file,
/// in order, in which some object names it, at the value range of the first
/// such use (layout group members, patch routes, sequence effect targets);
/// a file whose source map does not know that place, or that was not
/// parsed, is passed over.
pub fn locate_fixture_ref(files: &Vec<FixtureFile>, id: FixtureId) -> (r: Option<(String, TextRange)>)
    ensures
        match r {
            Some((path, range)) => spec_locate_fixture_ref(files@, id, 0) == Some((path@, range)),
            None => spec_locate_fixture_ref(files@, id, 0) is None,
        },
{
    let mut i: usize = 0;
    while i < files.len()
        invariant
            i <= files@.len(),
            spec_locate_fixture_ref(files@, id, 0) == spec_locate_fixture_ref(files@, id, i as int),
        decreases files@.len() - i,
    {
        match file_fixture_range_exec(&files[i], id) {
            Some(range) => {
                return Some((files[i].path.clone(), range));
            },
            None => {},
        }
        i += 1;
    }
    None
}

} // verus!
