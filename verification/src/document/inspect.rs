//! What an editor can show of a document: its objects, the views it offers,
//! and which object each view opens first; and the plain records that the
//! editor's views exchange.
use vstd::prelude::*;
use crate::effect_script::types::ScriptType;
use crate::model::kinds::{FixtureId, LayoutTargetKind, ObjectKind};
use crate::text::{concat, is_alnum, is_alpha, spec_is_alnum, spec_is_alpha, str_eq};
use crate::analysis::visit::{is_effect_script_path, is_script_path};
use crate::diagnostics::ProjectOverlay;

verus! {

/// The views an editor offers for documents.
#[derive(Debug, Clone, Copy, PartialEq, Eq, PartialOrd, Ord, Structural)]
pub enum DocumentViewId {
    Text,
    Layout,
    Fixture,
    Sequence,
}

/// An object of a document: its key and its kind.
#[derive(Debug, Clone)]
pub struct DocumentObjectDescriptor {
    pub key: String,
    pub kind: ObjectKind,
}

/// What an editor can show of a document: its objects, the views it offers
/// (the text view first), and for each other view the object it opens
/// first, in view order.
#[derive(Debug, Clone)]
pub struct DocumentDescriptor {
    pub path: String,
    pub objects: Vec<DocumentObjectDescriptor>,
    pub available_views: Vec<DocumentViewId>,
    pub default_object_keys: Vec<(DocumentViewId, String)>,
}

/// A layout target named in a document: a group or a fixture.
#[derive(Debug, Clone, PartialEq, Eq)]
pub struct LayoutTargetDocument {
    pub kind: LayoutTargetKind,
    pub name: String,
}

/// A group of a layout and its member fixtures.
#[derive(Debug, Clone)]
pub struct LayoutGroupDocument {
    pub name: String,
    pub members: Vec<FixtureId>,
}

/// The audio of a sequence and where it resolves.
#[derive(Debug, Clone)]
pub struct SequenceAudioDocument {
    pub import: String,
    pub resolved_path: String,
    pub file_name: String,
    pub exists: bool,
}

/// A lane of a sequence: a target and its label.
#[derive(Debug, Clone, PartialEq, Eq)]
pub struct SequenceLaneDocument {
    pub target: LayoutTargetDocument,
    pub label: String,
}

/// A parameter of an effect script, as the sequence view lists it.
#[derive(Debug, Clone)]
pub struct SequenceEffectScriptParamDocument {
    pub name: String,
    pub value_type: ScriptType,
}

/// An effect script that sequences can use.
#[derive(Debug, Clone)]
pub struct SequenceEffectScriptDocument {
    pub name: String,
    pub path: String,
    pub import: String,
    pub params: Vec<SequenceEffectScriptParamDocument>,
}

/// One pixel that an effect of a sequence renders.
#[derive(Debug, Clone, Copy, PartialEq, Eq, Structural)]
pub struct SequenceEffectPixelDocument {
    pub fixture_index: usize,
    pub pixel_index: usize,
    pub pixel_count: usize,
}

/// The text an edit wrote and the document read back from it.
#[derive(Debug, Clone)]
pub struct DocumentEditOutcome<T> {
    pub serialized_content: String,
    pub refreshed_document: T,
}

/// The key of the first object of `kind`.
pub open spec fn first_of_kind(objects: Seq<DocumentObjectDescriptor>, kind: ObjectKind, i: int) -> Option<Seq<char>>
    decreases objects.len() - i,
{
    if i < 0 || i >= objects.len() {
        None
    } else if objects[i].kind == kind {
        Some(objects[i].key@)
    } else {
        first_of_kind(objects, kind, i + 1)
    }
}

/// The views after the text view that `objects` offer, with their first
/// objects: a layout view for a layout, a fixture view for a fixture and a
/// sequence view for a sequence.
pub open spec fn spec_views(objects: Seq<DocumentObjectDescriptor>) -> Seq<(DocumentViewId, Seq<char>)> {
    let l: Seq<(DocumentViewId, Seq<char>)> = match first_of_kind(objects, ObjectKind::Layout, 0) {
        Some(k) => seq![(DocumentViewId::Layout, k)],
        None => seq![],
    };
    let f: Seq<(DocumentViewId, Seq<char>)> = match first_of_kind(objects, ObjectKind::Fixture, 0) {
        Some(k) => seq![(DocumentViewId::Fixture, k)],
        None => seq![],
    };
    let s: Seq<(DocumentViewId, Seq<char>)> = match first_of_kind(objects, ObjectKind::Sequence, 0) {
        Some(k) => seq![(DocumentViewId::Sequence, k)],
        None => seq![],
    };
    l + f + s
}

pub open spec fn defaults_view(d: Seq<(DocumentViewId, String)>) -> Seq<(DocumentViewId, Seq<char>)> {
    d.map_values(|e: (DocumentViewId, String)| (e.0, e.1@))
}

fn first_key_of_kind(objects: &Vec<DocumentObjectDescriptor>, kind: ObjectKind) -> (r: Option<String>)
    ensures
        match r {
            Some(k) => first_of_kind(objects@, kind, 0) == Some(k@),
            None => first_of_kind(objects@, kind, 0) is None,
        },
{
    let mut i: usize = 0;
    while i < objects.len()
        invariant
            i <= objects@.len(),
            first_of_kind(objects@, kind, 0) == first_of_kind(objects@, kind, i as int),
        decreases objects@.len() - i,
    {
        if objects[i].kind == kind {
            return Some(objects[i].key.clone());
        }
        i += 1;
    }
    None
}

/// Where the text of a document to describe comes from.
#[derive(Debug, Clone, PartialEq, Eq)]
pub enum DocumentSource {
    /// An effect script: it offers the text view only, and is not read.
    Script,
    /// The unsaved contents of an open file.
    Overlay(String),
    /// The file on disk.
    Disk,
}

/// The contents of the first of `overlays` for `path`, if any.
pub open spec fn first_overlay(overlays: Seq<ProjectOverlay>, path: Seq<char>, i: int) -> Option<Seq<char>>
    decreases overlays.len() - i,
{
    if i < 0 || i >= overlays.len() {
        None
    } else if overlays[i].path@ == path {
        Some(overlays[i].content@)
    } else {
        first_overlay(overlays, path, i + 1)
    }
}

/// Where the text of the document at `path` (already resolved) comes from:
/// an effect script is not read; else the first overlay for the path, or
/// the file on disk when there is none.
pub fn document_source(path: &str, overlays: &Vec<ProjectOverlay>) -> (r: DocumentSource)
    ensures
        is_script_path(path@) ==> r == DocumentSource::Script,
        !is_script_path(path@) ==> match first_overlay(overlays@, path@, 0) {
            Some(text) => r matches DocumentSource::Overlay(t) && t@ == text,
            None => r == DocumentSource::Disk,
        },
{
    if is_effect_script_path(path) {
        return DocumentSource::Script;
    }
    let mut i: usize = 0;
    while i < overlays.len()
        invariant
            i <= overlays@.len(),
            !is_script_path(path@),
            first_overlay(overlays@, path@, 0) == first_overlay(overlays@, path@, i as int),
        decreases overlays@.len() - i,
    {
        if str_eq(overlays[i].path.as_str(), path) {
            return DocumentSource::Overlay(overlays[i].content.clone());
        }
        i += 1;
    }
    DocumentSource::Disk
}

/// Describes the document at `path`: an effect script (`objects` is `None`)
/// offers the text view only; a Dawn file offers the text view and a view for
/// each kind of object it holds that has one.
pub fn inspect_document(path: String, objects: Option<Vec<DocumentObjectDescriptor>>) -> (d: DocumentDescriptor)
    ensures
        d.path@ == path@,
        objects is None ==> d.objects@.len() == 0 && d.available_views@ == seq![DocumentViewId::Text]
            && d.default_object_keys@.len() == 0,
        objects matches Some(os) ==> d.objects@ == os@ && defaults_view(d.default_object_keys@) == spec_views(os@)
            && d.available_views@ == seq![DocumentViewId::Text] + spec_views(os@).map_values(
            |e: (DocumentViewId, Seq<char>)| e.0,
        ),
{
    let objects = match objects {
        None => {
            let mut views = Vec::new();
            views.push(DocumentViewId::Text);
            assert(views@ =~= seq![DocumentViewId::Text]);
            return DocumentDescriptor {
                path,
                objects: Vec::new(),
                available_views: views,
                default_object_keys: Vec::new(),
            };
        },
        Some(os) => os,
    };
    let mut views: Vec<DocumentViewId> = Vec::new();
    views.push(DocumentViewId::Text);
    let mut defaults: Vec<(DocumentViewId, String)> = Vec::new();
    let ghost mut expected: Seq<(DocumentViewId, Seq<char>)> = seq![];
    let kinds: [(ObjectKind, DocumentViewId); 3] = [
        (ObjectKind::Layout, DocumentViewId::Layout),
        (ObjectKind::Fixture, DocumentViewId::Fixture),
        (ObjectKind::Sequence, DocumentViewId::Sequence),
    ];
    let mut k: usize = 0;
    while k < 3
        invariant
            k <= 3,
            kinds@ == seq![
                (ObjectKind::Layout, DocumentViewId::Layout),
                (ObjectKind::Fixture, DocumentViewId::Fixture),
                (ObjectKind::Sequence, DocumentViewId::Sequence),
            ],
            defaults_view(defaults@) == expected,
            views@ == seq![DocumentViewId::Text] + expected.map_values(|e: (DocumentViewId, Seq<char>)| e.0),
            expected == (if k == 0 {
                seq![]
            } else if k == 1 {
                match first_of_kind(objects@, ObjectKind::Layout, 0) {
                    Some(key) => seq![(DocumentViewId::Layout, key)],
                    None => seq![],
                }
            } else if k == 2 {
                let l: Seq<(DocumentViewId, Seq<char>)> = match first_of_kind(objects@, ObjectKind::Layout, 0) {
                    Some(key) => seq![(DocumentViewId::Layout, key)],
                    None => seq![],
                };
                let f: Seq<(DocumentViewId, Seq<char>)> = match first_of_kind(objects@, ObjectKind::Fixture, 0) {
                    Some(key) => seq![(DocumentViewId::Fixture, key)],
                    None => seq![],
                };
                l + f
            } else {
                spec_views(objects@)
            }),
        decreases 3 - k,
    {
        let (kind, view) = kinds[k];
        let ghost before = defaults@;
        let ghost before_views = views@;
        match first_key_of_kind(&objects, kind) {
            Some(key) => {
                let ghost kv = key@;
                views.push(view);
                defaults.push((view, key));
                proof {
                    expected = expected + seq![(view, kv)];
                    assert(defaults_view(defaults@) =~= defaults_view(before).push((view, kv)));
                }
            },
            None => {
                proof {
                    expected = expected + seq![];
                }
            },
        }
        proof {
            assert(views@ =~= seq![DocumentViewId::Text] + expected.map_values(|e: (DocumentViewId, Seq<char>)| e.0));
            assert(expected =~= (if k + 1 == 1 {
                match first_of_kind(objects@, ObjectKind::Layout, 0) {
                    Some(key) => seq![(DocumentViewId::Layout, key)],
                    None => seq![],
                }
            } else if k + 1 == 2 {
                let l: Seq<(DocumentViewId, Seq<char>)> = match first_of_kind(objects@, ObjectKind::Layout, 0) {
                    Some(key) => seq![(DocumentViewId::Layout, key)],
                    None => seq![],
                };
                let f: Seq<(DocumentViewId, Seq<char>)> = match first_of_kind(objects@, ObjectKind::Fixture, 0) {
                    Some(key) => seq![(DocumentViewId::Fixture, key)],
                    None => seq![],
                };
                l + f
            } else {
                spec_views(objects@)
            }));
        }
        k += 1;
    }
    DocumentDescriptor { path, objects, available_views: views, default_object_keys: defaults }
}

/// The characters that `sanitize_alias` keeps of `value`: letters, digits and
/// underscores, with `-` written as `_`.
pub open spec fn alias_chars(value: Seq<char>) -> Seq<char>
    decreases value.len(),
{
    if value.len() == 0 {
        seq![]
    } else {
        let rest = alias_chars(value.drop_last());
        let c = value.last();
        if spec_is_alnum(c) || c == '_' {
            rest.push(c)
        } else if c == '-' {
            rest.push('_')
        } else {
            rest
        }
    }
}

/// An import alias made from `value`: its letters, digits and underscores
/// (`-` as `_`), led by `_` when it would not start with a letter or `_`.
pub open spec fn spec_sanitize_alias(value: Seq<char>) -> Seq<char> {
    let a = alias_chars(value);
    if a.len() == 0 || !(spec_is_alpha(a[0]) || a[0] == '_') {
        seq!['_'] + a
    } else {
        a
    }
}

/// An import alias made from `value`.
pub fn sanitize_alias(value: &str) -> (r: String)
    ensures
        r@ == spec_sanitize_alias(value@),
{
    let chars = crate::text::chars_of(value);
    let mut alias: Vec<char> = Vec::new();
    let mut i: usize = 0;
    while i < chars.len()
        invariant
            chars@ == value@,
            i <= chars@.len(),
            alias@ == alias_chars(value@.subrange(0, i as int)),
        decreases chars@.len() - i,
    {
        assert(value@.subrange(0, i + 1).drop_last() =~= value@.subrange(0, i as int));
        let c = chars[i];
        if is_alnum(c) || c == '_' {
            alias.push(c);
        } else if c == '-' {
            alias.push('_');
        }
        i += 1;
    }
    assert(value@.subrange(0, value@.len() as int) =~= value@);
    if alias.len() == 0 || !(is_alpha(alias[0]) || alias[0] == '_') {
        let mut led: Vec<char> = Vec::new();
        led.push('_');
        let mut k: usize = 0;
        while k < alias.len()
            invariant
                k <= alias@.len(),
                led@ == seq!['_'] + alias@.subrange(0, k as int),
            decreases alias@.len() - k,
        {
            led.push(alias[k]);
            k += 1;
            assert(led@ =~= seq!['_'] + alias@.subrange(0, k as int));
        }
        assert(alias@.subrange(0, alias@.len() as int) =~= alias@);
        crate::text::string_from_chars(led.as_slice())
    } else {
        crate::text::string_from_chars(alias.as_slice())
    }
}

/// The label of a lane for the layout target `name` of kind `kind`.
pub fn target_label(kind: LayoutTargetKind, name: &str) -> (s: String)
    ensures
        s@ == (match kind {
            LayoutTargetKind::Group => "Group "@,
            LayoutTargetKind::Fixture => "Fixture "@,
        }) + name@,
{
    match kind {
        LayoutTargetKind::Group => concat("Group ", name),
        LayoutTargetKind::Fixture => concat("Fixture ", name),
    }
}

} // verus!
