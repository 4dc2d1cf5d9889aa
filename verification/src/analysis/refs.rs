//! Finding where an object of a Dawn file refers to a symbol, so that a
//! diagnostic about the reference can point at it.
use vstd::prelude::*;
use crate::diagnostics::TextRange;
use crate::parse::source_map::{SegmentView, YamlPath, YamlSourceMap, YamlSourceRange};
use crate::text::str_eq;

verus! {

/// The symbol references that an effect clip of a sequence holds: its script,
/// when given by reference, and for each parameter (by name) its curve, when
/// that is a curve given by reference.
#[derive(Debug, Clone)]
pub struct EffectRefs {
    pub script: Option<String>,
    pub params: Vec<(String, Option<String>)>,
}

/// The symbol references that an object holds, where it may hold one: each is
/// the raw reference when the value is given by reference, and `None` when it
/// is written inline.
#[derive(Debug, Clone)]
pub enum ObjectRefs {
    Project { display: Option<String>, sequences: Vec<Option<String>> },
    Display { controllers: Vec<Option<String>>, patch: Option<String>, layout: Option<String> },
    Layout { fixtures: Vec<Option<String>> },
    Sequence { effects: Vec<EffectRefs>, automation_clips: Vec<Option<String>> },
    Other,
}

/// A place that may hold a reference: its YAML path and the reference there.
pub type RefSite = (Seq<SegmentView>, Option<Seq<char>>);

pub open spec fn opt_view(s: Option<String>) -> Option<Seq<char>> {
    match s {
        Some(t) => Some(t@),
        None => None,
    }
}

pub open spec fn field(p: Seq<SegmentView>, name: Seq<char>) -> Seq<SegmentView> {
    p.push(SegmentView::Field(name))
}

pub open spec fn index(p: Seq<SegmentView>, i: int) -> Seq<SegmentView> {
    p.push(SegmentView::Index(i as usize))
}

/// The sites of a list of references under `path`, the `i`-th at
/// `path.i.suffix` (or at `path.i` for an empty suffix).
pub open spec fn list_sites(path: Seq<SegmentView>, refs: Seq<Option<String>>, suffix: Option<Seq<char>>) -> Seq<RefSite>
    decreases refs.len(),
{
    if refs.len() == 0 {
        seq![]
    } else {
        let i = refs.len() - 1;
        let at = match suffix {
            Some(s) => field(index(path, i), s),
            None => index(path, i),
        };
        list_sites(path, refs.drop_last(), suffix).push((at, opt_view(refs.last())))
    }
}

/// The sites of the curve parameters of the effect at `path`.
pub open spec fn param_sites(path: Seq<SegmentView>, params: Seq<(String, Option<String>)>) -> Seq<RefSite>
    decreases params.len(),
{
    if params.len() == 0 {
        seq![]
    } else {
        let (name, curve) = params.last();
        param_sites(path, params.drop_last()).push(
            (field(field(field(path, "params"@), name@), "curve"@), opt_view(curve)),
        )
    }
}

/// The sites of the effects of a sequence at `path`: each effect's script,
/// then its parameters.
pub open spec fn effect_sites(path: Seq<SegmentView>, effects: Seq<EffectRefs>) -> Seq<RefSite>
    decreases effects.len(),
{
    if effects.len() == 0 {
        seq![]
    } else {
        let e = effects.last();
        let at = index(field(path, "effects"@), effects.len() - 1);
        effect_sites(path, effects.drop_last()).push((field(at, "script"@), opt_view(e.script))) + param_sites(
            at,
            e.params@,
        )
    }
}

/// Every site of `object` at `path`, in the order they are searched.
pub open spec fn object_sites(path: Seq<SegmentView>, object: ObjectRefs) -> Seq<RefSite> {
    match object {
        ObjectRefs::Project { display, sequences } => seq![(field(path, "display"@), opt_view(display))]
            + list_sites(field(path, "sequences"@), sequences@, None),
        ObjectRefs::Display { controllers, patch, layout } => list_sites(field(path, "controllers"@), controllers@, None)
            + seq![(field(path, "patch"@), opt_view(patch)), (field(path, "layout"@), opt_view(layout))],
        ObjectRefs::Layout { fixtures } => list_sites(field(path, "fixtures"@), fixtures@, Some("fixture"@)),
        ObjectRefs::Sequence { effects, automation_clips } => effect_sites(path, effects@) + list_sites(
            field(path, "automation_clips"@),
            automation_clips@,
            Some("curve"@),
        ),
        ObjectRefs::Other => seq![],
    }
}

/// The value range of the first site that refers to `reference` and whose
/// path the source map knows.
pub open spec fn first_ref_range(
    sites: Seq<RefSite>,
    map: Map<Seq<SegmentView>, YamlSourceRange>,
    reference: Seq<char>,
) -> Option<TextRange>
    decreases sites.len(),
{
    if sites.len() == 0 {
        None
    } else {
        let (path, r) = sites[0];
        if r == Some(reference) && map.contains_key(path) {
            Some(map[path].value_range)
        } else {
            first_ref_range(sites.subrange(1, sites.len() as int), map, reference)
        }
    }
}

/// Where `object` refers to `reference`: the first place, in the order above,
/// that does and that the source map knows. Nothing is found without a source
/// map.
pub open spec fn spec_object_symbol_ref_range(
    map: Option<Map<Seq<SegmentView>, YamlSourceRange>>,
    path: Seq<SegmentView>,
    object: ObjectRefs,
    reference: Seq<char>,
) -> Option<TextRange> {
    match map {
        None => None,
        Some(m) => first_ref_range(object_sites(path, object), m, reference),
    }
}

proof fn lemma_first_ref_range_append(
    a: Seq<RefSite>,
    b: Seq<RefSite>,
    map: Map<Seq<SegmentView>, YamlSourceRange>,
    reference: Seq<char>,
)
    ensures
        first_ref_range(a + b, map, reference) == (match first_ref_range(a, map, reference) {
            Some(r) => Some(r),
            None => first_ref_range(b, map, reference),
        }),
    decreases a.len(),
{
    if a.len() > 0 {
        assert((a + b).subrange(1, (a + b).len() as int) =~= a.subrange(1, a.len() as int) + b);
        assert((a + b)[0] == a[0]);
        lemma_first_ref_range_append(a.subrange(1, a.len() as int), b, map, reference);
    } else {
        assert(a + b =~= b);
    }
}

/// The range of one site, when it refers to `reference` and the map knows it.
fn site_range(map: &YamlSourceMap, path: YamlPath, r: &Option<String>, reference: &str) -> (out: Option<TextRange>)
    ensures
        out == first_ref_range(seq![(path@, opt_view(*r))], map@, reference@),
{
    let ghost one: Seq<RefSite> = seq![(path@, opt_view(*r))];
    assert(one.subrange(1, 1) =~= Seq::<RefSite>::empty());
    proof {
        reveal_with_fuel(first_ref_range, 2);
    }
    match r {
        Some(raw) => {
            if str_eq(raw.as_str(), reference) {
                map.value_range(path)
            } else {
                None
            }
        },
        None => None,
    }
}

fn list_range(
    map: &YamlSourceMap,
    path: &YamlPath,
    refs: &Vec<Option<String>>,
    suffix: Option<&str>,
    reference: &str,
) -> (out: Option<TextRange>)
    ensures
        out == first_ref_range(
            list_sites(
                path@,
                refs@,
                match suffix {
                    Some(s) => Some(s@),
                    None => None,
                },
            ),
            map@,
            reference@,
        ),
{
    let ghost sfx = match suffix {
        Some(s) => Some(s@),
        None => None,
    };
    let mut i: usize = 0;
    while i < refs.len()
        invariant
            i <= refs@.len(),
            sfx == (match suffix {
                Some(s) => Some(s@),
                None => None,
            }),
            first_ref_range(list_sites(path@, refs@.subrange(0, i as int), sfx), map@, reference@) is None,
        decreases refs@.len() - i,
    {
        let ghost before = list_sites(path@, refs@.subrange(0, i as int), sfx);
        let at = match suffix {
            Some(s) => path.push_index(i).field(String::from_str(s)),
            None => path.push_index(i),
        };
        let found = site_range(map, at, &refs[i], reference);
        proof {
            assert(refs@.subrange(0, i + 1).drop_last() =~= refs@.subrange(0, i as int));
            assert(refs@.subrange(0, i + 1).last() == refs@[i as int]);
            let one: Seq<RefSite> = seq![(at@, opt_view(refs@[i as int]))];
            assert(list_sites(path@, refs@.subrange(0, i + 1), sfx) =~= before + one);
            lemma_first_ref_range_append(before, one, map@, reference@);
        }
        if found.is_some() {
            proof {
                lemma_list_prefix(path@, refs@, sfx, i + 1, map@, reference@);
            }
            return found;
        }
        i += 1;
    }
    assert(refs@.subrange(0, refs@.len() as int) =~= refs@);
    None
}

/// A match within the first `n` references is the first match of all of
/// them.
proof fn lemma_list_prefix(
    path: Seq<SegmentView>,
    refs: Seq<Option<String>>,
    sfx: Option<Seq<char>>,
    n: int,
    map: Map<Seq<SegmentView>, YamlSourceRange>,
    reference: Seq<char>,
)
    requires
        0 <= n <= refs.len(),
        first_ref_range(list_sites(path, refs.subrange(0, n), sfx), map, reference) is Some,
    ensures
        first_ref_range(list_sites(path, refs, sfx), map, reference) == first_ref_range(
            list_sites(path, refs.subrange(0, n), sfx),
            map,
            reference,
        ),
    decreases refs.len() - n,
{
    if n < refs.len() {
        assert(refs.subrange(0, n + 1).drop_last() =~= refs.subrange(0, n));
        let before = list_sites(path, refs.subrange(0, n), sfx);
        let whole = list_sites(path, refs.subrange(0, n + 1), sfx);
        assert(whole =~= before + seq![whole.last()]);
        lemma_first_ref_range_append(before, seq![whole.last()], map, reference);
        lemma_list_prefix(path, refs, sfx, n + 1, map, reference);
    } else {
        assert(refs.subrange(0, n) =~= refs);
    }
}

fn params_range(
    map: &YamlSourceMap,
    path: &YamlPath,
    params: &Vec<(String, Option<String>)>,
    reference: &str,
) -> (out: Option<TextRange>)
    ensures
        out == first_ref_range(param_sites(path@, params@), map@, reference@),
{
    let mut i: usize = 0;
    while i < params.len()
        invariant
            i <= params@.len(),
            first_ref_range(param_sites(path@, params@.subrange(0, i as int)), map@, reference@) is None,
        decreases params@.len() - i,
    {
        let ghost before = param_sites(path@, params@.subrange(0, i as int));
        let at = path.push_field(String::from_str("params")).field(params[i].0.clone()).field(
            String::from_str("curve"),
        );
        let found = site_range(map, at, &params[i].1, reference);
        proof {
            assert(params@.subrange(0, i + 1).drop_last() =~= params@.subrange(0, i as int));
            assert(params@.subrange(0, i + 1).last() == params@[i as int]);
            let one: Seq<RefSite> = seq![(at@, opt_view(params@[i as int].1))];
            assert(param_sites(path@, params@.subrange(0, i + 1)) =~= before + one);
            lemma_first_ref_range_append(before, one, map@, reference@);
        }
        if found.is_some() {
            proof {
                lemma_params_prefix(path@, params@, i + 1, map@, reference@);
            }
            return found;
        }
        i += 1;
    }
    assert(params@.subrange(0, params@.len() as int) =~= params@);
    None
}

proof fn lemma_params_prefix(
    path: Seq<SegmentView>,
    params: Seq<(String, Option<String>)>,
    n: int,
    map: Map<Seq<SegmentView>, YamlSourceRange>,
    reference: Seq<char>,
)
    requires
        0 <= n <= params.len(),
        first_ref_range(param_sites(path, params.subrange(0, n)), map, reference) is Some,
    ensures
        first_ref_range(param_sites(path, params), map, reference) == first_ref_range(
            param_sites(path, params.subrange(0, n)),
            map,
            reference,
        ),
    decreases params.len() - n,
{
    if n < params.len() {
        assert(params.subrange(0, n + 1).drop_last() =~= params.subrange(0, n));
        let before = param_sites(path, params.subrange(0, n));
        let whole = param_sites(path, params.subrange(0, n + 1));
        assert(whole =~= before + seq![whole.last()]);
        lemma_first_ref_range_append(before, seq![whole.last()], map, reference);
        lemma_params_prefix(path, params, n + 1, map, reference);
    } else {
        assert(params.subrange(0, n) =~= params);
    }
}

proof fn lemma_effects_prefix(
    path: Seq<SegmentView>,
    effects: Seq<EffectRefs>,
    n: int,
    map: Map<Seq<SegmentView>, YamlSourceRange>,
    reference: Seq<char>,
)
    requires
        0 <= n <= effects.len(),
        first_ref_range(effect_sites(path, effects.subrange(0, n)), map, reference) is Some,
    ensures
        first_ref_range(effect_sites(path, effects), map, reference) == first_ref_range(
            effect_sites(path, effects.subrange(0, n)),
            map,
            reference,
        ),
    decreases effects.len() - n,
{
    if n < effects.len() {
        assert(effects.subrange(0, n + 1).drop_last() =~= effects.subrange(0, n));
        let before = effect_sites(path, effects.subrange(0, n));
        let whole = effect_sites(path, effects.subrange(0, n + 1));
        let tail = whole.subrange(before.len() as int, whole.len() as int);
        assert(whole =~= before + tail);
        lemma_first_ref_range_append(before, tail, map, reference);
        lemma_effects_prefix(path, effects, n + 1, map, reference);
    } else {
        assert(effects.subrange(0, n) =~= effects);
    }
}

fn effects_range(map: &YamlSourceMap, path: &YamlPath, effects: &Vec<EffectRefs>, reference: &str) -> (out: Option<
    TextRange,
>)
    ensures
        out == first_ref_range(effect_sites(path@, effects@), map@, reference@),
{
    let mut i: usize = 0;
    while i < effects.len()
        invariant
            i <= effects@.len(),
            first_ref_range(effect_sites(path@, effects@.subrange(0, i as int)), map@, reference@) is None,
        decreases effects@.len() - i,
    {
        let ghost before = effect_sites(path@, effects@.subrange(0, i as int));
        let at = path.push_field(String::from_str("effects")).index(i);
        let script_at = at.push_field(String::from_str("script"));
        let ghost script_site: Seq<RefSite> = seq![(script_at@, opt_view(effects@[i as int].script))];
        let ghost params = param_sites(at@, effects@[i as int].params@);
        proof {
            assert(effects@.subrange(0, i + 1).drop_last() =~= effects@.subrange(0, i as int));
            assert(effects@.subrange(0, i + 1).last() == effects@[i as int]);
            assert(effect_sites(path@, effects@.subrange(0, i + 1)) =~= (before + script_site) + params);
            lemma_first_ref_range_append(before, script_site, map@, reference@);
            lemma_first_ref_range_append(before + script_site, params, map@, reference@);
        }
        let found = site_range(map, script_at, &effects[i].script, reference);
        if found.is_some() {
            proof {
                lemma_effects_prefix(path@, effects@, i + 1, map@, reference@);
            }
            return found;
        }
        let found = params_range(map, &at, &effects[i].params, reference);
        if found.is_some() {
            proof {
                lemma_effects_prefix(path@, effects@, i + 1, map@, reference@);
            }
            return found;
        }
        i += 1;
    }
    assert(effects@.subrange(0, effects@.len() as int) =~= effects@);
    None
}

/// Where `object`, at `object_path`, refers to the symbol `reference`.
pub fn object_symbol_ref_range(
    source_map: Option<&YamlSourceMap>,
    object_path: &YamlPath,
    object: &ObjectRefs,
    reference: &str,
) -> (r: Option<TextRange>)
    ensures
        r == spec_object_symbol_ref_range(
            match source_map {
                Some(m) => Some(m@),
                None => None,
            },
            object_path@,
            *object,
            reference@,
        ),
{
    let map = match source_map {
        Some(m) => m,
        None => {
            return None;
        },
    };
    let ghost sites = object_sites(object_path@, *object);
    match object {
        ObjectRefs::Project { display, sequences } => {
            let display_at = object_path.push_field(String::from_str("display"));
            let first = site_range(map, display_at, display, reference);
            let seq_path = object_path.push_field(String::from_str("sequences"));
            proof {
                lemma_first_ref_range_append(
                    seq![(display_at@, opt_view(*display))],
                    list_sites(seq_path@, sequences@, None),
                    map@,
                    reference@,
                );
            }
            if first.is_some() {
                return first;
            }
            list_range(map, &seq_path, sequences, None, reference)
        },
        ObjectRefs::Display { controllers, patch, layout } => {
            let controllers_path = object_path.push_field(String::from_str("controllers"));
            let patch_at = object_path.push_field(String::from_str("patch"));
            let layout_at = object_path.push_field(String::from_str("layout"));
            let ghost a = list_sites(controllers_path@, controllers@, None);
            let ghost b: Seq<RefSite> = seq![(patch_at@, opt_view(*patch))];
            let ghost c: Seq<RefSite> = seq![(layout_at@, opt_view(*layout))];
            proof {
                assert(sites =~= a + (b + c));
                lemma_first_ref_range_append(a, b + c, map@, reference@);
                lemma_first_ref_range_append(b, c, map@, reference@);
            }
            let found = list_range(map, &controllers_path, controllers, None, reference);
            if found.is_some() {
                return found;
            }
            let found = site_range(map, patch_at, patch, reference);
            if found.is_some() {
                return found;
            }
            site_range(map, layout_at, layout, reference)
        },
        ObjectRefs::Layout { fixtures } => {
            let fixtures_path = object_path.push_field(String::from_str("fixtures"));
            list_range(map, &fixtures_path, fixtures, Some("fixture"), reference)
        },
        ObjectRefs::Sequence { effects, automation_clips } => {
            let clips_path = object_path.push_field(String::from_str("automation_clips"));
            proof {
                lemma_first_ref_range_append(
                    effect_sites(object_path@, effects@),
                    list_sites(clips_path@, automation_clips@, Some("curve"@)),
                    map@,
                    reference@,
                );
            }
            let found = effects_range(map, object_path, effects, reference);
            if found.is_some() {
                return found;
            }
            list_range(map, &clips_path, automation_clips, Some("curve"), reference)
        },
        ObjectRefs::Other => None,
    }
}

} // verus!
