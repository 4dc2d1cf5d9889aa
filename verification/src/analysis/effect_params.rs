//! Checking the parameters that a sequence effect passes to its script,
//! reporting the errors of its script, and where in the project's YAML
//! files each problem is reported.
use vstd::prelude::*;
use crate::analysis::lines::spec_lines;
use crate::analysis::locate::{
    locate_effect_id, locate_effect_param, locate_effect_param_field, locate_effect_param_value,
    locate_effect_params_block, locate_inline_script_range, spec_locate_effect_id, spec_locate_effect_param,
    spec_locate_effect_param_field, spec_locate_effect_param_value, spec_locate_effect_params_block,
    spec_locate_inline_script_range,
};
use crate::effect_script::diag::{ScriptDiagnostic, SourceRange};
use crate::diagnostics::{DiagnosticCode, DiagnosticSeverity, ProjectDiagnostic, TextPosition, TextRange};
use crate::effect_script::ast::EffectParamSchema;
use crate::effect_script::types::{
    lemma_value_fits_its_own_type, shape_type, spec_matches_param, spec_script_type_label, EffectParamShape,
};
use crate::model::decimal::{decimal_digits, u64_to_decimal};
use crate::text::{str_eq, string_from_chars};

verus! {

/// Where a parameter problem is reported, as the checks state it.
pub enum SiteSpec {
    Param(Seq<char>),
    ParamType(Seq<char>),
    ParamsBlock,
    ParamValue(Seq<char>, Seq<char>),
    InlineScript(SourceRange),
}

/// Where a problem of an effect is reported: at a parameter, at its `type`
/// field, at the effect's `params` block, at a value written in a
/// parameter, or at a range of its inline script.
#[derive(Debug, Clone)]
pub enum ParamSite {
    Param(String),
    ParamType(String),
    ParamsBlock,
    ParamValue(String, String),
    InlineScript(SourceRange),
}

impl ParamSite {
    pub open spec fn spec_site(&self) -> SiteSpec {
        match self {
            ParamSite::Param(n) => SiteSpec::Param(n@),
            ParamSite::ParamType(n) => SiteSpec::ParamType(n@),
            ParamSite::ParamsBlock => SiteSpec::ParamsBlock,
            ParamSite::ParamValue(n, v) => SiteSpec::ParamValue(n@, v@),
            ParamSite::InlineScript(r) => SiteSpec::InlineScript(*r),
        }
    }
}

/// Where `site` of the effect `id` is in a file with lines `lines`: by the
/// search made first, or (`primary` false) by the one made when no file
/// answers the first.
pub open spec fn site_range(lines: Seq<Seq<char>>, id: u32, site: SiteSpec, primary: bool) -> Option<TextRange> {
    match site {
        SiteSpec::Param(n) => spec_locate_effect_param(lines, id, n),
        SiteSpec::ParamType(n) => if primary {
            spec_locate_effect_param_field(lines, id, n, "type"@, None)
        } else {
            spec_locate_effect_param(lines, id, n)
        },
        SiteSpec::ParamsBlock => if primary {
            spec_locate_effect_params_block(lines, id)
        } else {
            spec_locate_effect_id(lines, id)
        },
        SiteSpec::ParamValue(n, v) => if primary {
            spec_locate_effect_param_value(lines, id, n, v)
        } else {
            spec_locate_effect_param(lines, id, n)
        },
        SiteSpec::InlineScript(r) => spec_locate_inline_script_range(lines, id, r),
    }
}

/// The first of `files` (each a path and its text) in which the search finds
/// `site`, with the range it finds.
pub open spec fn first_located(files: Seq<(String, String)>, id: u32, site: SiteSpec, primary: bool) -> Option<
    (Seq<char>, TextRange),
>
    decreases files.len(),
{
    if files.len() == 0 {
        None
    } else {
        match site_range(spec_lines(files[0].1@), id, site, primary) {
            Some(r) => Some((files[0].0@, r)),
            None => first_located(files.drop_first(), id, site, primary),
        }
    }
}

/// Where `site` is reported: the first search over all files, then the
/// second.
pub open spec fn site_location(files: Seq<(String, String)>, id: u32, site: SiteSpec) -> Option<(Seq<char>, TextRange)> {
    match first_located(files, id, site, true) {
        Some(x) => Some(x),
        None => match site {
            SiteSpec::Param(_) | SiteSpec::InlineScript(_) => None,
            _ => first_located(files, id, site, false),
        },
    }
}

/// The path, range and message of a problem: where its site is found, else
/// the root file with no range.
pub open spec fn place(root: Seq<char>, files: Seq<(String, String)>, id: u32, p: (SiteSpec, Seq<char>)) -> (
    Seq<char>,
    Option<TextRange>,
    Seq<char>,
) {
    match site_location(files, id, p.0) {
        Some((path, r)) => (path, Some(r), p.1),
        None => (root, None, p.1),
    }
}

pub open spec fn placed(root: Seq<char>, files: Seq<(String, String)>, id: u32, ps: Seq<(SiteSpec, Seq<char>)>) -> Seq<
    (Seq<char>, Option<TextRange>, Seq<char>),
> {
    ps.map_values(|p: (SiteSpec, Seq<char>)| place(root, files, id, p))
}

/// `added` holds one script error for each of `ps`, at its path and range
/// and with its message.
pub open spec fn placed_reports(added: Seq<ProjectDiagnostic>, ps: Seq<(Seq<char>, Option<TextRange>, Seq<char>)>) -> bool {
    &&& added.len() == ps.len()
    &&& forall|j: int|
        0 <= j < added.len() ==> {
            &&& (#[trigger] added[j]).path@ == ps[j].0
            &&& added[j].range == ps[j].1
            &&& added[j].message@ == ps[j].2
            &&& added[j].severity == DiagnosticSeverity::Error
            &&& added[j].code == DiagnosticCode::Script
        }
}

pub open spec fn id_text(id: u32) -> Seq<char> {
    decimal_digits(id as nat)
}

pub open spec fn schema_names(schemas: Seq<EffectParamSchema>) -> Seq<Seq<char>> {
    schemas.map_values(|s: EffectParamSchema| s.name@)
}

pub open spec fn string_views(v: Seq<String>) -> Seq<Seq<char>> {
    v.map_values(|s: String| s@)
}

/// A problem for each parameter, in order, that the script does not declare.
pub open spec fn unknown_param_problems(
    id: u32,
    script: Seq<char>,
    schemas: Seq<EffectParamSchema>,
    params: Seq<(String, EffectParamShape)>,
) -> Seq<(SiteSpec, Seq<char>)>
    decreases params.len(),
{
    if params.len() == 0 {
        seq![]
    } else {
        let name = params.last().0@;
        unknown_param_problems(id, script, schemas, params.drop_last()) + if schema_names(schemas).contains(name) {
            seq![]
        } else {
            seq![
                (
                    SiteSpec::Param(name),
                    "effect `"@ + id_text(id) + "` passes unknown parameter `"@ + name + "` to script `"@ + script
                        + "`"@,
                ),
            ]
        }
    }
}

/// The position of the first parameter at or after `i` named `name`.
pub open spec fn find_param_from(params: Seq<(String, EffectParamShape)>, name: Seq<char>, i: int) -> Option<int>
    decreases params.len() - i,
{
    if i < 0 || i >= params.len() {
        None
    } else if params[i].0@ == name {
        Some(i)
    } else {
        find_param_from(params, name, i + 1)
    }
}

/// A problem for each flag, in order, that the script does not declare.
pub open spec fn flag_problems(
    id: u32,
    script: Seq<char>,
    name: Seq<char>,
    options: Seq<Seq<char>>,
    flags: Seq<String>,
) -> Seq<(SiteSpec, Seq<char>)>
    decreases flags.len(),
{
    if flags.len() == 0 {
        seq![]
    } else {
        let flag = flags.last()@;
        flag_problems(id, script, name, options, flags.drop_last()) + if options.contains(flag) {
            seq![]
        } else {
            seq![
                (
                    SiteSpec::ParamValue(name, flag),
                    "effect `"@ + id_text(id) + "` parameter `"@ + name + "` flag `"@ + flag
                        + "` is not declared by script `"@ + script + "`"@,
                ),
            ]
        }
    }
}

/// The problems with the option, flags or mark collection that a parameter
/// of the right type names.
pub open spec fn option_problems(
    id: u32,
    script: Seq<char>,
    schema: EffectParamSchema,
    param: EffectParamShape,
    marks: Seq<Seq<char>>,
) -> Seq<(SiteSpec, Seq<char>)> {
    let name = schema.name@;
    let options = string_views(schema.options@);
    match param {
        EffectParamShape::Enum { value } => if options.contains(value@) {
            seq![]
        } else {
            seq![
                (
                    SiteSpec::ParamValue(name, value@),
                    "effect `"@ + id_text(id) + "` parameter `"@ + name + "` value `"@ + value@
                        + "` is not declared by script `"@ + script + "`"@,
                ),
            ]
        },
        EffectParamShape::Flags { values } => flag_problems(id, script, name, options, values@),
        EffectParamShape::Marks { key } => if marks.contains(key@) {
            seq![]
        } else {
            seq![
                (
                    SiteSpec::ParamValue(name, key@),
                    "effect `"@ + id_text(id) + "` parameter `"@ + name + "` references unknown mark collection `"@
                        + key@ + "` for script `"@ + script + "`"@,
                ),
            ]
        },
        _ => seq![],
    }
}

/// The problems with what the effect passes for one declared parameter: a
/// value of the wrong type, a required parameter left out, or a bad option.
pub open spec fn schema_problems(
    id: u32,
    script: Seq<char>,
    schema: EffectParamSchema,
    params: Seq<(String, EffectParamShape)>,
    marks: Seq<Seq<char>>,
) -> Seq<(SiteSpec, Seq<char>)> {
    let name = schema.name@;
    match find_param_from(params, name, 0) {
        Some(j) => if spec_matches_param(schema.value_type, params[j].1) {
            option_problems(id, script, schema, params[j].1, marks)
        } else {
            seq![
                (
                    SiteSpec::ParamType(name),
                    "effect `"@ + id_text(id) + "` parameter `"@ + name + "` must be "@ + spec_script_type_label(
                        schema.value_type,
                    ),
                ),
            ]
        },
        None => if schema.default is Some {
            seq![]
        } else {
            seq![
                (
                    SiteSpec::ParamsBlock,
                    "effect `"@ + id_text(id) + "` is missing required parameter `"@ + name + "`"@,
                ),
            ]
        },
    }
}

pub open spec fn schemas_problems(
    id: u32,
    script: Seq<char>,
    schemas: Seq<EffectParamSchema>,
    params: Seq<(String, EffectParamShape)>,
    marks: Seq<Seq<char>>,
) -> Seq<(SiteSpec, Seq<char>)>
    decreases schemas.len(),
{
    if schemas.len() == 0 {
        seq![]
    } else {
        schemas_problems(id, script, schemas.drop_last(), params, marks) + schema_problems(
            id,
            script,
            schemas.last(),
            params,
            marks,
        )
    }
}

/// The problems with the parameters `params` (each a name and what it
/// holds) that the effect `id` passes to the script `script` with the
/// declared parameters `schemas`, in a sequence with the mark collections
/// `marks`: first each parameter the script does not declare, then, for each
/// declared parameter in order, a value of the wrong type, a required
/// parameter left out, or an option, flag or mark collection that does not
/// exist.
pub open spec fn effect_param_problems(
    id: u32,
    script: Seq<char>,
    schemas: Seq<EffectParamSchema>,
    params: Seq<(String, EffectParamShape)>,
    marks: Seq<Seq<char>>,
) -> Seq<(SiteSpec, Seq<char>)> {
    unknown_param_problems(id, script, schemas, params) + schemas_problems(id, script, schemas, params, marks)
}

fn locate_site(text: &str, id: u32, site: &ParamSite, primary: bool) -> (r: Option<TextRange>)
    ensures
        r == site_range(spec_lines(text@), id, site.spec_site(), primary),
{
    match site {
        ParamSite::Param(n) => locate_effect_param(text, id, n.as_str()),
        ParamSite::ParamType(n) => if primary {
            locate_effect_param_field(text, id, n.as_str(), "type", None)
        } else {
            locate_effect_param(text, id, n.as_str())
        },
        ParamSite::ParamsBlock => if primary {
            locate_effect_params_block(text, id)
        } else {
            locate_effect_id(text, id)
        },
        ParamSite::ParamValue(n, v) => if primary {
            locate_effect_param_value(text, id, n.as_str(), v.as_str())
        } else {
            locate_effect_param(text, id, n.as_str())
        },
        ParamSite::InlineScript(r) => locate_inline_script_range(text, id, *r),
    }
}

fn first_located_exec(files: &Vec<(String, String)>, id: u32, site: &ParamSite, primary: bool) -> (r: Option<
    (String, TextRange),
>)
    ensures
        match r {
            Some((p, range)) => first_located(files@, id, site.spec_site(), primary) == Some((p@, range)),
            None => first_located(files@, id, site.spec_site(), primary) is None,
        },
{
    let n = files.len();
    let mut i: usize = 0;
    assert(files@.subrange(0, n as int) =~= files@);
    while i < n
        invariant
            n == files@.len(),
            i <= n,
            first_located(files@, id, site.spec_site(), primary) == first_located(
                files@.subrange(i as int, n as int),
                id,
                site.spec_site(),
                primary,
            ),
        decreases n - i,
    {
        let ghost rest = files@.subrange(i as int, n as int);
        assert(rest[0] == files@[i as int]);
        assert(rest.drop_first() =~= files@.subrange(i + 1, n as int));
        if let Some(range) = locate_site(files[i].1.as_str(), id, site, primary) {
            return Some((files[i].0.clone(), range));
        }
        i += 1;
    }
    None
}

/// Where a problem at `site` is reported: the path and range where it is
/// found, else `root` with no range.
fn place_site(root: &str, files: &Vec<(String, String)>, id: u32, site: &ParamSite) -> (r: (String, Option<TextRange>))
    ensures
        (r.0@, r.1) == (match site_location(files@, id, site.spec_site()) {
            Some((path, range)) => (path, Some(range)),
            None => (root@, None),
        }),
{
    if let Some((path, range)) = first_located_exec(files, id, site, true) {
        return (path, Some(range));
    }
    let second = match site {
        ParamSite::Param(_) | ParamSite::InlineScript(_) => None,
        _ => first_located_exec(files, id, site, false),
    };
    match second {
        Some((path, range)) => (path, Some(range)),
        None => (String::from_str(root), None),
    }
}

/// Reports one more problem at the end of `diagnostics`.
fn emit(
    diagnostics: &mut Vec<ProjectDiagnostic>,
    root: &str,
    files: &Vec<(String, String)>,
    id: u32,
    site: ParamSite,
    message: String,
    Ghost(start): Ghost<int>,
    Ghost(problems): Ghost<Seq<(SiteSpec, Seq<char>)>>,
)
    requires
        0 <= start <= old(diagnostics)@.len(),
        placed_reports(
            old(diagnostics)@.subrange(start, old(diagnostics)@.len() as int),
            placed(root@, files@, id, problems),
        ),
    ensures
        final(diagnostics)@.len() == old(diagnostics)@.len() + 1,
        final(diagnostics)@.subrange(0, start) == old(diagnostics)@.subrange(0, start),
        placed_reports(
            final(diagnostics)@.subrange(start, final(diagnostics)@.len() as int),
            placed(root@, files@, id, problems.push((site.spec_site(), message@))),
        ),
{
    let ghost prior = diagnostics@;
    let ghost p = (site.spec_site(), message@);
    let (path, range) = place_site(root, files, id, &site);
    diagnostics.push(ProjectDiagnostic::error(path, range, DiagnosticCode::Script, message));
    let ghost ds = diagnostics@;
    let ghost added = ds.subrange(start, ds.len() as int);
    let ghost prev = prior.subrange(start, prior.len() as int);
    let ghost ps = placed(root@, files@, id, problems.push(p));
    assert(ps =~= placed(root@, files@, id, problems).push(place(root@, files@, id, p)));
    assert forall|j: int| 0 <= j < prev.len() implies added[j] == prev[j] by {
        assert(added[j] == ds[start + j]);
    }
    assert forall|j: int| 0 <= j < start implies ds.subrange(0, start)[j] == prior.subrange(0, start)[j] by {
    }
    assert(ds.subrange(0, start) =~= prior.subrange(0, start));
    assert forall|j: int| 0 <= j < added.len() implies {
        &&& (#[trigger] added[j]).path@ == ps[j].0
        &&& added[j].range == ps[j].1
        &&& added[j].message@ == ps[j].2
        &&& added[j].severity == DiagnosticSeverity::Error
        &&& added[j].code == DiagnosticCode::Script
    } by {
        if j < prev.len() {
            assert(added[j] == prev[j]);
        }
    }
}

fn id_string(id: u32) -> (s: String)
    ensures
        s@ == id_text(id),
{
    string_from_chars(u64_to_decimal(id as u64).as_slice())
}

fn is_declared(schemas: &Vec<EffectParamSchema>, name: &str) -> (b: bool)
    ensures
        b == schema_names(schemas@).contains(name@),
{
    let ghost names = schema_names(schemas@);
    let mut k: usize = 0;
    while k < schemas.len()
        invariant
            k <= schemas@.len(),
            names == schema_names(schemas@),
            forall|m: int| 0 <= m < k ==> schemas@[m].name@ != name@,
        decreases schemas@.len() - k,
    {
        if str_eq(schemas[k].name.as_str(), name) {
            assert(names[k as int] == name@);
            return true;
        }
        k += 1;
    }
    assert forall|m: int| 0 <= m < names.len() implies names[m] != name@ by {
        assert(names[m] == schemas@[m].name@);
    }
    false
}

fn contains_str(v: &Vec<String>, s: &str) -> (b: bool)
    ensures
        b == string_views(v@).contains(s@),
{
    let ghost views = string_views(v@);
    let mut k: usize = 0;
    while k < v.len()
        invariant
            k <= v@.len(),
            views == string_views(v@),
            forall|m: int| 0 <= m < k ==> v@[m]@ != s@,
        decreases v@.len() - k,
    {
        if str_eq(v[k].as_str(), s) {
            assert(views[k as int] == s@);
            return true;
        }
        k += 1;
    }
    assert forall|m: int| 0 <= m < views.len() implies views[m] != s@ by {
        assert(views[m] == v@[m]@);
    }
    false
}

fn find_param(params: &Vec<(String, EffectParamShape)>, name: &str) -> (r: Option<usize>)
    ensures
        match r {
            Some(j) => find_param_from(params@, name@, 0) == Some(j as int) && j < params@.len(),
            None => find_param_from(params@, name@, 0) is None,
        },
{
    let mut k: usize = 0;
    while k < params.len()
        invariant
            k <= params@.len(),
            find_param_from(params@, name@, 0) == find_param_from(params@, name@, k as int),
        decreases params@.len() - k,
    {
        if str_eq(params[k].0.as_str(), name) {
            return Some(k);
        }
        k += 1;
    }
    None
}

/// `"effect `"`, the id, `"` parameter `"`, the name, `mid`, `item`, `tail`,
/// the script's name and `` ` ``.
fn param_message(id: &String, name: &str, mid: &str, item: &str, tail: &str, script: &str) -> (s: String)
    ensures
        s@ == "effect `"@ + id@ + "` parameter `"@ + name@ + mid@ + item@ + tail@ + script@ + "`"@,
{
    let mut s = String::from_str("effect `");
    s.append(id.as_str());
    s.append("` parameter `");
    s.append(name);
    s.append(mid);
    s.append(item);
    s.append(tail);
    s.append(script);
    s.append("`");
    s
}

/// Checks the parameters `params` (each a name and what it holds) that the
/// sequence effect `effect_id` passes to the script `script_name`, whose
/// declared parameters are `schemas`, in a sequence whose mark collections
/// have the keys `mark_keys`. Each problem becomes a script error at the
/// place where the first of `files` (each a YAML file's path and text) that
/// holds it writes it, or at `root_path` with no range.
pub fn validate_effect_params(
    root_path: &str,
    files: &Vec<(String, String)>,
    effect_id: u32,
    script_name: &str,
    schemas: &Vec<EffectParamSchema>,
    params: &Vec<(String, EffectParamShape)>,
    mark_keys: &Vec<String>,
    diagnostics: &mut Vec<ProjectDiagnostic>,
)
    ensures
        final(diagnostics)@.len() >= old(diagnostics)@.len(),
        final(diagnostics)@.subrange(0, old(diagnostics)@.len() as int) == old(diagnostics)@,
        placed_reports(
            final(diagnostics)@.subrange(old(diagnostics)@.len() as int, final(diagnostics)@.len() as int),
            placed(
                root_path@,
                files@,
                effect_id,
                effect_param_problems(effect_id, script_name@, schemas@, params@, string_views(mark_keys@)),
            ),
        ),
{
    let ghost start = diagnostics@.len() as int;
    let ghost before = diagnostics@;
    let ghost marks = string_views(mark_keys@);
    let ghost mut problems: Seq<(SiteSpec, Seq<char>)> = seq![];
    let id = id_string(effect_id);
    assert(diagnostics@.subrange(start, start) =~= Seq::<ProjectDiagnostic>::empty());
    assert(placed(root_path@, files@, effect_id, problems) =~= seq![]);
    assert(diagnostics@.subrange(0, start) =~= before);
    let n = params.len();
    let mut i: usize = 0;
    while i < n
        invariant
            n == params@.len(),
            i <= n,
            id@ == id_text(effect_id),
            start == before.len(),
            diagnostics@.len() >= start,
            diagnostics@.subrange(0, start) == before,
            problems == unknown_param_problems(effect_id, script_name@, schemas@, params@.subrange(0, i as int)),
            placed_reports(
                diagnostics@.subrange(start, diagnostics@.len() as int),
                placed(root_path@, files@, effect_id, problems),
            ),
        decreases n - i,
    {
        let name = params[i].0.as_str();
        assert(params@.subrange(0, i + 1).drop_last() =~= params@.subrange(0, i as int));
        assert(params@.subrange(0, i + 1).last() == params@[i as int]);
        if !is_declared(schemas, name) {
            let mut m = String::from_str("effect `");
            m.append(id.as_str());
            m.append("` passes unknown parameter `");
            m.append(name);
            m.append("` to script `");
            m.append(script_name);
            m.append("`");
            emit(
                diagnostics,
                root_path,
                files,
                effect_id,
                ParamSite::Param(params[i].0.clone()),
                m,
                Ghost(start),
                Ghost(problems),
            );
            proof {
                problems = problems.push((SiteSpec::Param(name@), m@));
            }
        }
        i += 1;
    }
    assert(params@.subrange(0, n as int) =~= params@);
    let ghost unknown = problems;
    let s = schemas.len();
    let mut k: usize = 0;
    while k < s
        invariant
            s == schemas@.len(),
            k <= s,
            id@ == id_text(effect_id),
            marks == string_views(mark_keys@),
            start == before.len(),
            diagnostics@.len() >= start,
            diagnostics@.subrange(0, start) == before,
            unknown == unknown_param_problems(effect_id, script_name@, schemas@, params@),
            problems == unknown + schemas_problems(
                effect_id,
                script_name@,
                schemas@.subrange(0, k as int),
                params@,
                marks,
            ),
            placed_reports(
                diagnostics@.subrange(start, diagnostics@.len() as int),
                placed(root_path@, files@, effect_id, problems),
            ),
        decreases s - k,
    {
        let schema = &schemas[k];
        let ghost base = problems;
        assert(schemas@.subrange(0, k + 1).drop_last() =~= schemas@.subrange(0, k as int));
        assert(schemas@.subrange(0, k + 1).last() == schemas@[k as int]);
        let name = schema.name.as_str();
        let ghost expected = schema_problems(effect_id, script_name@, *schema, params@, marks);
        match find_param(params, name) {
            Some(j) => {
                let param = &params[j].1;
                if schema.value_type.matches_param(param) {
                    match param {
                        EffectParamShape::Enum { value } => {
                            if !contains_str(&schema.options, value.as_str()) {
                                let m = param_message(
                                    &id,
                                    name,
                                    "` value `",
                                    value.as_str(),
                                    "` is not declared by script `",
                                    script_name,
                                );
                                emit(
                                    diagnostics,
                                    root_path,
                                    files,
                                    effect_id,
                                    ParamSite::ParamValue(schema.name.clone(), value.clone()),
                                    m,
                                    Ghost(start),
                                    Ghost(problems),
                                );
                                proof {
                                    problems = problems.push((SiteSpec::ParamValue(name@, value@), m@));
                                    assert(problems == base + expected);
                                }
                            } else {
                                assert(base + expected =~= base);
                            }
                        },
                        EffectParamShape::Flags { values } => {
                            let f = values.len();
                            let mut v: usize = 0;
                            assert(base + flag_problems(
                                effect_id,
                                script_name@,
                                name@,
                                string_views(schema.options@),
                                values@.subrange(0, 0),
                            ) =~= base);
                            while v < f
                                invariant
                                    f == values@.len(),
                                    v <= f,
                                    name@ == schema.name@,
                                    id@ == id_text(effect_id),
                                    start == before.len(),
                                    diagnostics@.len() >= start,
                                    diagnostics@.subrange(0, start) == before,
                                    problems == base + flag_problems(
                                        effect_id,
                                        script_name@,
                                        name@,
                                        string_views(schema.options@),
                                        values@.subrange(0, v as int),
                                    ),
                                    placed_reports(
                                        diagnostics@.subrange(start, diagnostics@.len() as int),
                                        placed(root_path@, files@, effect_id, problems),
                                    ),
                                decreases f - v,
                            {
                                let flag = values[v].as_str();
                                assert(values@.subrange(0, v + 1).drop_last() =~= values@.subrange(0, v as int));
                                assert(values@.subrange(0, v + 1).last() == values@[v as int]);
                                if !contains_str(&schema.options, flag) {
                                    let m = param_message(
                                        &id,
                                        name,
                                        "` flag `",
                                        flag,
                                        "` is not declared by script `",
                                        script_name,
                                    );
                                    emit(
                                        diagnostics,
                                        root_path,
                                        files,
                                        effect_id,
                                        ParamSite::ParamValue(schema.name.clone(), values[v].clone()),
                                        m,
                                        Ghost(start),
                                        Ghost(problems),
                                    );
                                    proof {
                                        problems = problems.push((SiteSpec::ParamValue(name@, flag@), m@));
                                    }
                                }
                                assert(problems =~= base + flag_problems(
                                    effect_id,
                                    script_name@,
                                    name@,
                                    string_views(schema.options@),
                                    values@.subrange(0, v + 1),
                                ));
                                v += 1;
                            }
                            assert(values@.subrange(0, f as int) =~= values@);
                        },
                        EffectParamShape::Marks { key } => {
                            if !contains_str(mark_keys, key.as_str()) {
                                let m = param_message(
                                    &id,
                                    name,
                                    "` references unknown mark collection `",
                                    key.as_str(),
                                    "` for script `",
                                    script_name,
                                );
                                emit(
                                    diagnostics,
                                    root_path,
                                    files,
                                    effect_id,
                                    ParamSite::ParamValue(schema.name.clone(), key.clone()),
                                    m,
                                    Ghost(start),
                                    Ghost(problems),
                                );
                                proof {
                                    problems = problems.push((SiteSpec::ParamValue(name@, key@), m@));
                                }
                            } else {
                                assert(base + expected =~= base);
                            }
                        },
                        _ => {
                            assert(base + expected =~= base);
                        },
                    }
                } else {
                    let mut m = String::from_str("effect `");
                    m.append(id.as_str());
                    m.append("` parameter `");
                    m.append(name);
                    m.append("` must be ");
                    let label = schema.value_type.label();
                    m.append(label.as_str());
                    emit(
                        diagnostics,
                        root_path,
                        files,
                        effect_id,
                        ParamSite::ParamType(schema.name.clone()),
                        m,
                        Ghost(start),
                        Ghost(problems),
                    );
                    proof {
                        problems = problems.push((SiteSpec::ParamType(name@), m@));
                    }
                }
            },
            None => {
                if schema.default.is_none() {
                    let mut m = String::from_str("effect `");
                    m.append(id.as_str());
                    m.append("` is missing required parameter `");
                    m.append(name);
                    m.append("`");
                    emit(
                        diagnostics,
                        root_path,
                        files,
                        effect_id,
                        ParamSite::ParamsBlock,
                        m,
                        Ghost(start),
                        Ghost(problems),
                    );
                    proof {
                        problems = problems.push((SiteSpec::ParamsBlock, m@));
                    }
                } else {
                    assert(base + expected =~= base);
                }
            },
        }
        assert(problems == base + expected);
        assert(unknown + schemas_problems(effect_id, script_name@, schemas@.subrange(0, k + 1), params@, marks)
            =~= base + expected);
        k += 1;
    }
    assert(schemas@.subrange(0, s as int) =~= schemas@);
}

/// The range and message of each diagnostic of a script.
pub open spec fn inline_problems(diagnostics: Seq<ScriptDiagnostic>) -> Seq<(Option<SourceRange>, Seq<char>)> {
    diagnostics.map_values(|d: ScriptDiagnostic| (d.range, d.message@))
}

pub open spec fn place_inline(
    fallback: Seq<char>,
    files: Seq<(String, String)>,
    id: u32,
    p: (Option<SourceRange>, Seq<char>),
) -> (Seq<char>, Option<TextRange>, Seq<char>) {
    match p.0 {
        Some(r) => place(fallback, files, id, (SiteSpec::InlineScript(r), p.1)),
        None => (fallback, None, p.1),
    }
}

/// The errors of the inline script of the effect `effect_id`, each placed at
/// the part of the YAML (in the first of `files` that holds the effect) that
/// its script range falls in, else at `fallback_path` with no range.
pub fn inline_script_diagnostics(
    files: &Vec<(String, String)>,
    fallback_path: &str,
    effect_id: u32,
    diagnostics: &Vec<ScriptDiagnostic>,
) -> (r: Vec<ProjectDiagnostic>)
    ensures
        placed_reports(
            r@,
            inline_problems(diagnostics@).map_values(
                |p: (Option<SourceRange>, Seq<char>)| place_inline(fallback_path@, files@, effect_id, p),
            ),
        ),
{
    let ghost want = inline_problems(diagnostics@).map_values(
        |p: (Option<SourceRange>, Seq<char>)| place_inline(fallback_path@, files@, effect_id, p),
    );
    let mut out: Vec<ProjectDiagnostic> = Vec::new();
    let mut k: usize = 0;
    while k < diagnostics.len()
        invariant
            k <= diagnostics@.len(),
            want == inline_problems(diagnostics@).map_values(
                |p: (Option<SourceRange>, Seq<char>)| place_inline(fallback_path@, files@, effect_id, p),
            ),
            placed_reports(out@, want.subrange(0, k as int)),
        decreases diagnostics@.len() - k,
    {
        let d = &diagnostics[k];
        let (path, range) = match d.range {
            Some(r) => place_site(fallback_path, files, effect_id, &ParamSite::InlineScript(r)),
            None => (String::from_str(fallback_path), None),
        };
        let ghost prev = out@;
        out.push(ProjectDiagnostic::error(path, range, DiagnosticCode::Script, d.message.clone()));
        proof {
            assert(want[k as int] == place_inline(fallback_path@, files@, effect_id, (d.range, d.message@)));
            assert forall|j: int| 0 <= j < out@.len() implies {
                &&& (#[trigger] out@[j]).path@ == want.subrange(0, k + 1)[j].0
                &&& out@[j].range == want.subrange(0, k + 1)[j].1
                &&& out@[j].message@ == want.subrange(0, k + 1)[j].2
                &&& out@[j].severity == DiagnosticSeverity::Error
                &&& out@[j].code == DiagnosticCode::Script
            } by {
                if j < k {
                    assert(out@[j] == prev[j]);
                    assert(want.subrange(0, k + 1)[j] == want.subrange(0, k as int)[j]);
                }
            }
        }
        k += 1;
    }
    assert(want.subrange(0, want.len() as int) =~= want);
    out
}

/// A script position as a text position.
pub open spec fn spec_script_range(r: SourceRange) -> TextRange {
    TextRange {
        start: TextPosition { line: r.start.line, character: r.start.character },
        end: TextPosition { line: r.end.line, character: r.end.character },
    }
}

pub fn script_range(r: SourceRange) -> (t: TextRange)
    ensures
        t == spec_script_range(r),
{
    TextRange {
        start: TextPosition { line: r.start.line, character: r.start.character },
        end: TextPosition { line: r.end.line, character: r.end.character },
    }
}

/// The errors of the script file at `path` that did not compile, one for
/// each of `diagnostics`, at its range.
pub fn script_diagnostics(path: &str, diagnostics: &Vec<ScriptDiagnostic>) -> (r: Vec<ProjectDiagnostic>)
    ensures
        r@.len() == diagnostics@.len(),
        forall|k: int|
            0 <= k < r@.len() ==> {
                &&& (#[trigger] r@[k]).path@ == path@
                &&& r@[k].range == (match diagnostics@[k].range {
                    Some(sr) => Some(spec_script_range(sr)),
                    None => None,
                })
                &&& r@[k].message@ == diagnostics@[k].message@
                &&& r@[k].severity == DiagnosticSeverity::Error
                &&& r@[k].code == DiagnosticCode::Script
            },
{
    let mut out: Vec<ProjectDiagnostic> = Vec::new();
    let mut k: usize = 0;
    while k < diagnostics.len()
        invariant
            k <= diagnostics@.len(),
            out@.len() == k,
            forall|j: int|
                0 <= j < k ==> {
                    &&& (#[trigger] out@[j]).path@ == path@
                    &&& out@[j].range == (match diagnostics@[j].range {
                        Some(sr) => Some(spec_script_range(sr)),
                        None => None,
                    })
                    &&& out@[j].message@ == diagnostics@[j].message@
                    &&& out@[j].severity == DiagnosticSeverity::Error
                    &&& out@[j].code == DiagnosticCode::Script
                },
        decreases diagnostics@.len() - k,
    {
        let d = &diagnostics[k];
        let range = match d.range {
            Some(sr) => Some(script_range(sr)),
            None => None,
        };
        out.push(ProjectDiagnostic::error(String::from_str(path), range, DiagnosticCode::Script, d.message.clone()));
        k += 1;
    }
    out
}

/// The message of the first of `diagnostics`, or a generic one when there
/// is none.
pub fn script_diagnostics_message(diagnostics: &Vec<ScriptDiagnostic>) -> (m: String)
    ensures
        m@ == (if diagnostics@.len() > 0 {
            diagnostics@[0].message@
        } else {
            "effect script did not compile"@
        }),
{
    if diagnostics.len() > 0 {
        diagnostics[0].message.clone()
    } else {
        String::from_str("effect script did not compile")
    }
}

/// A parameter value with no option, flag or mark collection to check.
pub open spec fn is_plain_value(shape: EffectParamShape) -> bool {
    shape is Integer || shape is Float || shape is Boolean || shape is Color
}

proof fn lemma_no_unknown(id: u32, script: Seq<char>, schemas: Seq<EffectParamSchema>, params: Seq<(String, EffectParamShape)>)
    requires
        forall|j: int| 0 <= j < params.len() ==> schema_names(schemas).contains(#[trigger] params[j].0@),
    ensures
        unknown_param_problems(id, script, schemas, params) == Seq::<(SiteSpec, Seq<char>)>::empty(),
    decreases params.len(),
{
    if params.len() > 0 {
        let init = params.drop_last();
        assert forall|j: int| 0 <= j < init.len() implies schema_names(schemas).contains(#[trigger] init[j].0@) by {
            assert(init[j] == params[j]);
        }
        lemma_no_unknown(id, script, schemas, init);
        assert(params.last() == params[params.len() - 1]);
    }
}

proof fn lemma_no_schema_problems(
    id: u32,
    script: Seq<char>,
    schemas: Seq<EffectParamSchema>,
    params: Seq<(String, EffectParamShape)>,
    marks: Seq<Seq<char>>,
)
    requires
        forall|i: int|
            0 <= i < schemas.len() ==> match find_param_from(params, (#[trigger] schemas[i]).name@, 0) {
                Some(j) => is_plain_value(params[j].1) && shape_type(params[j].1) == Some(schemas[i].value_type),
                None => schemas[i].default is Some,
            },
    ensures
        schemas_problems(id, script, schemas, params, marks) == Seq::<(SiteSpec, Seq<char>)>::empty(),
    decreases schemas.len(),
{
    if schemas.len() > 0 {
        let init = schemas.drop_last();
        assert forall|i: int| 0 <= i < init.len() implies match find_param_from(params, (#[trigger] init[i]).name@, 0) {
            Some(j) => is_plain_value(params[j].1) && shape_type(params[j].1) == Some(init[i].value_type),
            None => init[i].default is Some,
        } by {
            assert(init[i] == schemas[i]);
        }
        lemma_no_schema_problems(id, script, init, params, marks);
        let last = schemas.last();
        assert(last == schemas[schemas.len() - 1]);
        match find_param_from(params, last.name@, 0) {
            Some(j) => {
                lemma_value_fits_its_own_type(last.value_type, params[j].1);
            },
            None => {},
        }
        assert(schemas_problems(id, script, schemas, params, marks) =~= Seq::<(SiteSpec, Seq<char>)>::empty());
    }
}

/// An effect that passes only parameters its script declares, each declared
/// parameter either given a plain value (an integer, float, boolean or color)
/// of its own type or left to its default, has nothing to report.
pub proof fn lemma_fitting_params_have_no_problems(
    id: u32,
    script: Seq<char>,
    schemas: Seq<EffectParamSchema>,
    params: Seq<(String, EffectParamShape)>,
    marks: Seq<Seq<char>>,
)
    requires
        forall|j: int| 0 <= j < params.len() ==> schema_names(schemas).contains(#[trigger] params[j].0@),
        forall|i: int|
            0 <= i < schemas.len() ==> match find_param_from(params, (#[trigger] schemas[i]).name@, 0) {
                Some(j) => is_plain_value(params[j].1) && shape_type(params[j].1) == Some(schemas[i].value_type),
                None => schemas[i].default is Some,
            },
    ensures
        effect_param_problems(id, script, schemas, params, marks) == Seq::<(SiteSpec, Seq<char>)>::empty(),
{
    lemma_no_unknown(id, script, schemas, params);
    lemma_no_schema_problems(id, script, schemas, params, marks);
    assert(effect_param_problems(id, script, schemas, params, marks) =~= Seq::<(SiteSpec, Seq<char>)>::empty());
}

/// A declared parameter given a value of another type than its own is
/// reported at its `type` field as "must be" its type.
pub proof fn lemma_wrong_type_is_reported(
    id: u32,
    script: Seq<char>,
    schema: EffectParamSchema,
    params: Seq<(String, EffectParamShape)>,
    marks: Seq<Seq<char>>,
    j: int,
)
    requires
        find_param_from(params, schema.name@, 0) == Some(j),
        !(params[j].1 is Array),
        shape_type(params[j].1) != Some(schema.value_type),
    ensures
        schema_problems(id, script, schema, params, marks) == seq![
            (
                SiteSpec::ParamType(schema.name@),
                "effect `"@ + id_text(id) + "` parameter `"@ + schema.name@ + "` must be "@ + spec_script_type_label(
                    schema.value_type,
                ),
            ),
        ],
{
    lemma_value_fits_its_own_type(schema.value_type, params[j].1);
}

} // verus!
