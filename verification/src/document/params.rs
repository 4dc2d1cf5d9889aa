//! Which values the parameters of an effect take when its script changes or
//! one of its parameters is edited: a value that still fits the script's
//! parameter is kept, a mark parameter points at a mark collection, and the
//! rest fall back to their defaults.
use vstd::prelude::*;
use crate::effect_script::ast::EffectParamSchema;
use crate::effect_script::types::{
    lemma_value_fits_its_own_type, shape_type, spec_matches_param, spec_script_type_label, EffectParamShape, ScriptType,
};
use crate::model::color::{spec_parse_color, Color};
use crate::document::marks::{mark_collection_key_problem, validate_mark_collection_key};
use crate::text::{concat3, str_eq};
use crate::document::timeline::SequenceMarkCollectionDocument;

verus! {

/// Where the new value of a script parameter comes from.
#[derive(Debug, Clone, PartialEq, Eq)]
pub enum ParamSource {
    /// The effect's current parameter at this position, which still fits.
    Keep(usize),
    /// A reference to the mark collection with this key.
    Marks(String),
    /// The parameter's own default, or the default of its type.
    Default,
    /// The value of the edit being applied.
    Edited,
}

/// What a `ParamSource` stands for, with the key as characters.
pub enum SourceView {
    Keep(int),
    Marks(Seq<char>),
    Default,
    Edited,
}

impl View for ParamSource {
    type V = SourceView;

    open spec fn view(&self) -> SourceView {
        match self {
            ParamSource::Keep(k) => SourceView::Keep(*k as int),
            ParamSource::Marks(key) => SourceView::Marks(key@),
            ParamSource::Default => SourceView::Default,
            ParamSource::Edited => SourceView::Edited,
        }
    }
}

pub open spec fn sources_view(s: Seq<ParamSource>) -> Seq<SourceView> {
    s.map_values(|p: ParamSource| p@)
}

/// A value that an editor offers for one parameter; a float only says
/// whether it is finite, and a curve only what kind of values it holds.
#[derive(Debug, Clone)]
pub enum ParamEditValue {
    Integer,
    Float { finite: bool },
    Boolean,
    Color(String),
    Enum(String),
    Flags(Vec<String>),
    FloatCurve,
    ColorCurve,
    Marks(String),
}

pub open spec fn option_names(schema: EffectParamSchema) -> Seq<Seq<char>> {
    schema.options@.map_values(|s: String| s@)
}

/// Whether the option or flags that a value names are options of `schema`.
pub open spec fn spec_options_match(schema: EffectParamSchema, shape: EffectParamShape) -> bool {
    match shape {
        EffectParamShape::Enum { value } => option_names(schema).contains(value@),
        EffectParamShape::Flags { values } => forall|i: int|
            0 <= i < values@.len() ==> option_names(schema).contains(#[trigger] values@[i]@),
        _ => true,
    }
}

/// Whether a current value, by what it resolves to (`None`: it does not
/// resolve), still fits the parameter `schema`.
pub open spec fn spec_param_fits(schema: EffectParamSchema, shape: Option<EffectParamShape>) -> bool {
    match shape {
        Some(s) => spec_matches_param(schema.value_type, s) && spec_options_match(schema, s),
        None => false,
    }
}

/// The position of the first current parameter at or after `i` named `name`.
pub open spec fn find_current(current: Seq<(String, Option<EffectParamShape>)>, name: Seq<char>, i: int) -> Option<
    int,
>
    decreases current.len() - i,
{
    if i < 0 || i >= current.len() {
        None
    } else if current[i].0@ == name {
        Some(i)
    } else {
        find_current(current, name, i + 1)
    }
}

/// The current parameter that `schema` keeps: the first one of its name, when
/// that one still fits.
pub open spec fn kept_current(schema: EffectParamSchema, current: Seq<(String, Option<EffectParamShape>)>) -> Option<
    int,
> {
    match find_current(current, schema.name@, 0) {
        Some(k) => if spec_param_fits(schema, current[k].1) {
            Some(k)
        } else {
            None
        },
        None => None,
    }
}

/// Where the value of `schema` comes from when nothing is kept: a mark
/// parameter points at `marks_key`, any other takes its default.
pub open spec fn default_source(schema: EffectParamSchema, marks_key: Seq<char>) -> SourceView {
    if schema.value_type == ScriptType::Marks {
        SourceView::Marks(marks_key)
    } else {
        SourceView::Default
    }
}

pub open spec fn source_for(
    schema: EffectParamSchema,
    current: Seq<(String, Option<EffectParamShape>)>,
    marks_key: Seq<char>,
) -> SourceView {
    match kept_current(schema, current) {
        Some(k) => SourceView::Keep(k),
        None => default_source(schema, marks_key),
    }
}

/// The sources of the parameters of a script whose parameters are `schemas`,
/// for an effect whose current parameters are `current`.
pub open spec fn spec_sources_for_script(
    schemas: Seq<EffectParamSchema>,
    current: Seq<(String, Option<EffectParamShape>)>,
    marks_key: Seq<char>,
) -> Seq<SourceView> {
    Seq::new(schemas.len(), |i: int| source_for(schemas[i], current, marks_key))
}

/// The key that a new mark parameter points at: the first mark collection's,
/// or `marks` when there is none.
pub open spec fn spec_marks_key(first_collection: Option<Seq<char>>) -> Seq<char> {
    match first_collection {
        Some(k) => k,
        None => "marks"@,
    }
}

fn find_current_exec(current: &Vec<(String, Option<EffectParamShape>)>, name: &str) -> (r: Option<usize>)
    ensures
        match r {
            Some(k) => find_current(current@, name@, 0) == Some(k as int) && k < current@.len(),
            None => find_current(current@, name@, 0) is None,
        },
{
    let mut i: usize = 0;
    while i < current.len()
        invariant
            i <= current@.len(),
            find_current(current@, name@, 0) == find_current(current@, name@, i as int),
        decreases current@.len() - i,
    {
        if str_eq(current[i].0.as_str(), name) {
            return Some(i);
        }
        i += 1;
    }
    None
}

fn is_option(schema: &EffectParamSchema, value: &String) -> (b: bool)
    ensures
        b == option_names(*schema).contains(value@),
{
    let ghost names = option_names(*schema);
    let mut k: usize = 0;
    while k < schema.options.len()
        invariant
            k <= schema.options@.len(),
            names == option_names(*schema),
            forall|m: int| 0 <= m < k ==> names[m] != value@,
        decreases schema.options@.len() - k,
    {
        if str_eq(schema.options[k].as_str(), value.as_str()) {
            assert(names[k as int] == value@);
            return true;
        }
        k += 1;
    }
    false
}

proof fn lemma_first_bad_flag(schema: EffectParamSchema, values: Seq<String>, i: int)
    requires
        0 <= i <= values.len(),
    ensures
        first_bad_flag(schema, values, i) is None <==> forall|j: int|
            i <= j < values.len() ==> option_names(schema).contains(#[trigger] values[j]@),
    decreases values.len() - i,
{
    if i < values.len() {
        lemma_first_bad_flag(schema, values, i + 1);
    }
}

fn options_match(schema: &EffectParamSchema, shape: &EffectParamShape) -> (b: bool)
    ensures
        b == spec_options_match(*schema, *shape),
{
    match shape {
        EffectParamShape::Enum { value } => is_option(schema, value),
        EffectParamShape::Flags { values } => {
            proof {
                lemma_first_bad_flag(*schema, values@, 0);
            }
            first_bad_flag_exec(schema, values).is_none()
        },
        _ => true,
    }
}


/// Whether a current value, by what it resolves to, still fits `schema`.
pub fn param_fits(schema: &EffectParamSchema, shape: &Option<EffectParamShape>) -> (b: bool)
    ensures
        b == spec_param_fits(*schema, *shape),
{
    match shape {
        Some(s) => schema.value_type.matches_param(s) && options_match(schema, s),
        None => false,
    }
}

fn source_for_exec(schema: &EffectParamSchema, current: &Vec<(String, Option<EffectParamShape>)>, marks_key: &str) -> (r:
    ParamSource)
    ensures
        r@ == source_for(*schema, current@, marks_key@),
{
    match find_current_exec(current, schema.name.as_str()) {
        Some(k) => {
            if param_fits(schema, &current[k].1) {
                return ParamSource::Keep(k);
            }
        },
        None => {},
    }
    if schema.value_type == ScriptType::Marks {
        ParamSource::Marks(String::from_str(marks_key))
    } else {
        ParamSource::Default
    }
}

/// The key that a new mark parameter points at: the key of the first of
/// `collections`, or `marks` when there is none.
pub fn marks_key_for(collections: &Vec<SequenceMarkCollectionDocument>) -> (k: String)
    ensures
        k@ == spec_marks_key(
            if collections@.len() > 0 {
                Some(collections@[0].key@)
            } else {
                None
            },
        ),
{
    if collections.len() > 0 {
        collections[0].key.clone()
    } else {
        String::from_str("marks")
    }
}

/// Where each parameter of a script whose parameters are `schemas` takes its
/// value from, when an effect whose current parameters are `current` (each
/// by its name and what it resolves to) switches to that script: the current
/// value of the same name when it still fits, else a reference to the mark
/// collection `marks_key` for a mark parameter, else the default.
pub fn sources_for_script(
    schemas: &Vec<EffectParamSchema>,
    current: &Vec<(String, Option<EffectParamShape>)>,
    marks_key: &str,
) -> (r: Vec<ParamSource>)
    ensures
        sources_view(r@) == spec_sources_for_script(schemas@, current@, marks_key@),
{
    let mut r: Vec<ParamSource> = Vec::new();
    let mut i: usize = 0;
    while i < schemas.len()
        invariant
            i <= schemas@.len(),
            r@.len() == i,
            forall|j: int| 0 <= j < i ==> (#[trigger] r@[j])@ == source_for(schemas@[j], current@, marks_key@),
        decreases schemas@.len() - i,
    {
        r.push(source_for_exec(&schemas[i], current, marks_key));
        i += 1;
    }
    assert(sources_view(r@) =~= spec_sources_for_script(schemas@, current@, marks_key@));
    r
}

/// `"effect parameter `name` was not found"`.
pub open spec fn spec_param_not_found(name: Seq<char>) -> Seq<char> {
    "effect parameter `"@ + name + "` was not found"@
}

/// Whether some parameter of `schemas` is named `name`.
pub open spec fn declares(schemas: Seq<EffectParamSchema>, name: Seq<char>) -> bool {
    exists|i: int| 0 <= i < schemas.len() && (#[trigger] schemas[i]).name@ == name
}

/// The sources after an edit of the parameter `name`: the parameters of that
/// name take the edited value, the others keep a value that still fits or
/// take their default (a mark parameter points at the collection `marks`).
pub open spec fn spec_sources_after_edit(
    schemas: Seq<EffectParamSchema>,
    current: Seq<(String, Option<EffectParamShape>)>,
    name: Seq<char>,
) -> Result<Seq<SourceView>, Seq<char>> {
    if !declares(schemas, name) {
        Err(spec_param_not_found(name))
    } else {
        Ok(
            Seq::new(
                schemas.len(),
                |i: int|
                    if schemas[i].name@ == name {
                        SourceView::Edited
                    } else {
                        source_for(schemas[i], current, "marks"@)
                    },
            ),
        )
    }
}

/// Where each parameter of the effect's script takes its value from when the
/// parameter `name` is edited; an error when the script has no parameter of
/// that name.
pub fn sources_after_edit(
    schemas: &Vec<EffectParamSchema>,
    current: &Vec<(String, Option<EffectParamShape>)>,
    name: &str,
) -> (r: Result<Vec<ParamSource>, String>)
    ensures
        match r {
            Ok(v) => spec_sources_after_edit(schemas@, current@, name@) == Ok::<Seq<SourceView>, Seq<char>>(
                sources_view(v@),
            ),
            Err(m) => spec_sources_after_edit(schemas@, current@, name@) == Err::<Seq<SourceView>, Seq<char>>(m@),
        },
{
    let mut found = false;
    let mut r: Vec<ParamSource> = Vec::new();
    let mut i: usize = 0;
    while i < schemas.len()
        invariant
            i <= schemas@.len(),
            r@.len() == i,
            found <==> exists|j: int| 0 <= j < i && (#[trigger] schemas@[j]).name@ == name@,
            forall|j: int|
                0 <= j < i ==> (#[trigger] r@[j])@ == if schemas@[j].name@ == name@ {
                    SourceView::Edited
                } else {
                    source_for(schemas@[j], current@, "marks"@)
                },
        decreases schemas@.len() - i,
    {
        if str_eq(schemas[i].name.as_str(), name) {
            r.push(ParamSource::Edited);
            found = true;
        } else {
            r.push(source_for_exec(&schemas[i], current, "marks"));
        }
        i += 1;
    }
    if !found {
        return Err(concat3("effect parameter `", name, "` was not found"));
    }
    assert(declares(schemas@, name@));
    assert(sources_view(r@) =~= Seq::new(
        schemas@.len(),
        |i: int|
            if schemas@[i].name@ == name@ {
                SourceView::Edited
            } else {
                source_for(schemas@[i], current@, "marks"@)
            },
    ));
    Ok(r)
}

/// The first flag at or after `i` that is not an option of `schema`.
pub open spec fn first_bad_flag(schema: EffectParamSchema, values: Seq<String>, i: int) -> Option<Seq<char>>
    decreases values.len() - i,
{
    if i < 0 || i >= values.len() {
        None
    } else if !option_names(schema).contains(values[i]@) {
        Some(values[i]@)
    } else {
        first_bad_flag(schema, values, i + 1)
    }
}

/// Why `value` cannot be the new value of the parameter `schema`; `None`
/// when it can.
pub open spec fn spec_param_edit_problem(schema: EffectParamSchema, value: ParamEditValue) -> Option<Seq<char>> {
    match (schema.value_type, value) {
        (ScriptType::Int, ParamEditValue::Integer) => None,
        (ScriptType::Float, ParamEditValue::Float { finite }) if finite => None,
        (ScriptType::Bool, ParamEditValue::Boolean) => None,
        (ScriptType::Color, ParamEditValue::Color(text)) => match spec_parse_color(text@) {
            Ok(_) => None,
            Err(m) => Some(m),
        },
        (ScriptType::Enum, ParamEditValue::Enum(option)) => if option_names(schema).contains(option@) {
            None
        } else {
            Some("`"@ + option@ + "` is not a valid option for `"@ + schema.name@ + "`"@)
        },
        (ScriptType::Flags, ParamEditValue::Flags(values)) => match first_bad_flag(schema, values@, 0) {
            Some(flag) => Some("`"@ + flag + "` is not a valid flag for `"@ + schema.name@ + "`"@),
            None => None,
        },
        (ScriptType::CurveFloat, ParamEditValue::FloatCurve) => None,
        (ScriptType::CurveColor, ParamEditValue::ColorCurve) => None,
        (ScriptType::Marks, ParamEditValue::Marks(key)) => mark_collection_key_problem(key@),
        _ => Some(
            "`"@ + schema.name@ + "` expects a "@ + spec_script_type_label(schema.value_type) + " parameter value"@,
        ),
    }
}

fn first_bad_flag_exec(schema: &EffectParamSchema, values: &Vec<String>) -> (r: Option<usize>)
    ensures
        match r {
            Some(i) => i < values@.len() && first_bad_flag(*schema, values@, 0) == Some(values@[i as int]@),
            None => first_bad_flag(*schema, values@, 0) is None,
        },
{
    let mut i: usize = 0;
    while i < values.len()
        invariant
            i <= values@.len(),
            first_bad_flag(*schema, values@, 0) == first_bad_flag(*schema, values@, i as int),
        decreases values@.len() - i,
    {
        if !is_option(schema, &values[i]) {
            return Some(i);
        }
        i += 1;
    }
    None
}

fn expects_message(schema: &EffectParamSchema) -> (m: String)
    ensures
        m@ == "`"@ + schema.name@ + "` expects a "@ + spec_script_type_label(schema.value_type)
            + " parameter value"@,
{
    let head = concat3("`", schema.name.as_str(), "` expects a ");
    let label = schema.value_type.label();
    concat3(head.as_str(), label.as_str(), " parameter value")
}

/// Checks that `value` can be the new value of the parameter `schema`: it
/// is of the parameter's type, a color reads as one, an option or each flag
/// is one of the parameter's options, and a mark key can name a collection.
pub fn check_param_edit(schema: &EffectParamSchema, value: &ParamEditValue) -> (r: Result<(), String>)
    ensures
        r is Ok <==> spec_param_edit_problem(*schema, *value) is None,
        r matches Err(m) ==> spec_param_edit_problem(*schema, *value) == Some(m@),
{
    match (schema.value_type, value) {
        (ScriptType::Int, ParamEditValue::Integer) => Ok(()),
        (ScriptType::Float, ParamEditValue::Float { finite }) if *finite => Ok(()),
        (ScriptType::Bool, ParamEditValue::Boolean) => Ok(()),
        (ScriptType::Color, ParamEditValue::Color(text)) => match Color::parse(text.as_str()) {
            Ok(_) => Ok(()),
            Err(m) => Err(m),
        },
        (ScriptType::Enum, ParamEditValue::Enum(option)) => {
            if is_option(schema, option) {
                Ok(())
            } else {
                let head = concat3("`", option.as_str(), "` is not a valid option for `");
                Err(concat3(head.as_str(), schema.name.as_str(), "`"))
            }
        },
        (ScriptType::Flags, ParamEditValue::Flags(values)) => match first_bad_flag_exec(schema, values) {
            Some(i) => {
                let head = concat3("`", values[i].as_str(), "` is not a valid flag for `");
                Err(concat3(head.as_str(), schema.name.as_str(), "`"))
            },
            None => Ok(()),
        },
        (ScriptType::CurveFloat, ParamEditValue::FloatCurve) => Ok(()),
        (ScriptType::CurveColor, ParamEditValue::ColorCurve) => Ok(()),
        (ScriptType::Marks, ParamEditValue::Marks(key)) => validate_mark_collection_key(key.as_str()),
        _ => Err(expects_message(schema)),
    }
}

/// The type of parameter that an edit value is a value of.
pub open spec fn edit_value_type(value: ParamEditValue) -> ScriptType {
    match value {
        ParamEditValue::Integer => ScriptType::Int,
        ParamEditValue::Float { .. } => ScriptType::Float,
        ParamEditValue::Boolean => ScriptType::Bool,
        ParamEditValue::Color(_) => ScriptType::Color,
        ParamEditValue::Enum(_) => ScriptType::Enum,
        ParamEditValue::Flags(_) => ScriptType::Flags,
        ParamEditValue::FloatCurve => ScriptType::CurveFloat,
        ParamEditValue::ColorCurve => ScriptType::CurveColor,
        ParamEditValue::Marks(_) => ScriptType::Marks,
    }
}

/// An edit is checked against the parameter's type: a value of another type
/// is refused with "`name` expects a <type> parameter value"; an integer, a
/// boolean, a finite float or a curve of the right kind for a parameter of
/// that type is accepted; an option is accepted exactly when it is one of the
/// parameter's options, and a set of flags exactly when each is.
pub proof fn lemma_param_edit_checks_the_type(schema: EffectParamSchema, value: ParamEditValue)
    ensures
        edit_value_type(value) != schema.value_type ==> spec_param_edit_problem(schema, value) == Some(
            "`"@ + schema.name@ + "` expects a "@ + spec_script_type_label(schema.value_type) + " parameter value"@,
        ),
        edit_value_type(value) == schema.value_type && (value is Integer || value is Boolean || value is FloatCurve
            || value is ColorCurve || value == (ParamEditValue::Float { finite: true }))
            ==> spec_param_edit_problem(schema, value) is None,
        value == (ParamEditValue::Float { finite: false }) ==> spec_param_edit_problem(schema, value) is Some,
        schema.value_type == ScriptType::Enum ==> (value matches ParamEditValue::Enum(o) ==> (spec_param_edit_problem(
            schema,
            value,
        ) is None <==> option_names(schema).contains(o@))),
        schema.value_type == ScriptType::Flags ==> (value matches ParamEditValue::Flags(fs) ==> (
        spec_param_edit_problem(schema, value) is None <==> forall|i: int|
            0 <= i < fs@.len() ==> option_names(schema).contains(#[trigger] fs@[i]@))),
        schema.value_type == ScriptType::Color ==> (value matches ParamEditValue::Color(t) ==> (spec_param_edit_problem(
            schema,
            value,
        ) is None <==> spec_parse_color(t@) is Ok)),
        schema.value_type == ScriptType::Marks ==> (value matches ParamEditValue::Marks(k) ==> (spec_param_edit_problem(
            schema,
            value,
        ) is None <==> mark_collection_key_problem(k@) is None)),
{
    if let ParamEditValue::Flags(fs) = value {
        lemma_first_bad_flag(schema, fs@, 0);
    }
}

/// Switching scripts keeps what still fits: for each parameter of the new
/// script, a current value of its name (the first one) that resolves to a
/// value of the parameter's type, with only declared options, is kept; a
/// mark parameter with nothing to keep points at the given collection; any
/// other takes its default. There is one source per parameter, in order.
pub proof fn lemma_switching_scripts_keeps_what_fits(
    schemas: Seq<EffectParamSchema>,
    current: Seq<(String, Option<EffectParamShape>)>,
    marks_key: Seq<char>,
    i: int,
)
    requires
        0 <= i < schemas.len(),
    ensures
        spec_sources_for_script(schemas, current, marks_key).len() == schemas.len(),
        ({
            let src = spec_sources_for_script(schemas, current, marks_key)[i];
            let schema = schemas[i];
            match find_current(current, schema.name@, 0) {
                Some(k) => match current[k].1 {
                    Some(shape) => if !(shape is Array) && shape_type(shape) == Some(schema.value_type)
                        && spec_options_match(schema, shape) {
                        src == SourceView::Keep(k)
                    } else if !(shape is Array) && shape_type(shape) != Some(schema.value_type) {
                        src != SourceView::Keep(k)
                    } else {
                        true
                    },
                    None => src != SourceView::Keep(k),
                },
                None => src == if schema.value_type == ScriptType::Marks {
                    SourceView::Marks(marks_key)
                } else {
                    SourceView::Default
                },
            }
        }),
{
    let schema = schemas[i];
    match find_current(current, schema.name@, 0) {
        Some(k) => match current[k].1 {
            Some(shape) => {
                if !(shape is Array) {
                    lemma_value_fits_its_own_type(schema.value_type, shape);
                }
            },
            None => {},
        },
        None => {},
    }
}

/// Editing one parameter: an unknown name is refused; otherwise every
/// parameter of that name takes the edited value, and no other does.
pub proof fn lemma_editing_one_parameter(
    schemas: Seq<EffectParamSchema>,
    current: Seq<(String, Option<EffectParamShape>)>,
    name: Seq<char>,
)
    ensures
        (forall|i: int| 0 <= i < schemas.len() ==> (#[trigger] schemas[i]).name@ != name) ==> spec_sources_after_edit(
            schemas,
            current,
            name,
        ) == Err::<Seq<SourceView>, Seq<char>>("effect parameter `"@ + name + "` was not found"@),
        spec_sources_after_edit(schemas, current, name) matches Ok(srcs) ==> srcs.len() == schemas.len() && forall|
            i: int,
        |
            0 <= i < schemas.len() ==> ((#[trigger] srcs[i]) is Edited <==> schemas[i].name@ == name),
{
    match spec_sources_after_edit(schemas, current, name) {
        Ok(srcs) => {
            assert forall|i: int| 0 <= i < schemas.len() implies ((#[trigger] srcs[i]) is Edited <==> schemas[i].name@
                == name) by {
                if schemas[i].name@ != name {
                    match kept_current(schemas[i], current) {
                        Some(k) => {},
                        None => {},
                    }
                }
            }
        },
        Err(_) => {},
    }
}

} // verus!
