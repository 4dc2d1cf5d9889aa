//! Errors found while lowering authored objects to resolved ones, and the
//! messages that report them.
use vstd::prelude::*;
use crate::effect_script::diag::ScriptDiagnostic;
use crate::model::decimal::{decimal_digits, u64_to_decimal};
use crate::model::kinds::{
    CurveValueType, FixtureId, GroupInstantiationId, LayoutTargetKind, ObjectKind, spec_object_kind_label,
};
use crate::model::refs::SymbolRef;
use crate::text::{concat, concat3, string_from_chars};

verus! {

/// Why authored objects could not be lowered.
#[derive(Debug, Clone)]
pub enum LowerError {
    MissingProject { key: String },
    WrongObjectKind { key: String, expected: ObjectKind, actual: ObjectKind },
    WrongImportedObjectKind { reference: String, expected: ObjectKind, actual: ObjectKind },
    Import { reference: String, message: String },
    EffectCompile { reference: String, source_path: String, diagnostics: Vec<ScriptDiagnostic> },
    DuplicateFixtureId { id: FixtureId },
    UnknownFixture { id: FixtureId },
    DuplicateGroupId { id: GroupInstantiationId },
    UnknownGroup { id: GroupInstantiationId },
    DisplayDoesNotUseController { reference: String },
    DuplicateLayoutTargetOrderEntry { kind: LayoutTargetKind, id: u32 },
    MissingLayoutTargetOrderEntry { kind: LayoutTargetKind, id: u32 },
    UnknownLayoutTargetOrderEntry { kind: LayoutTargetKind, id: u32 },
    DuplicateSequenceEffectId { id: u32 },
    UnknownSequenceEffect { id: u32 },
    DuplicateAutomationClipId { id: u32 },
    AutomationCurveType { id: u32, actual: CurveValueType },
}

/// The name of a layout target kind as messages print it.
pub open spec fn spec_target_kind_name(kind: LayoutTargetKind) -> Seq<char> {
    match kind {
        LayoutTargetKind::Group => "Group"@,
        LayoutTargetKind::Fixture => "Fixture"@,
    }
}

/// The name of a curve value type as messages print it.
pub open spec fn spec_curve_type_name(t: CurveValueType) -> Seq<char> {
    match t {
        CurveValueType::Float => "Float"@,
        CurveValueType::Color => "Color"@,
    }
}

/// The message of the first diagnostic, or a generic one when there is none.
pub open spec fn spec_first_diagnostic_message(diagnostics: Seq<ScriptDiagnostic>) -> Seq<char> {
    if diagnostics.len() > 0 {
        diagnostics[0].message@
    } else {
        "effect script did not compile"@
    }
}

/// `` `id` `` in backquotes, with `prefix` before and `suffix` after.
pub open spec fn quoted(prefix: Seq<char>, inner: Seq<char>, suffix: Seq<char>) -> Seq<char> {
    prefix + "`"@ + inner + "`"@ + suffix
}

/// The message that reports `e`.
pub open spec fn spec_lower_error_message(e: LowerError) -> Seq<char> {
    match e {
        LowerError::MissingProject { key } => quoted("project object "@, key@, " was not found"@),
        LowerError::WrongObjectKind { key, expected, actual } => quoted(
            "object "@,
            key@,
            " must be a "@ + spec_object_kind_label(expected) + ", but found a "@ + spec_object_kind_label(actual),
        ),
        LowerError::WrongImportedObjectKind { reference, expected, actual } => quoted(
            "reference "@,
            reference@,
            " must resolve to a "@ + spec_object_kind_label(expected) + ", but found a "@ + spec_object_kind_label(
                actual,
            ),
        ),
        LowerError::Import { reference, message } => quoted(
            "failed to resolve reference "@,
            reference@,
            ": "@ + message@,
        ),
        LowerError::EffectCompile { reference, source_path, diagnostics } => quoted(
            "failed to compile effect "@,
            reference@,
            ": "@ + spec_first_diagnostic_message(diagnostics@),
        ),
        LowerError::DuplicateFixtureId { id } => quoted("duplicate fixture id "@, decimal_digits(id.0 as nat), ""@),
        LowerError::UnknownFixture { id } => quoted("unknown fixture "@, decimal_digits(id.0 as nat), ""@),
        LowerError::DuplicateGroupId { id } => quoted("duplicate group id "@, decimal_digits(id.0 as nat), ""@),
        LowerError::UnknownGroup { id } => quoted("unknown group "@, decimal_digits(id.0 as nat), ""@),
        LowerError::DisplayDoesNotUseController { reference } => quoted(
            "display does not use controller "@,
            reference@,
            ""@,
        ),
        LowerError::DuplicateLayoutTargetOrderEntry { kind, id } => quoted(
            "duplicate layout target order entry "@,
            spec_target_kind_name(kind) + ":"@ + decimal_digits(id as nat),
            ""@,
        ),
        LowerError::MissingLayoutTargetOrderEntry { kind, id } => quoted(
            "missing layout target order entry "@,
            spec_target_kind_name(kind) + ":"@ + decimal_digits(id as nat),
            ""@,
        ),
        LowerError::UnknownLayoutTargetOrderEntry { kind, id } => quoted(
            "unknown layout target order entry "@,
            spec_target_kind_name(kind) + ":"@ + decimal_digits(id as nat),
            ""@,
        ),
        LowerError::DuplicateSequenceEffectId { id } => quoted(
            "duplicate sequence effect "@,
            decimal_digits(id as nat),
            ""@,
        ),
        LowerError::UnknownSequenceEffect { id } => quoted("unknown sequence effect "@, decimal_digits(id as nat), ""@),
        LowerError::DuplicateAutomationClipId { id } => quoted(
            "duplicate automation clip "@,
            decimal_digits(id as nat),
            ""@,
        ),
        LowerError::AutomationCurveType { id, actual } => quoted(
            "automation clip "@,
            decimal_digits(id as nat),
            " requires a float curve, but found a "@ + spec_curve_type_name(actual) + " curve"@,
        ),
    }
}

fn quote(prefix: &str, inner: &str, suffix: &str) -> (s: String)
    ensures
        s@ == quoted(prefix@, inner@, suffix@),
{
    let head = concat(prefix, "`");
    let body = concat3(head.as_str(), inner, "`");
    let r = concat(body.as_str(), suffix);
    assert(r@ =~= quoted(prefix@, inner@, suffix@));
    r
}

fn decimal_string(n: u32) -> (s: String)
    ensures
        s@ == decimal_digits(n as nat),
{
    string_from_chars(u64_to_decimal(n as u64).as_slice())
}

fn target_kind_name(kind: LayoutTargetKind) -> (s: &'static str)
    ensures
        s@ == spec_target_kind_name(kind),
{
    match kind {
        LayoutTargetKind::Group => "Group",
        LayoutTargetKind::Fixture => "Fixture",
    }
}

fn curve_type_name(t: CurveValueType) -> (s: &'static str)
    ensures
        s@ == spec_curve_type_name(t),
{
    match t {
        CurveValueType::Float => "Float",
        CurveValueType::Color => "Color",
    }
}

fn target_entry(kind: LayoutTargetKind, id: u32) -> (s: String)
    ensures
        s@ == spec_target_kind_name(kind) + ":"@ + decimal_digits(id as nat),
{
    let digits = decimal_string(id);
    concat3(target_kind_name(kind), ":", digits.as_str())
}

fn kinds_suffix(lead: &str, expected: ObjectKind, actual: ObjectKind) -> (s: String)
    ensures
        s@ == lead@ + spec_object_kind_label(expected) + ", but found a "@ + spec_object_kind_label(actual),
{
    let first = concat3(lead, expected.label(), ", but found a ");
    concat(first.as_str(), actual.label())
}

impl LowerError {
    /// The message that reports this error.
    pub fn message(&self) -> (s: String)
        ensures
            s@ == spec_lower_error_message(*self),
    {
        match self {
            LowerError::MissingProject { key } => quote("project object ", key.as_str(), " was not found"),
            LowerError::WrongObjectKind { key, expected, actual } => {
                let rest = kinds_suffix(" must be a ", *expected, *actual);
                quote("object ", key.as_str(), rest.as_str())
            },
            LowerError::WrongImportedObjectKind { reference, expected, actual } => {
                let rest = kinds_suffix(" must resolve to a ", *expected, *actual);
                quote("reference ", reference.as_str(), rest.as_str())
            },
            LowerError::Import { reference, message } => {
                let rest = concat(": ", message.as_str());
                quote("failed to resolve reference ", reference.as_str(), rest.as_str())
            },
            LowerError::EffectCompile { reference, diagnostics, .. } => {
                let first = if diagnostics.len() > 0 {
                    diagnostics[0].message.as_str()
                } else {
                    "effect script did not compile"
                };
                let rest = concat(": ", first);
                quote("failed to compile effect ", reference.as_str(), rest.as_str())
            },
            LowerError::DuplicateFixtureId { id } => {
                let digits = decimal_string(id.0);
                quote("duplicate fixture id ", digits.as_str(), "")
            },
            LowerError::UnknownFixture { id } => {
                let digits = decimal_string(id.0);
                quote("unknown fixture ", digits.as_str(), "")
            },
            LowerError::DuplicateGroupId { id } => {
                let digits = decimal_string(id.0);
                quote("duplicate group id ", digits.as_str(), "")
            },
            LowerError::UnknownGroup { id } => {
                let digits = decimal_string(id.0);
                quote("unknown group ", digits.as_str(), "")
            },
            LowerError::DisplayDoesNotUseController { reference } => {
                quote("display does not use controller ", reference.as_str(), "")
            },
            LowerError::DuplicateLayoutTargetOrderEntry { kind, id } => {
                let entry = target_entry(*kind, *id);
                quote("duplicate layout target order entry ", entry.as_str(), "")
            },
            LowerError::MissingLayoutTargetOrderEntry { kind, id } => {
                let entry = target_entry(*kind, *id);
                quote("missing layout target order entry ", entry.as_str(), "")
            },
            LowerError::UnknownLayoutTargetOrderEntry { kind, id } => {
                let entry = target_entry(*kind, *id);
                quote("unknown layout target order entry ", entry.as_str(), "")
            },
            LowerError::DuplicateSequenceEffectId { id } => {
                let digits = decimal_string(*id);
                quote("duplicate sequence effect ", digits.as_str(), "")
            },
            LowerError::UnknownSequenceEffect { id } => {
                let digits = decimal_string(*id);
                quote("unknown sequence effect ", digits.as_str(), "")
            },
            LowerError::DuplicateAutomationClipId { id } => {
                let digits = decimal_string(*id);
                quote("duplicate automation clip ", digits.as_str(), "")
            },
            LowerError::AutomationCurveType { id, actual } => {
                let digits = decimal_string(*id);
                let rest = concat3(" requires a float curve, but found a ", curve_type_name(*actual), " curve");
                quote("automation clip ", digits.as_str(), rest.as_str())
            },
        }
    }
}

/// The one object that a reference found, or the error that it found none or
/// more than one.
pub fn single_match<T>(matches: Vec<T>, reference: &SymbolRef) -> (r: Result<T, LowerError>)
    ensures
        matches@.len() == 1 ==> r == Ok::<T, LowerError>(matches@[0]),
        matches@.len() != 1 ==> (r matches Err(LowerError::Import { reference: raw, message }) && raw@
            == reference.spec_raw() && message@ == "symbol `"@ + reference.spec_name() + (if matches@.len() == 0 {
            "` was not found"@
        } else {
            "` is exported more than once"@
        })),
{
    let n = matches.len();
    if n == 1 {
        let mut matches = matches;
        return Ok(matches.remove(0));
    }
    let raw = String::from_str(reference.raw());
    let name = reference.name().as_str();
    let message = if n == 0 {
        concat3("symbol `", name, "` was not found")
    } else {
        concat3("symbol `", name, "` is exported more than once")
    };
    Err(LowerError::Import { reference: raw, message })
}

} // verus!
