//! Finding the project object of a project's root file.
use vstd::prelude::*;
use crate::diagnostics::{DiagnosticCode, DiagnosticSeverity, ProjectDiagnostic};
use crate::model::decimal::{decimal_digits, u64_to_decimal};
use crate::model::kinds::ObjectKind;
use crate::text::{concat, string_from_chars};

verus! {

/// The keys of the project objects among `objects`, in order.
pub open spec fn project_keys(objects: Seq<(String, ObjectKind)>) -> Seq<Seq<char>>
    decreases objects.len(),
{
    if objects.len() == 0 {
        seq![]
    } else {
        let rest = project_keys(objects.drop_last());
        if objects.last().1 == ObjectKind::Project {
            rest.push(objects.last().0@)
        } else {
            rest
        }
    }
}

/// What is reported when a root file holds `count` project objects, not one.
pub open spec fn project_count_message(count: nat) -> Seq<char> {
    if count == 0 {
        "root file must contain one project object, but found none"@
    } else {
        "root file must contain one project object, but found "@ + decimal_digits(count)
    }
}

/// The key of the one project object of the root file at `root_path`, whose
/// objects are `objects` (each a key and its kind), when it could be read.
/// When there is not exactly one, an error about the root file says how many
/// there are.
pub fn infer_project_key(
    root_path: &str,
    objects: Option<&Vec<(String, ObjectKind)>>,
    diagnostics: &mut Vec<ProjectDiagnostic>,
) -> (r: Option<String>)
    ensures
        match objects {
            None => r is None && final(diagnostics)@ == old(diagnostics)@,
            Some(os) => {
                let keys = project_keys(os@);
                if keys.len() == 1 {
                    r matches Some(k) && k@ == keys[0] && final(diagnostics)@ == old(diagnostics)@
                } else {
                    &&& r is None
                    &&& final(diagnostics)@.len() == old(diagnostics)@.len() + 1
                    &&& final(diagnostics)@.drop_last() == old(diagnostics)@
                    &&& final(diagnostics)@.last().path@ == root_path@
                    &&& final(diagnostics)@.last().range is None
                    &&& final(diagnostics)@.last().severity == DiagnosticSeverity::Error
                    &&& final(diagnostics)@.last().code == DiagnosticCode::ProjectKey
                    &&& final(diagnostics)@.last().message@ == project_count_message(keys.len())
                }
            },
        },
{
    let objects = match objects {
        None => {
            return None;
        },
        Some(os) => os,
    };
    let mut keys: Vec<String> = Vec::new();
    let mut i: usize = 0;
    while i < objects.len()
        invariant
            i <= objects@.len(),
            keys@.len() <= i,
            keys@.map_values(|k: String| k@) == project_keys(objects@.subrange(0, i as int)),
        decreases objects@.len() - i,
    {
        assert(objects@.subrange(0, i + 1).drop_last() =~= objects@.subrange(0, i as int));
        if objects[i].1 == ObjectKind::Project {
            let ghost before = keys@;
            keys.push(objects[i].0.clone());
            assert(keys@.map_values(|k: String| k@) =~= before.map_values(|k: String| k@).push(objects@[i as int].0@));
        }
        i += 1;
    }
    assert(objects@.subrange(0, objects@.len() as int) =~= objects@);
    let count = keys.len();
    assert(keys@.map_values(|k: String| k@).len() == count);
    if count == 1 {
        assert(keys@.map_values(|k: String| k@)[0] == keys@[0]@);
        return Some(keys[0].clone());
    }
    let message = if count == 0 {
        String::from_str("root file must contain one project object, but found none")
    } else {
        let digits = string_from_chars(u64_to_decimal(count as u64).as_slice());
        concat("root file must contain one project object, but found ", digits.as_str())
    };
    let ghost before = diagnostics@;
    diagnostics.push(ProjectDiagnostic::error(String::from_str(root_path), None, DiagnosticCode::ProjectKey, message));
    assert(diagnostics@.drop_last() =~= before);
    None
}

} // verus!
