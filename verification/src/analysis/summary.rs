//! What the analysis of a project reports about itself: whether it found an
//! error, how many files it reached, and how many objects they hold.
use vstd::prelude::*;
use crate::diagnostics::{DiagnosticSeverity, ProjectDiagnostic};

verus! {

/// Whether one of `diagnostics` is an error.
pub fn has_errors(diagnostics: &Vec<ProjectDiagnostic>) -> (b: bool)
    ensures
        b == exists|i: int| 0 <= i < diagnostics@.len() && (#[trigger] diagnostics@[i]).severity
            == DiagnosticSeverity::Error,
{
    let mut i: usize = 0;
    while i < diagnostics.len()
        invariant
            i <= diagnostics@.len(),
            forall|j: int| 0 <= j < i ==> (#[trigger] diagnostics@[j]).severity != DiagnosticSeverity::Error,
        decreases diagnostics@.len() - i,
    {
        if diagnostics[i].severity == DiagnosticSeverity::Error {
            return true;
        }
        i += 1;
    }
    false
}

/// The number of objects of the files whose object counts are `files`
/// (`None` for a file that was not parsed, which counts none).
pub open spec fn objects_in(files: Seq<Option<usize>>) -> int
    decreases files.len(),
{
    if files.len() == 0 {
        0
    } else {
        objects_in(files.drop_last()) + match files.last() {
            Some(n) => n as int,
            None => 0,
        }
    }
}

proof fn lemma_objects_in_prefix(files: Seq<Option<usize>>, i: int)
    requires
        0 <= i <= files.len(),
    ensures
        0 <= objects_in(files.subrange(0, i)) <= objects_in(files),
    decreases files.len() - i,
{
    if i < files.len() {
        lemma_objects_in_prefix(files, i + 1);
        assert(files.subrange(0, i + 1).drop_last() =~= files.subrange(0, i));
    } else {
        assert(files.subrange(0, i) =~= files);
    }
    lemma_objects_nonnegative(files.subrange(0, i));
}

proof fn lemma_objects_nonnegative(files: Seq<Option<usize>>)
    ensures
        objects_in(files) >= 0,
    decreases files.len(),
{
    if files.len() > 0 {
        lemma_objects_nonnegative(files.drop_last());
    }
}

/// How many objects the analyzed files hold, given each file's object count
/// (`None` for a file that was not parsed).
pub fn object_count(files: &Vec<Option<usize>>) -> (n: usize)
    requires
        objects_in(files@) <= usize::MAX,
    ensures
        n == objects_in(files@),
{
    let mut total: usize = 0;
    let mut i: usize = 0;
    while i < files.len()
        invariant
            i <= files@.len(),
            objects_in(files@) <= usize::MAX,
            total == objects_in(files@.subrange(0, i as int)),
        decreases files@.len() - i,
    {
        proof {
            assert(files@.subrange(0, i + 1).drop_last() =~= files@.subrange(0, i as int));
            lemma_objects_in_prefix(files@, i + 1);
        }
        match files[i] {
            Some(k) => {
                total = total + k;
            },
            None => {},
        }
        i += 1;
    }
    assert(files@.subrange(0, files@.len() as int) =~= files@);
    total
}

} // verus!
