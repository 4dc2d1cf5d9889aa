//! Why a project could not be loaded, and the entries of a project's files.
use vstd::prelude::*;
use crate::lower::{LowerError, spec_lower_error_message};
use crate::parse::builder::DawnParseDiagnostic;
use crate::text::concat3;

verus! {

/// Why a project could not be loaded: a file could not be read (with the
/// reason the system gave), a file could not be parsed, or lowering failed.
#[derive(Debug, Clone)]
pub enum LoadProjectError {
    Io { path: String, reason: String },
    Yaml { path: String, source: DawnParseDiagnostic },
    Lower(LowerError),
}

/// The message that reports `e`.
pub open spec fn spec_load_error_message(e: LoadProjectError) -> Seq<char> {
    match e {
        LoadProjectError::Io { path, reason } => "failed to read `"@ + path@ + "`: "@ + reason@,
        LoadProjectError::Yaml { path, source } => "failed to parse `"@ + path@ + "`: "@ + source.message@,
        LoadProjectError::Lower(error) => spec_lower_error_message(error),
    }
}

impl LoadProjectError {
    /// The message that reports this error.
    pub fn message(&self) -> (s: String)
        ensures
            s@ == spec_load_error_message(*self),
    {
        match self {
            LoadProjectError::Io { path, reason } => {
                let head = concat3("failed to read `", path.as_str(), "`: ");
                crate::text::concat(head.as_str(), reason.as_str())
            },
            LoadProjectError::Yaml { path, source } => {
                let head = concat3("failed to parse `", path.as_str(), "`: ");
                crate::text::concat(head.as_str(), source.message.as_str())
            },
            LoadProjectError::Lower(error) => error.message(),
        }
    }

    /// A lowering error as a load error.
    pub fn from_lower(error: LowerError) -> (e: Self)
        ensures
            e == LoadProjectError::Lower(error),
    {
        LoadProjectError::Lower(error)
    }
}

/// Whether an entry of a project is a directory or a file.
#[derive(Debug, Clone, Copy, PartialEq, Eq, Structural)]
pub enum ProjectFsEntryKind {
    Directory,
    File,
}

/// An entry of a project: its path within the project and its kind.
#[derive(Debug, Clone)]
pub struct ProjectFsEntry {
    pub path: String,
    pub kind: ProjectFsEntryKind,
}

} // verus!
