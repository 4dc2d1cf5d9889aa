//! Positions, ranges and diagnostics reported about the files of a project.
use vstd::prelude::*;

verus! {

/// A line and a character within it, both counted from zero.
#[derive(Debug, Clone, Copy, PartialEq, Eq, Hash, Structural)]
pub struct TextPosition {
    pub line: u32,
    pub character: u32,
}

/// A half-open range of a file.
#[derive(Debug, Clone, Copy, PartialEq, Eq, Hash, Structural)]
pub struct TextRange {
    pub start: TextPosition,
    pub end: TextPosition,
}

#[derive(Debug, Clone, Copy, PartialEq, Eq, Hash, Structural)]
pub enum DiagnosticSeverity {
    Error,
    Warning,
}

/// What part of the analysis a diagnostic comes from.
#[derive(Debug, Clone, Copy, PartialEq, Eq, Structural)]
pub enum DiagnosticCode {
    Io,
    Yaml,
    Import,
    Lower,
    ProjectKey,
    Sequence,
    Script,
}

/// What part of loading a project a diagnostic comes from.
#[derive(Debug, Clone, Copy, PartialEq, Eq, Hash, Structural)]
pub enum ProjectDiagnosticKind {
    Io,
    DawnSyntax,
    DawnSchema,
    Import,
    Lower,
    EffectScript,
}

/// A problem found in a file of a project.
#[derive(Debug, Clone, PartialEq, Eq)]
pub struct ProjectDiagnostic {
    pub path: String,
    pub range: Option<TextRange>,
    pub severity: DiagnosticSeverity,
    pub code: DiagnosticCode,
    pub message: String,
}

/// A diagnostic with its texts as characters.
pub struct DiagnosticView {
    pub path: Seq<char>,
    pub range: Option<TextRange>,
    pub severity: DiagnosticSeverity,
    pub code: DiagnosticCode,
    pub message: Seq<char>,
}

/// Unsaved contents of a file, read in place of what is on disk.
#[derive(Debug, Clone, PartialEq, Eq)]
pub struct ProjectOverlay {
    pub path: String,
    pub content: String,
}

impl ProjectDiagnostic {
    /// An error about `path`.
    /// What a diagnostic says, with its texts as characters.
    pub open spec fn spec_view(&self) -> DiagnosticView {
        DiagnosticView {
            path: self.path@,
            range: self.range,
            severity: self.severity,
            code: self.code,
            message: self.message@,
        }
    }

    pub fn error(path: String, range: Option<TextRange>, code: DiagnosticCode, message: String) -> (d: Self)
        ensures
            d.path@ == path@,
            d.range == range,
            d.severity == DiagnosticSeverity::Error,
            d.code == code,
            d.message@ == message@,
    {
        ProjectDiagnostic { path, range, severity: DiagnosticSeverity::Error, code, message }
    }
}

} // verus!
