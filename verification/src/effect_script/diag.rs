//! Diagnostics and source positions of effect scripts.
use vstd::prelude::*;

verus! {

/// A line and column in a script, both counted from zero.
#[derive(Debug, Clone, Copy, PartialEq, Eq, Structural)]
pub struct SourcePosition {
    pub line: u32,
    pub character: u32,
}

/// A half-open range of a script.
#[derive(Debug, Clone, Copy, PartialEq, Eq, Structural)]
pub struct SourceRange {
    pub start: SourcePosition,
    pub end: SourcePosition,
}

/// An error found in a script, with where it is when that is known.
#[derive(Debug, Clone)]
pub struct ScriptDiagnostic {
    pub range: Option<SourceRange>,
    pub message: String,
}

pub struct SpecDiagnostic {
    pub range: Option<SourceRange>,
    pub message: Seq<char>,
}

impl View for ScriptDiagnostic {
    type V = SpecDiagnostic;

    open spec fn view(&self) -> SpecDiagnostic {
        SpecDiagnostic { range: self.range, message: self.message@ }
    }
}

/// A failure while running a script.
#[derive(Debug, Clone)]
pub struct RuntimeError {
    pub message: String,
}

} // verus!
