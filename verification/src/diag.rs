//! The diagnostic data model: positions in UTF-16 code units, severities,
//! and structured problem reports attached to a document.

use vstd::prelude::*;

verus! {

/// A zero-based position: line number and column in UTF-16 code units.
#[derive(Clone, Copy, Debug, PartialEq, Eq, Structural)]
pub struct Position {
    pub line: u32,
    pub character: u32,
}

impl Position {
    pub fn new(line: u32, character: u32) -> (r: Position)
        ensures
            r == (Position { line, character }),
    {
        Position { line, character }
    }
}

/// Severity of a diagnostic. A severity word the build tool emits that is
/// not recognized maps to `Unknown`: that is this crate's single fallback
/// policy for unrecognized severities.
#[derive(Clone, Copy, Debug, PartialEq, Eq, Structural)]
pub enum Severity {
    Error,
    Warning,
    Information,
    Hint,
    Unknown,
}

/// A structured problem report. The range spans from `start` to `end` in
/// UTF-16 positions; `source` names the provider that produced it, when set.
#[derive(Debug, Clone, PartialEq)]
pub struct Diagnostic {
    pub start: Position,
    pub end: Position,
    pub severity: Severity,
    pub message: String,
    pub source: Option<String>,
}

pub ghost struct DiagnosticView {
    pub start: Position,
    pub end: Position,
    pub severity: Severity,
    pub message: Seq<char>,
    pub source: Option<Seq<char>>,
}

impl View for Diagnostic {
    type V = DiagnosticView;

    open spec fn view(&self) -> DiagnosticView {
        DiagnosticView {
            start: self.start,
            end: self.end,
            severity: self.severity,
            message: self.message@,
            source: match self.source {
                Some(s) => Some(s@),
                None => None,
            },
        }
    }
}

impl Diagnostic {
    pub fn new(start: Position, end: Position, severity: Severity, message: String) -> (r:
        Diagnostic)
        ensures
            r@ == (DiagnosticView {
                start,
                end,
                severity,
                message: message@,
                source: None::<Seq<char>>,
            }),
    {
        Diagnostic { start, end, severity, message, source: None }
    }
}

} // verus!
