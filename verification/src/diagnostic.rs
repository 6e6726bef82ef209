use crate::parse::source::SourceFile;
use vstd::prelude::*;

verus! {

/// How serious an offense is.
#[derive(Clone, Copy, Debug, PartialEq, Eq, Structural)]
pub enum Severity {
    Info,
    Refactor,
    Convention,
    Warning,
    Error,
    Fatal,
}

/// Where an offense was found: 1-based line, 0-based column.
#[derive(Clone, Copy, Debug, PartialEq, Eq, Structural)]
pub struct Location {
    pub line: usize,
    pub column: usize,
}

/// An offense reported by a cop.
#[derive(Debug)]
pub struct Diagnostic {
    pub path: String,
    pub location: Location,
    pub severity: Severity,
    pub cop_name: String,
    pub message: String,
    pub corrected: bool,
}

/// `d` reports, for the file at `path`, an offense of cop `cop` with severity
/// `sev` at (`line`, `column`) with `message`; `corrected` says whether a
/// correction was recorded for it.
pub open spec fn reports(
    d: Diagnostic,
    path: Seq<char>,
    cop: Seq<char>,
    sev: Severity,
    line: int,
    column: int,
    message: Seq<char>,
    corrected: bool,
) -> bool {
    &&& d.path@ == path
    &&& d.cop_name@ == cop
    &&& d.severity == sev
    &&& d.location.line == line
    &&& d.location.column == column
    &&& d.message@ == message
    &&& d.corrected == corrected
}

/// Builds the diagnostic for an offense of `cop_name` in `source`.
pub fn new_diagnostic(
    source: &SourceFile,
    cop_name: &str,
    severity: Severity,
    line: usize,
    column: usize,
    message: String,
) -> (d: Diagnostic)
    ensures
        reports(d, source.spec_path(), cop_name@, severity, line as int, column as int, message@, false),
{
    Diagnostic {
        path: source.path_str().to_owned(),
        location: Location { line, column },
        severity,
        cop_name: cop_name.to_owned(),
        message,
        corrected: false,
    }
}

} // verus!
