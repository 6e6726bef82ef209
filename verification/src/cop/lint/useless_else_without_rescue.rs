use crate::diagnostic::Severity;
use crate::diagnostic::Diagnostic;
use vstd::prelude::*;

verus! {

/// No-op: `else` without `rescue` is a syntax error in Ruby 3.4+, making this cop obsolete.
/// Retained for configuration compatibility only.
pub struct UselessElseWithoutRescue;


impl UselessElseWithoutRescue {
    pub fn name(&self) -> (r: &'static str)
        ensures
            r@ == "Lint/UselessElseWithoutRescue"@,
    {
        "Lint/UselessElseWithoutRescue"
    }

    pub fn default_severity(&self) -> (r: Severity)
        ensures
            r == Severity::Warning,
    {
        Severity::Warning
    }

    pub fn supports_autocorrect(&self) -> (r: bool)
        ensures
            r == true,
    {
        true
    }

    /// The cop reports nothing: the parser already rejects an `else`
    /// without `rescue`.
    pub fn check_node(&self, diagnostics: &mut Vec<Diagnostic>)
        ensures
            final(diagnostics)@ == old(diagnostics)@,
    {
    }
}

} // verus!
