use crate::diagnostic::Severity;
use vstd::prelude::*;

verus! {

/// Checks for `# rubocop:disable` comments that can be removed.
pub struct RedundantCopDisableDirective;

impl RedundantCopDisableDirective {
    pub fn name(&self) -> (r: &'static str)
        ensures
            r@ == "Lint/RedundantCopDisableDirective"@,
    {
        "Lint/RedundantCopDisableDirective"
    }

    pub fn default_severity(&self) -> (r: Severity)
        ensures
            r == Severity::Warning,
    {
        Severity::Warning
    }
}

} // verus!
