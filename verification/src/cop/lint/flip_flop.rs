use crate::diagnostic::Severity;
use crate::cop::report::{adds_offense, emit_offense};
use crate::correction::Correction;
use crate::diagnostic::Diagnostic;
use crate::parse::source::{col_of, line_of, SourceFile};
use vstd::prelude::*;

verus! {

/// The `Lint/FlipFlop` cop.
pub struct FlipFlop;

/// The offense of a flip-flop spanning `start..end`: it becomes `false`.
pub open spec fn flip_flop_offense(s: Seq<u8>, start: int, end: int) -> (int, int, Seq<char>, Option<(int, int, Seq<char>)>) {
    (
        line_of(s, start) as int,
        col_of(s, start) as int,
        "Avoid the use of flip-flop operators."@,
        Some((start, end, "false"@)),
    )
}

impl FlipFlop {
    pub fn name(&self) -> (r: &'static str)
        ensures
            r@ == "Lint/FlipFlop"@,
    {
        "Lint/FlipFlop"
    }

    pub fn default_severity(&self) -> (r: Severity)
        ensures
            r == Severity::Warning,
    {
        Severity::Warning
    }

    pub fn supports_autocorrect(&self) -> (r: bool)
        ensures
            r == true,
    {
        true
    }

    /// Checks one flip-flop expression spanning `start..end`.
    pub fn check_node(
        &self,
        source: &SourceFile,
        start: usize,
        end: usize,
        diagnostics: &mut Vec<Diagnostic>,
        corrections: &mut Vec<Correction>,
        autocorrect: bool,
    )
        requires
            start <= end <= source@.len(),
        ensures
            adds_offense(
                old(diagnostics)@,
                final(diagnostics)@,
                old(corrections)@,
                final(corrections)@,
                source.spec_path(),
                "Lint/FlipFlop"@,
                Severity::Warning,
                Some(flip_flop_offense(source@, start as int, end as int)),
                autocorrect,
            ),
    {
        let (line, col) = source.offset_to_line_col(start);
        emit_offense(
            diagnostics,
            corrections,
            autocorrect,
            source,
            "Lint/FlipFlop",
            Severity::Warning,
            line,
            col,
            "Avoid the use of flip-flop operators.".to_owned(),
            Some((start, end, "false".to_owned())),
        );
    }
}

} // verus!
