use crate::cop::report::{adds_offense, emit_offense};
use crate::cop::util::{is_valid_utf8, text_of};
use crate::correction::Correction;
use crate::diagnostic::{Diagnostic, Severity};
use crate::parse::source::{col_of, line_of, SourceFile};
use vstd::prelude::*;
use vstd::utf8::valid_utf8;

verus! {

/// Checks for a regexp literal used as a condition, which matches `$_` implicitly.
pub struct RegexpAsCondition;

/// The offense of a regexp literal in a condition at `[a, b)`: it becomes
/// `<regexp> =~ $_` when its text is valid UTF-8 and not empty.
pub open spec fn regexp_condition_offense(s: Seq<u8>, a: usize, b: usize) -> (
    int,
    int,
    Seq<char>,
    Option<(int, int, Seq<char>)>,
) {
    let t = s.subrange(a as int, b as int);
    (
        line_of(s, a as int) as int,
        col_of(s, a as int) as int,
        "Do not use regexp literal as a condition. The regexp literal matches `$_` implicitly."@,
        if valid_utf8(t) && vstd::utf8::decode_utf8(t).len() > 0 {
            Some((a as int, b as int, vstd::utf8::decode_utf8(t) + " =~ $_"@))
        } else {
            None
        },
    )
}

impl RegexpAsCondition {
    pub fn name(&self) -> (r: &'static str)
        ensures
            r@ == "Lint/RegexpAsCondition"@,
    {
        "Lint/RegexpAsCondition"
    }

    pub fn default_severity(&self) -> (r: Severity)
        ensures
            r == Severity::Warning,
    {
        Severity::Warning
    }

    pub fn supports_autocorrect(&self) -> (r: bool)
        ensures
            r == true,
    {
        true
    }

    /// Checks one regexp literal used as a condition, spanning `[start, end)`.
    pub fn check_match(
        &self,
        source: &SourceFile,
        start: usize,
        end: usize,
        diagnostics: &mut Vec<Diagnostic>,
        corrections: &mut Vec<Correction>,
        autocorrect: bool,
    )
        requires
            start <= end <= source@.len(),
        ensures
            adds_offense(
                old(diagnostics)@,
                final(diagnostics)@,
                old(corrections)@,
                final(corrections)@,
                source.spec_path(),
                "Lint/RegexpAsCondition"@,
                Severity::Warning,
                Some(regexp_condition_offense(source@, start, end)),
                autocorrect,
            ),
    {
        let sub = vstd::slice::slice_subrange(source.as_bytes(), start, end);
        let edit = if is_valid_utf8(sub) {
            let mut t = text_of(sub);
            if t.as_str().unicode_len() > 0 {
                t.append(" =~ $_");
                Some((start, end, t))
            } else {
                None
            }
        } else {
            None
        };
        let (line, col) = source.offset_to_line_col(start);
        emit_offense(
            diagnostics,
            corrections,
            autocorrect,
            source,
            "Lint/RegexpAsCondition",
            Severity::Warning,
            line,
            col,
            "Do not use regexp literal as a condition. The regexp literal matches `$_` implicitly.".to_owned(),
            edit,
        );
    }
}

} // verus!
