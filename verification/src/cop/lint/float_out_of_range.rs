use crate::diagnostic::Severity;
use crate::cop::report::{adds_offense, emit_offense};
use crate::correction::Correction;
use crate::diagnostic::Diagnostic;
use crate::parse::source::{col_of, line_of, SourceFile};
use vstd::prelude::*;

verus! {

/// The `Lint/FloatOutOfRange` cop.
pub struct FloatOutOfRange;

/// The bytes of `t` without its `_` separators.
pub open spec fn without_underscores(t: Seq<u8>) -> Seq<u8>
    decreases t.len(),
{
    if t.len() == 0 {
        Seq::empty()
    } else if t.last() == 95u8 {
        without_underscores(t.drop_last())
    } else {
        without_underscores(t.drop_last()).push(t.last())
    }
}

/// The offense of a float literal spanning `start..end` whose value, read as
/// a 64-bit float, is infinite (`Some(negative)`) or finite (`None`).
pub open spec fn float_out_of_range_offense(s: Seq<u8>, start: int, end: int, infinite: Option<bool>) -> Option<
    (int, int, Seq<char>, Option<(int, int, Seq<char>)>),
> {
    match infinite {
        None => None,
        Some(negative) => Some(
            (
                line_of(s, start) as int,
                col_of(s, start) as int,
                "Float out of range."@,
                Some(
                    (
                        start,
                        end,
                        if negative {
                            "(-Float::INFINITY)"@
                        } else {
                            "Float::INFINITY"@
                        },
                    ),
                ),
            ),
        ),
    }
}

/// The text of a float literal as it is parsed: without `_` separators.
pub fn float_text(literal: &[u8]) -> (r: Vec<u8>)
    ensures
        r@ == without_underscores(literal@),
{
    let mut out: Vec<u8> = Vec::new();
    let mut i: usize = 0;
    while i < literal.len()
        invariant
            i <= literal@.len(),
            out@ == without_underscores(literal@.subrange(0, i as int)),
        decreases literal@.len() - i,
    {
        assert(literal@.subrange(0, i + 1).drop_last() =~= literal@.subrange(0, i as int));
        if literal[i] != 95u8 {
            out.push(literal[i]);
        }
        i = i + 1;
    }
    assert(literal@.subrange(0, literal@.len() as int) =~= literal@);
    out
}

impl FloatOutOfRange {
    pub fn name(&self) -> (r: &'static str)
        ensures
            r@ == "Lint/FloatOutOfRange"@,
    {
        "Lint/FloatOutOfRange"
    }

    pub fn default_severity(&self) -> (r: Severity)
        ensures
            r == Severity::Warning,
    {
        Severity::Warning
    }

    pub fn supports_autocorrect(&self) -> (r: bool)
        ensures
            r == true,
    {
        true
    }

    /// Checks one float literal spanning `start..end`, given whether its
    /// value is infinite (`Some(negative)`) or finite (`None`).
    pub fn check_node(
        &self,
        source: &SourceFile,
        start: usize,
        end: usize,
        infinite: Option<bool>,
        diagnostics: &mut Vec<Diagnostic>,
        corrections: &mut Vec<Correction>,
        autocorrect: bool,
    )
        requires
            start <= end <= source@.len(),
        ensures
            adds_offense(
                old(diagnostics)@,
                final(diagnostics)@,
                old(corrections)@,
                final(corrections)@,
                source.spec_path(),
                "Lint/FloatOutOfRange"@,
                Severity::Warning,
                float_out_of_range_offense(source@, start as int, end as int, infinite),
                autocorrect,
            ),
    {
        match infinite {
            None => {},
            Some(negative) => {
                let (line, col) = source.offset_to_line_col(start);
                let repl = if negative {
                    "(-Float::INFINITY)"
                } else {
                    "Float::INFINITY"
                };
                emit_offense(
                    diagnostics,
                    corrections,
                    autocorrect,
                    source,
                    "Lint/FloatOutOfRange",
                    Severity::Warning,
                    line,
                    col,
                    "Float out of range.".to_owned(),
                    Some((start, end, repl.to_owned())),
                );
            },
        }
    }
}

} // verus!
