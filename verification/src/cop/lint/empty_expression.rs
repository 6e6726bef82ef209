use crate::diagnostic::Severity;
use crate::cop::report::{adds_offense, emit_offense};
use crate::correction::Correction;
use crate::diagnostic::Diagnostic;
use crate::parse::source::{col_of, line_of, SourceFile};
use vstd::prelude::*;

verus! {

/// Checks for empty expressions: `()`, empty `begin..end`, and empty string interpolation
/// `#{}`.
pub struct EmptyExpression;

/// An expression that may be empty.
#[derive(Clone, Copy, Debug)]
pub enum ExpressionSite {
    /// Parentheses `( ... )` from `start` to `end`; `empty` without a body.
    Parentheses { start: usize, end: usize, empty: bool },
    /// An interpolation `#{ ... }` starting at `start`; `empty` without
    /// statements.
    Interpolation { start: usize, empty: bool },
}

/// The offense of an expression: empty parentheses become `nil`.
pub open spec fn empty_expression_offense(s: Seq<u8>, e: ExpressionSite) -> Option<
    (int, int, Seq<char>, Option<(int, int, Seq<char>)>),
> {
    match e {
        ExpressionSite::Parentheses { start, end, empty } => if empty {
            Some(
                (
                    line_of(s, start as int) as int,
                    col_of(s, start as int) as int,
                    "Avoid empty expressions."@,
                    Some((start as int, end as int, "nil"@)),
                ),
            )
        } else {
            None
        },
        ExpressionSite::Interpolation { start, empty } => if empty {
            Some(
                (
                    line_of(s, start as int) as int,
                    col_of(s, start as int) as int,
                    "Avoid empty expressions."@,
                    None,
                ),
            )
        } else {
            None
        },
    }
}

pub open spec fn expression_in_bounds(s: Seq<u8>, e: ExpressionSite) -> bool {
    match e {
        ExpressionSite::Parentheses { start, end, .. } => start <= end <= s.len(),
        ExpressionSite::Interpolation { start, .. } => start <= s.len(),
    }
}

impl EmptyExpression {
    pub fn name(&self) -> (r: &'static str)
        ensures
            r@ == "Lint/EmptyExpression"@,
    {
        "Lint/EmptyExpression"
    }

    pub fn default_severity(&self) -> (r: Severity)
        ensures
            r == Severity::Warning,
    {
        Severity::Warning
    }

    pub fn supports_autocorrect(&self) -> (r: bool)
        ensures
            r == true,
    {
        true
    }

    /// Checks one parenthesized or interpolated expression.
    pub fn check_node(
        &self,
        source: &SourceFile,
        site: &ExpressionSite,
        diagnostics: &mut Vec<Diagnostic>,
        corrections: &mut Vec<Correction>,
        autocorrect: bool,
    )
        requires
            expression_in_bounds(source@, *site),
        ensures
            adds_offense(
                old(diagnostics)@,
                final(diagnostics)@,
                old(corrections)@,
                final(corrections)@,
                source.spec_path(),
                "Lint/EmptyExpression"@,
                Severity::Warning,
                empty_expression_offense(source@, *site),
                autocorrect,
            ),
    {
        match *site {
            ExpressionSite::Parentheses { start, end, empty } => {
                if empty {
                    let (line, col) = source.offset_to_line_col(start);
                    emit_offense(
                        diagnostics,
                        corrections,
                        autocorrect,
                        source,
                        "Lint/EmptyExpression",
                        Severity::Warning,
                        line,
                        col,
                        "Avoid empty expressions.".to_owned(),
                        Some((start, end, "nil".to_owned())),
                    );
                }
            },
            ExpressionSite::Interpolation { start, empty } => {
                if empty {
                    let (line, col) = source.offset_to_line_col(start);
                    emit_offense(
                        diagnostics,
                        corrections,
                        autocorrect,
                        source,
                        "Lint/EmptyExpression",
                        Severity::Warning,
                        line,
                        col,
                        "Avoid empty expressions.".to_owned(),
                        None,
                    );
                }
            },
        }
    }
}

} // verus!
