use crate::diagnostic::Severity;
use crate::cop::report::{adds_offense, emit_offense};
use crate::cop::util::{is_valid_utf8, lossy_text, string_is, text_of, utrim_end, utrim_end_exec};
use crate::correction::Correction;
use crate::diagnostic::Diagnostic;
use crate::parse::source::{col_of, line_of, SourceFile};
use vstd::utf8::valid_utf8;
use vstd::prelude::*;

verus! {

/// The `Lint/RequireParentheses` cop.
pub struct RequireParentheses;

/// What an argument is, as far as the cop reads it.
#[derive(Clone, Copy, Debug)]
pub enum ReqArgKind {
    /// An `and`/`or` (`&&`/`||`) expression.
    AndOr,
    /// An `if`: whether it is a ternary, and whether its condition is an
    /// `and`/`or` expression.
    If { ternary: bool, and_or_condition: bool },
    Other,
}

/// A call without parentheses, as far as the cop reads it.
pub struct ReqCall {
    pub name: String,
    pub has_block: bool,
    /// The call has an opening parenthesis.
    pub has_opening: bool,
    /// The arguments (where each starts, and its kind), and where the
    /// argument list ends; `None` without arguments.
    pub args: Option<(Vec<(usize, ReqArgKind)>, usize)>,
    pub start: usize,
    pub end: usize,
}

/// A ternary whose condition is an `and`/`or` expression.
pub open spec fn is_ternary_and_or(k: ReqArgKind) -> bool {
    match k {
        ReqArgKind::If { ternary, and_or_condition } => ternary && and_or_condition,
        _ => false,
    }
}

pub open spec fn is_assignment_name(n: Seq<char>) -> bool {
    n.len() > 0 && n.last() == '=' && n != "=="@
}

/// The call needs parentheses: a ternary on an `and`/`or` condition as first
/// argument, or a predicate method given an `and`/`or` argument.
pub open spec fn needs_parentheses(c: ReqCall) -> bool {
    match c.args {
        None => false,
        Some((args, _)) => !c.has_opening && ((args@.len() > 0 && is_ternary_and_or(args@[0].1)
            && !is_assignment_name(c.name@) && c.name@ != "[]"@) || (c.name@.len() > 0
            && c.name@.last() == '?' && exists|k: int|
            0 <= k < args@.len() && #[trigger] args@[k].1 is AndOr)),
    }
}

/// The rewrite of the call with its arguments in parentheses, when the call
/// has no block and both texts are valid UTF-8.
pub open spec fn parenthesized(s: Seq<u8>, c: ReqCall) -> Option<(int, int, Seq<char>)> {
    match c.args {
        None => None,
        Some((args, args_end)) => if c.has_block || args@.len() == 0 {
            None
        } else {
            let a = args@[0].0 as int;
            let prefix = s.subrange(c.start as int, a);
            let rest = s.subrange(a, args_end as int);
            if valid_utf8(prefix) && valid_utf8(rest) {
                let pe = utrim_end(s, c.start as int, a);
                Some(
                    (
                        c.start as int,
                        c.end as int,
                        lossy_text(s.subrange(c.start as int, pe)) + "("@ + lossy_text(rest) + ")"@,
                    ),
                )
            } else {
                None
            }
        },
    }
}

pub open spec fn require_parentheses_offense(s: Seq<u8>, c: ReqCall) -> Option<
    (int, int, Seq<char>, Option<(int, int, Seq<char>)>),
> {
    if needs_parentheses(c) {
        Some(
            (
                line_of(s, c.start as int) as int,
                col_of(s, c.start as int) as int,
                "Use parentheses in the method call to avoid confusion about precedence."@,
                parenthesized(s, c),
            ),
        )
    } else {
        None
    }
}

pub open spec fn req_call_in_bounds(s: Seq<u8>, c: ReqCall) -> bool {
    &&& c.start <= c.end <= s.len()
    &&& match c.args {
        None => true,
        Some((args, args_end)) => args_end <= s.len() && forall|k: int|
            0 <= k < args@.len() ==> c.start <= #[trigger] args@[k].0 <= args_end,
    }
}

impl RequireParentheses {
    pub fn name(&self) -> (r: &'static str)
        ensures
            r@ == "Lint/RequireParentheses"@,
    {
        "Lint/RequireParentheses"
    }

    pub fn default_severity(&self) -> (r: Severity)
        ensures
            r == Severity::Warning,
    {
        Severity::Warning
    }

    pub fn supports_autocorrect(&self) -> (r: bool)
        ensures
            r == true,
    {
        true
    }

    /// Checks one call.
    pub fn check_node(
        &self,
        source: &SourceFile,
        call: &ReqCall,
        diagnostics: &mut Vec<Diagnostic>,
        corrections: &mut Vec<Correction>,
        autocorrect: bool,
    )
        requires
            req_call_in_bounds(source@, *call),
        ensures
            adds_offense(
                old(diagnostics)@,
                final(diagnostics)@,
                old(corrections)@,
                final(corrections)@,
                source.spec_path(),
                "Lint/RequireParentheses"@,
                Severity::Warning,
                require_parentheses_offense(source@, *call),
                autocorrect,
            ),
    {
        let (args, args_end) = match &call.args {
            Some((a, e)) => (a, *e),
            None => {
                return;
            },
        };
        if call.has_opening {
            return;
        }
        let n = call.name.as_str().unicode_len();
        let ternary_case = args.len() > 0 && match args[0].1 {
            ReqArgKind::If { ternary, and_or_condition } => ternary && and_or_condition,
            _ => false,
        } && !(n > 0 && call.name.as_str().get_char(n - 1) == '=' && !string_is(&call.name, "=="))
            && !string_is(&call.name, "[]");
        let predicate_case = n > 0 && call.name.as_str().get_char(n - 1) == '?' && {
            let mut found = false;
            let mut k: usize = 0;
            while k < args.len()
                invariant
                    k <= args@.len(),
                    found == exists|j: int| 0 <= j < k && #[trigger] args@[j].1 is AndOr,
                decreases args@.len() - k,
            {
                if matches!(args[k].1, ReqArgKind::AndOr) {
                    found = true;
                }
                k = k + 1;
            }
            found
        };
        if !ternary_case && !predicate_case {
            return;
        }
        let bytes = source.as_bytes();
        let edit = if call.has_block || args.len() == 0 {
            None
        } else {
            let a = args[0].0;
            let prefix = vstd::slice::slice_subrange(bytes, call.start, a);
            let rest = vstd::slice::slice_subrange(bytes, a, args_end);
            if is_valid_utf8(prefix) && is_valid_utf8(rest) {
                let pe = utrim_end_exec(bytes, call.start, a);
                let mut r = text_of(vstd::slice::slice_subrange(bytes, call.start, pe));
                r.append("(");
                let t = text_of(rest);
                r.append(t.as_str());
                r.append(")");
                Some((call.start, call.end, r))
            } else {
                None
            }
        };
        let (line, col) = source.offset_to_line_col(call.start);
        emit_offense(
            diagnostics,
            corrections,
            autocorrect,
            source,
            "Lint/RequireParentheses",
            Severity::Warning,
            line,
            col,
            "Use parentheses in the method call to avoid confusion about precedence.".to_owned(),
            edit,
        );
    }
}

} // verus!
