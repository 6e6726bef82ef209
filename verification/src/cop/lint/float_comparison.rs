use crate::cop::report::{adds_report, extends_with_reports, lemma_reports_empty, lemma_reports_push};
use crate::cop::util::{range_eq, string_is};
use crate::diagnostic::{new_diagnostic, Diagnostic, Severity};
use crate::parse::source::{col_of, line_of, SourceFile};
use vstd::prelude::*;

verus! {

/// Lint/FloatComparison: detects unreliable float equality comparisons.
pub struct FloatComparison;

/// An operand of a comparison, as far as the cop reads it; literals come
/// with where their source text lies.
pub enum Operand {
    Float { start: usize, end: usize },
    Integer { start: usize, end: usize },
    Nil,
    /// A method call with its name.
    Call { name: String },
    Other,
}

/// A call with its receiver and arguments.
pub struct ComparisonCall {
    pub start: usize,
    pub name: String,
    pub receiver: Option<Operand>,
    pub args: Option<Vec<Operand>>,
}

/// The operand is a float: a float literal or a call of `to_f`, `fdiv` or `Float`.
pub open spec fn is_float(o: Operand) -> bool {
    match o {
        Operand::Float { .. } => true,
        Operand::Call { name } => name@ == "to_f"@ || name@ == "fdiv"@ || name@ == "Float"@,
        _ => false,
    }
}

/// Comparing to the operand is safe: `0.0`, `-0.0`, `0` or `nil`.
pub open spec fn is_safe(s: Seq<u8>, o: Operand) -> bool {
    match o {
        Operand::Float { start, end } => s.subrange(start as int, end as int) == seq![48u8, 46u8, 48u8]
            || s.subrange(start as int, end as int) == seq![45u8, 48u8, 46u8, 48u8],
        Operand::Integer { start, end } => s.subrange(start as int, end as int) == seq![48u8],
        Operand::Nil => true,
        _ => false,
    }
}

pub open spec fn operand_in_bounds(s: Seq<u8>, o: Operand) -> bool {
    match o {
        Operand::Float { start, end } => start <= end <= s.len(),
        Operand::Integer { start, end } => start <= end <= s.len(),
        _ => true,
    }
}

/// The offense of an equality call (`==`, `!=`, `eql?`, `equal?`) with a
/// receiver and one argument, one of them a float and neither safe.
pub open spec fn comparison_offense(s: Seq<u8>, c: ComparisonCall) -> Option<(int, int, Seq<char>)> {
    if !(c.name@ == "=="@ || c.name@ == "!="@ || c.name@ == "eql?"@ || c.name@ == "equal?"@) {
        None
    } else {
        match (c.receiver, c.args) {
            (Some(r), Some(args)) => if args@.len() != 1 || is_safe(s, r) || is_safe(s, args@[0]) {
                None
            } else if is_float(r) || is_float(args@[0]) {
                Some(
                    (
                        line_of(s, c.start as int) as int,
                        col_of(s, c.start as int) as int,
                        if c.name@ == "!="@ {
                            "Avoid inequality comparisons of floats as they are unreliable."@
                        } else {
                            "Avoid equality comparisons of floats as they are unreliable."@
                        },
                    ),
                )
            } else {
                None
            },
            _ => None,
        }
    }
}

/// The offenses of the conditions of a `when`: each float that is not safe.
pub open spec fn when_offenses(s: Seq<u8>, conds: Seq<(usize, Operand)>) -> Seq<(int, int, Seq<char>)>
    decreases conds.len(),
{
    if conds.len() == 0 {
        Seq::empty()
    } else {
        let r = when_offenses(s, conds.drop_last());
        let c = conds.last();
        if is_float(c.1) && !is_safe(s, c.1) {
            r.push(
                (
                    line_of(s, c.0 as int) as int,
                    col_of(s, c.0 as int) as int,
                    "Avoid float literal comparisons in case statements as they are unreliable."@,
                ),
            )
        } else {
            r
        }
    }
}

fn is_float_exec(o: &Operand) -> (r: bool)
    ensures
        r == is_float(*o),
{
    match o {
        Operand::Float { .. } => true,
        Operand::Call { name } => string_is(name, "to_f") || string_is(name, "fdiv") || string_is(name, "Float"),
        _ => false,
    }
}

fn is_safe_exec(bytes: &[u8], o: &Operand) -> (r: bool)
    requires
        operand_in_bounds(bytes@, *o),
    ensures
        r == is_safe(bytes@, *o),
{
    let zero_f: Vec<u8> = vec![48u8, 46u8, 48u8];
    let neg_zero_f: Vec<u8> = vec![45u8, 48u8, 46u8, 48u8];
    let zero: Vec<u8> = vec![48u8];
    assert(zero_f@ =~= seq![48u8, 46u8, 48u8]);
    assert(neg_zero_f@ =~= seq![45u8, 48u8, 46u8, 48u8]);
    assert(zero@ =~= seq![48u8]);
    match o {
        Operand::Float { start, end } => range_eq(bytes, *start, *end, zero_f.as_slice()) || range_eq(
            bytes,
            *start,
            *end,
            neg_zero_f.as_slice(),
        ),
        Operand::Integer { start, end } => range_eq(bytes, *start, *end, zero.as_slice()),
        Operand::Nil => true,
        _ => false,
    }
}

impl FloatComparison {
    pub fn name(&self) -> (r: &'static str)
        ensures
            r@ == "Lint/FloatComparison"@,
    {
        "Lint/FloatComparison"
    }

    pub fn default_severity(&self) -> (r: Severity)
        ensures
            r == Severity::Warning,
    {
        Severity::Warning
    }

    /// Checks one call.
    pub fn check_call(&self, source: &SourceFile, call: &ComparisonCall, diagnostics: &mut Vec<Diagnostic>)
        requires
            call.start <= source@.len(),
            call.receiver matches Some(r) ==> operand_in_bounds(source@, r),
            call.args matches Some(a) ==> forall|k: int| 0 <= k < a@.len() ==> operand_in_bounds(source@, #[trigger] a@[k]),
        ensures
            adds_report(
                old(diagnostics)@,
                final(diagnostics)@,
                source.spec_path(),
                "Lint/FloatComparison"@,
                Severity::Warning,
                comparison_offense(source@, *call),
            ),
    {
        let inequality = string_is(&call.name, "!=");
        if !(string_is(&call.name, "==") || inequality || string_is(&call.name, "eql?") || string_is(
            &call.name,
            "equal?",
        )) {
            return;
        }
        let bytes = source.as_bytes();
        match (&call.receiver, &call.args) {
            (Some(r), Some(args)) => {
                if args.len() != 1 {
                    return;
                }
                assert(operand_in_bounds(source@, args@[0]));
                if is_safe_exec(bytes, r) || is_safe_exec(bytes, &args[0]) {
                    return;
                }
                if is_float_exec(r) || is_float_exec(&args[0]) {
                    let (line, col) = source.offset_to_line_col(call.start);
                    let msg = if inequality {
                        "Avoid inequality comparisons of floats as they are unreliable.".to_owned()
                    } else {
                        "Avoid equality comparisons of floats as they are unreliable.".to_owned()
                    };
                    let d = new_diagnostic(source, "Lint/FloatComparison", Severity::Warning, line, col, msg);
                    diagnostics.push(d);
                    assert(diagnostics@.drop_last() =~= old(diagnostics)@);
                }
            },
            _ => {},
        }
    }

    /// Checks the conditions of one `when`, each with where it starts.
    pub fn check_when(&self, source: &SourceFile, conditions: &Vec<(usize, Operand)>, diagnostics: &mut Vec<Diagnostic>)
        requires
            forall|k: int|
                0 <= k < conditions@.len() ==> #[trigger] conditions@[k].0 <= source@.len() && operand_in_bounds(
                    source@,
                    conditions@[k].1,
                ),
        ensures
            extends_with_reports(
                old(diagnostics)@,
                final(diagnostics)@,
                source.spec_path(),
                "Lint/FloatComparison"@,
                Severity::Warning,
                when_offenses(source@, conditions@),
                false,
            ),
    {
        proof {
            lemma_reports_empty(diagnostics@, source.spec_path(), "Lint/FloatComparison"@, Severity::Warning, false);
        }
        let bytes = source.as_bytes();
        let mut k: usize = 0;
        while k < conditions.len()
            invariant
                k <= conditions@.len(),
                bytes@ == source@,
                forall|j: int|
                    0 <= j < conditions@.len() ==> #[trigger] conditions@[j].0 <= source@.len() && operand_in_bounds(
                        source@,
                        conditions@[j].1,
                    ),
                extends_with_reports(
                    old(diagnostics)@,
                    diagnostics@,
                    source.spec_path(),
                    "Lint/FloatComparison"@,
                    Severity::Warning,
                    when_offenses(source@, conditions@.subrange(0, k as int)),
                    false,
                ),
            decreases conditions@.len() - k,
        {
            assert(conditions@.subrange(0, k + 1).drop_last() =~= conditions@.subrange(0, k as int));
            let (start, o) = (&conditions[k].0, &conditions[k].1);
            assert(conditions@[k as int].0 <= source@.len());
            if is_float_exec(o) && !is_safe_exec(bytes, o) {
                let (line, col) = source.offset_to_line_col(*start);
                let d = new_diagnostic(
                    source,
                    "Lint/FloatComparison",
                    Severity::Warning,
                    line,
                    col,
                    "Avoid float literal comparisons in case statements as they are unreliable.".to_owned(),
                );
                let ghost before = diagnostics@;
                diagnostics.push(d);
                proof {
                    assert(diagnostics@.drop_last() =~= before);
                    lemma_reports_push(
                        old(diagnostics)@,
                        before,
                        diagnostics@,
                        source.spec_path(),
                        "Lint/FloatComparison"@,
                        Severity::Warning,
                        when_offenses(source@, conditions@.subrange(0, k as int)),
                        (
                            line as int,
                            col as int,
                            "Avoid float literal comparisons in case statements as they are unreliable."@,
                        ),
                        false,
                    );
                }
            }
            k = k + 1;
        }
        assert(conditions@.subrange(0, conditions@.len() as int) =~= conditions@);
    }
}

} // verus!
