use crate::cop::report::{
    extends_with_edits, extends_with_reports, lemma_edits_empty, lemma_edits_push, lemma_reports_empty,
    lemma_reports_push,
};
use crate::cop::util::string_is;
use crate::correction::Correction;
use crate::diagnostic::{new_diagnostic, Diagnostic, Severity};
use crate::parse::source::{col_of, line_of, SourceFile};
use vstd::prelude::*;

verus! {

/// Checks constructors for disjunctive assignments (`||=`) that should be plain
/// assignments.
pub struct DisjunctiveAssignmentInConstructor;

/// A statement of a method body, as far as the cop reads it.
pub enum InitStatement {
    /// `@x ||= ...`, with where its operator `||=` lies.
    IvarOrWrite { op_start: usize, op_end: usize },
    /// `||=` on any other target (local, class or global variable, constant).
    OtherOrWrite,
    Other,
}

/// The `@x ||= ...` statements among the first `k` of the body, as long as
/// all of them are `||=` assignments: each reported at its operator.
pub open spec fn leading_ivar_or_writes(sts: Seq<InitStatement>, k: int) -> Seq<(usize, usize)>
    decreases k,
{
    if k <= 0 || k > sts.len() {
        Seq::empty()
    } else {
        let r = leading_ivar_or_writes(sts, k - 1);
        match sts[k - 1] {
            InitStatement::IvarOrWrite { op_start, op_end } => r.push((op_start, op_end)),
            _ => r,
        }
    }
}

/// How many statements open the body that are `||=` assignments.
pub open spec fn or_write_prefix(sts: Seq<InitStatement>, k: int) -> int
    decreases sts.len() - k,
{
    if k < 0 || k >= sts.len() || sts[k] is Other {
        k
    } else {
        or_write_prefix(sts, k + 1)
    }
}

/// The operators reported in a method: in `initialize` only, the `@x ||=`
/// among the `||=` assignments that open its body.
pub open spec fn flagged_operators(name: Seq<char>, sts: Seq<InitStatement>) -> Seq<(usize, usize)> {
    if name == "initialize"@ {
        leading_ivar_or_writes(sts, or_write_prefix(sts, 0))
    } else {
        Seq::empty()
    }
}

pub open spec fn operator_reports(s: Seq<u8>, ops: Seq<(usize, usize)>) -> Seq<(int, int, Seq<char>)> {
    Seq::new(
        ops.len(),
        |j: int|
            (
                line_of(s, ops[j].0 as int) as int,
                col_of(s, ops[j].0 as int) as int,
                "Unnecessary disjunctive assignment. Use plain assignment."@,
            ),
    )
}

pub open spec fn operator_edits(ops: Seq<(usize, usize)>) -> Seq<(int, int, Seq<char>)> {
    Seq::new(ops.len(), |j: int| (ops[j].0 as int, ops[j].1 as int, "="@))
}

pub open spec fn operators_in_bounds(s: Seq<u8>, sts: Seq<InitStatement>) -> bool {
    forall|k: int|
        0 <= k < sts.len() ==> (#[trigger] sts[k] matches InitStatement::IvarOrWrite { op_start, .. }
            ==> op_start <= s.len())
}

proof fn lemma_prefix_bounds(sts: Seq<InitStatement>, k: int)
    requires
        0 <= k <= sts.len(),
    ensures
        k <= or_write_prefix(sts, k) <= sts.len(),
        forall|j: int| k <= j < or_write_prefix(sts, k) ==> !(#[trigger] sts[j] is Other),
        or_write_prefix(sts, k) < sts.len() ==> sts[or_write_prefix(sts, k)] is Other,
    decreases sts.len() - k,
{
    if k < sts.len() && !(sts[k] is Other) {
        lemma_prefix_bounds(sts, k + 1);
    }
}

impl DisjunctiveAssignmentInConstructor {
    pub fn name(&self) -> (r: &'static str)
        ensures
            r@ == "Lint/DisjunctiveAssignmentInConstructor"@,
    {
        "Lint/DisjunctiveAssignmentInConstructor"
    }

    pub fn default_severity(&self) -> (r: Severity)
        ensures
            r == Severity::Warning,
    {
        Severity::Warning
    }

    pub fn supports_autocorrect(&self) -> (r: bool)
        ensures
            r == true,
    {
        true
    }

    /// Checks one method definition with the statements of its body (its
    /// one expression when the body is not a list). Each report is marked
    /// corrected; with `autocorrect`, each `||=` becomes `=`.
    pub fn check_def(
        &self,
        source: &SourceFile,
        name: &String,
        body: &Vec<InitStatement>,
        diagnostics: &mut Vec<Diagnostic>,
        corrections: &mut Vec<Correction>,
        autocorrect: bool,
    )
        requires
            operators_in_bounds(source@, body@),
        ensures
            extends_with_reports(
                old(diagnostics)@,
                final(diagnostics)@,
                source.spec_path(),
                "Lint/DisjunctiveAssignmentInConstructor"@,
                Severity::Warning,
                operator_reports(source@, flagged_operators(name@, body@)),
                true,
            ),
            extends_with_edits(
                old(corrections)@,
                final(corrections)@,
                "Lint/DisjunctiveAssignmentInConstructor"@,
                if autocorrect {
                    operator_edits(flagged_operators(name@, body@))
                } else {
                    Seq::empty()
                },
            ),
    {
        let ghost cop = "Lint/DisjunctiveAssignmentInConstructor"@;
        proof {
            lemma_reports_empty(diagnostics@, source.spec_path(), cop, Severity::Warning, true);
            lemma_edits_empty(corrections@, cop);
            assert(operator_reports(source@, Seq::<(usize, usize)>::empty()) =~= Seq::empty());
            assert(operator_edits(Seq::<(usize, usize)>::empty()) =~= Seq::empty());
        }
        if !string_is(name, "initialize") {
            return;
        }
        let ghost sts = body@;
        proof {
            lemma_prefix_bounds(sts, 0);
        }
        let mut k: usize = 0;
        while k < body.len()
            invariant
                k <= sts.len(),
                sts == body@,
                name@ == "initialize"@,
                cop == "Lint/DisjunctiveAssignmentInConstructor"@,
                operators_in_bounds(source@, sts),
                k <= or_write_prefix(sts, 0) <= sts.len(),
                forall|j: int| 0 <= j < or_write_prefix(sts, 0) ==> !(#[trigger] sts[j] is Other),
                or_write_prefix(sts, 0) < sts.len() ==> sts[or_write_prefix(sts, 0)] is Other,
                extends_with_reports(
                    old(diagnostics)@,
                    diagnostics@,
                    source.spec_path(),
                    cop,
                    Severity::Warning,
                    operator_reports(source@, leading_ivar_or_writes(sts, k as int)),
                    true,
                ),
                extends_with_edits(
                    old(corrections)@,
                    corrections@,
                    cop,
                    if autocorrect {
                        operator_edits(leading_ivar_or_writes(sts, k as int))
                    } else {
                        Seq::empty()
                    },
                ),
            ensures
                k as int == or_write_prefix(sts, 0),
                extends_with_reports(
                    old(diagnostics)@,
                    diagnostics@,
                    source.spec_path(),
                    cop,
                    Severity::Warning,
                    operator_reports(source@, leading_ivar_or_writes(sts, k as int)),
                    true,
                ),
                extends_with_edits(
                    old(corrections)@,
                    corrections@,
                    cop,
                    if autocorrect {
                        operator_edits(leading_ivar_or_writes(sts, k as int))
                    } else {
                        Seq::empty()
                    },
                ),
            decreases sts.len() - k,
        {
            let ghost prev = leading_ivar_or_writes(sts, k as int);
            match &body[k] {
                InitStatement::Other => {
                    assert(k as int == or_write_prefix(sts, 0));
                    break;
                },
                InitStatement::OtherOrWrite => {},
                InitStatement::IvarOrWrite { op_start, op_end } => {
                    assert(sts[k as int] matches InitStatement::IvarOrWrite { op_start, .. } ==> op_start <= source@.len());
                    let (line, col) = source.offset_to_line_col(*op_start);
                    let ghost mid_d = diagnostics@;
                    let ghost mid_c = corrections@;
                    let mut d = new_diagnostic(
                        source,
                        "Lint/DisjunctiveAssignmentInConstructor",
                        Severity::Warning,
                        line,
                        col,
                        "Unnecessary disjunctive assignment. Use plain assignment.".to_owned(),
                    );
                    d.corrected = true;
                    diagnostics.push(d);
                    if autocorrect {
                        corrections.push(
                            Correction {
                                start: *op_start,
                                end: *op_end,
                                replacement: "=".to_owned(),
                                cop_name: "Lint/DisjunctiveAssignmentInConstructor".to_owned(),
                                cop_index: 0,
                            },
                        );
                    }
                    assert(diagnostics@.drop_last() =~= mid_d);
                    assert(autocorrect ==> corrections@.drop_last() =~= mid_c);
                    proof {
                        let o = (line as int, col as int, "Unnecessary disjunctive assignment. Use plain assignment."@);
                        lemma_reports_push(
                            old(diagnostics)@,
                            mid_d,
                            diagnostics@,
                            source.spec_path(),
                            cop,
                            Severity::Warning,
                            operator_reports(source@, prev),
                            o,
                            true,
                        );
                        assert(operator_reports(source@, prev.push((*op_start, *op_end))) =~= operator_reports(
                            source@,
                            prev,
                        ).push(o));
                        if autocorrect {
                            lemma_edits_push(
                                old(corrections)@,
                                mid_c,
                                corrections@,
                                cop,
                                operator_edits(prev),
                                (*op_start as int, *op_end as int, "="@),
                            );
                            assert(operator_edits(prev.push((*op_start, *op_end))) =~= operator_edits(prev).push(
                                (*op_start as int, *op_end as int, "="@),
                            ));
                        }
                    }
                },
            }
            k = k + 1;
        }
    }
}

} // verus!
