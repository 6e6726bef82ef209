use crate::cop::config::{spec_get_str, CopConfig};
use crate::cop::report::{extends_with_reports, lemma_reports_empty, lemma_reports_push};
use crate::cop::util::{assignment_base, assignment_base_exec, range_eq, range_is, string_is};
use crate::diagnostic::{new_diagnostic, Diagnostic, Severity};
use crate::parse::source::{col_of, line_of, SourceFile};
use vstd::prelude::*;

verus! {

/// Layout/ElseAlignment — checks that `else`/`elsif` aligns with the
/// corresponding `if`/`unless` keyword.
pub struct ElseAlignment;

/// What follows a branch of an `if`.
#[derive(Clone, Copy, Debug)]
pub enum Subsequent {
    /// An `else`, with where its keyword starts.
    Else(usize),
    /// An `elsif`, with where its keyword starts if it has one.
    Elsif(Option<usize>),
}

/// An `if` (or `unless`) with the branches that follow it, in order.
pub struct IfBranches {
    /// Where its keyword lies, if it has one (a ternary has none).
    pub keyword: Option<(usize, usize)>,
    pub subsequents: Vec<Subsequent>,
}

/// The chain is headed by an `if` or `unless` keyword.
pub open spec fn headed(s: Seq<u8>, c: IfBranches) -> bool {
    match c.keyword {
        Some((a, b)) => range_is(s, a as int, b as int, seq![105u8, 102u8]) || range_is(
            s,
            a as int,
            b as int,
            seq![117u8, 110u8, 108u8, 101u8, 115u8, 115u8],
        ),
        None => false,
    }
}

/// The column the branches must start at: that of the keyword, or, with the
/// `variable` style of end alignment, that of the assignment the `if` is the
/// value of.
pub open spec fn expected_col(s: Seq<u8>, kw: int, variable_style: bool) -> int {
    if variable_style {
        match assignment_base(s, kw) {
            Some(p) => col_of(s, p) as int,
            None => col_of(s, kw) as int,
        }
    } else {
        col_of(s, kw) as int
    }
}

pub open spec fn variable_style(config: CopConfig) -> bool {
    spec_get_str(config.options@, "EndAlignmentStyle"@, "keyword"@) == "variable"@
}

/// Branch `j` is reached: every branch before it is an `elsif` with a keyword.
pub open spec fn reached(subs: Seq<Subsequent>, j: int) -> bool {
    forall|k: int| 0 <= k < j ==> (#[trigger] subs[k] matches Subsequent::Elsif(Some(_)))
}

/// The keyword of branch `j` is on another line than the `if` and in another
/// column than expected.
pub open spec fn branch_offense(s: Seq<u8>, kw: int, exp: int, b: Subsequent) -> Option<
    (int, int, Seq<char>),
> {
    let (k, msg) = match b {
        Subsequent::Else(k) => (k as int, "Align `else` with `if`."@),
        Subsequent::Elsif(Some(k)) => (k as int, "Align `elsif` with `if`."@),
        Subsequent::Elsif(None) => (-1, Seq::empty()),
    };
    if k >= 0 && line_of(s, k) != line_of(s, kw) && col_of(s, k) != exp {
        Some((line_of(s, k) as int, col_of(s, k) as int, msg))
    } else {
        None
    }
}

/// The offenses among the first `p` branches, in order.
pub open spec fn else_offenses(s: Seq<u8>, kw: int, exp: int, subs: Seq<Subsequent>, p: int) -> Seq<
    (int, int, Seq<char>),
>
    decreases p,
{
    if p <= 0 {
        Seq::empty()
    } else {
        let r = else_offenses(s, kw, exp, subs, p - 1);
        if reached(subs, p - 1) {
            match branch_offense(s, kw, exp, subs[p - 1]) {
                Some(o) => r.push(o),
                None => r,
            }
        } else {
            r
        }
    }
}

/// All offenses of a chain: none unless it is headed by `if` or `unless`.
pub open spec fn chain_offenses(s: Seq<u8>, c: IfBranches, variable: bool) -> Seq<(int, int, Seq<char>)> {
    match c.keyword {
        Some((a, _)) => if headed(s, c) {
            else_offenses(
                s,
                a as int,
                expected_col(s, a as int, variable),
                c.subsequents@,
                c.subsequents@.len() as int,
            )
        } else {
            Seq::empty()
        },
        None => Seq::empty(),
    }
}

pub open spec fn branches_in_bounds(s: Seq<u8>, c: IfBranches) -> bool {
    &&& match c.keyword {
        Some((a, b)) => a <= b <= s.len(),
        None => true,
    }
    &&& forall|j: int|
        0 <= j < c.subsequents@.len() ==> match #[trigger] c.subsequents@[j] {
            Subsequent::Else(k) => k <= s.len(),
            Subsequent::Elsif(Some(k)) => k <= s.len(),
            Subsequent::Elsif(None) => true,
        }
}

impl ElseAlignment {
    pub fn name(&self) -> (r: &'static str)
        ensures
            r@ == "Layout/ElseAlignment"@,
    {
        "Layout/ElseAlignment"
    }

    /// Checks one `if` and its branches; option `EndAlignmentStyle` (default
    /// `keyword`) says what the branches align with.
    pub fn check_node(
        &self,
        source: &SourceFile,
        chain: &IfBranches,
        config: &CopConfig,
        diagnostics: &mut Vec<Diagnostic>,
    )
        requires
            branches_in_bounds(source@, *chain),
        ensures
            extends_with_reports(
                old(diagnostics)@,
                final(diagnostics)@,
                source.spec_path(),
                "Layout/ElseAlignment"@,
                Severity::Convention,
                chain_offenses(source@, *chain, variable_style(*config)),
                false,
            ),
    {
        proof {
            lemma_reports_empty(
                diagnostics@,
                source.spec_path(),
                "Layout/ElseAlignment"@,
                Severity::Convention,
                false,
            );
        }
        let bytes = source.as_bytes();
        let (a, b) = match chain.keyword {
            Some(k) => k,
            None => {
                return;
            },
        };
        let kw_if = vec![105u8, 102u8];
        let kw_unless = vec![117u8, 110u8, 108u8, 101u8, 115u8, 115u8];
        assert(kw_if@ =~= seq![105u8, 102u8]);
        assert(kw_unless@ =~= seq![117u8, 110u8, 108u8, 101u8, 115u8, 115u8]);
        if !range_eq(bytes, a, b, kw_if.as_slice()) && !range_eq(bytes, a, b, kw_unless.as_slice()) {
            return;
        }
        let style = config.get_str("EndAlignmentStyle", "keyword");
        let variable = string_is(&style, "variable");
        let ghost var = variable_style(*config);
        assert(variable == var);
        assert(a <= source@.len());
        assert(bytes@ == source@);
        let (if_line, if_col) = source.offset_to_line_col(a);
        let expected = if variable {
            match assignment_base_exec(bytes, a) {
                Some(p) => source.offset_to_line_col(p).1,
                None => if_col,
            }
        } else {
            if_col
        };
        let ghost exp = expected_col(source@, a as int, var);
        assert(expected == exp);
        let subs = &chain.subsequents;
        let mut live = true;
        let mut j: usize = 0;
        while j < subs.len()
            invariant
                j <= subs@.len(),
                subs@ == chain.subsequents@,
                branches_in_bounds(source@, *chain),
                a <= source@.len(),
                if_line == line_of(source@, a as int),
                expected == exp,
                live == reached(subs@, j as int),
                extends_with_reports(
                    old(diagnostics)@,
                    diagnostics@,
                    source.spec_path(),
                    "Layout/ElseAlignment"@,
                    Severity::Convention,
                    else_offenses(source@, a as int, exp, subs@, j as int),
                    false,
                ),
            decreases subs@.len() - j,
        {
            let ghost prev = else_offenses(source@, a as int, exp, subs@, j as int);
            let sub = subs[j];
            if live {
                let (k, is_else) = match sub {
                    Subsequent::Else(k) => (Some(k), true),
                    Subsequent::Elsif(k) => (k, false),
                };
                match k {
                    Some(k) => {
                        assert(k <= source@.len());
                        let (line, col) = source.offset_to_line_col(k);
                        if line != if_line && col != expected {
                            let msg = if is_else {
                                "Align `else` with `if`.".to_owned()
                            } else {
                                "Align `elsif` with `if`.".to_owned()
                            };
                            let ghost m = msg@;
                            let d = new_diagnostic(
                                source,
                                "Layout/ElseAlignment",
                                Severity::Convention,
                                line,
                                col,
                                msg,
                            );
                            let ghost mid = diagnostics@;
                            diagnostics.push(d);
                            proof {
                                assert(diagnostics@.drop_last() =~= mid);
                                lemma_reports_push(
                                    old(diagnostics)@,
                                    mid,
                                    diagnostics@,
                                    source.spec_path(),
                                    "Layout/ElseAlignment"@,
                                    Severity::Convention,
                                    prev,
                                    (line as int, col as int, m),
                                    false,
                                );
                            }
                        }
                    },
                    None => {},
                }
                live = is_else == false && k.is_some();
            }
            proof {
                assert(reached(subs@, j + 1) == (reached(subs@, j as int) && (subs@[j as int] matches Subsequent::Elsif(Some(_)))));
            }
            j = j + 1;
        }
    }
}

} // verus!
