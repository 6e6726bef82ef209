use crate::cop::config::{spec_get_str, spec_get_usize, CopConfig};
use crate::cop::report::{extends_with_reports, lemma_reports_empty, lemma_reports_push};
use crate::cop::util::{begins_its_line, line_indent, spec_begins_its_line, spec_line_indent, string_is};
use crate::diagnostic::{new_diagnostic, Diagnostic, Severity};
use crate::parse::source::{col_of, line_of, SourceFile};
use vstd::prelude::*;

verus! {

/// Layout/ArrayAlignment checks alignment of multi-line array literal elements and rescue
/// exception lists.
pub struct ArrayAlignment;

/// Element `k` (not the first) starts a new line, begins it, and does not
/// start at the expected column.
pub open spec fn misaligned(s: Seq<u8>, elems: Seq<usize>, exp: int, k: int) -> bool {
    &&& line_of(s, elems[k] as int) != line_of(s, elems[k - 1] as int)
    &&& spec_begins_its_line(s, elems[k] as int)
    &&& col_of(s, elems[k] as int) != exp
}

/// The offenses among elements `1..p`, in order.
pub open spec fn element_offenses(s: Seq<u8>, elems: Seq<usize>, exp: int, p: int) -> Seq<
    (int, int, Seq<char>),
>
    decreases p,
{
    if p <= 1 {
        Seq::empty()
    } else {
        let r = element_offenses(s, elems, exp, p - 1);
        if misaligned(s, elems, exp, p - 1) {
            r.push(
                (
                    line_of(s, elems[p - 1] as int) as int,
                    col_of(s, elems[p - 1] as int) as int,
                    "Align the elements of an array literal if they span more than one line."@,
                ),
            )
        } else {
            r
        }
    }
}

/// The column the elements must start at: with style `with_fixed_indentation`,
/// one indentation step (option `IndentationWidth`, default 2) past the
/// indentation of the line of `anchor`; else that of the first element.
pub open spec fn expected_column(s: Seq<u8>, config: CopConfig, anchor: int, first: int) -> int {
    if spec_get_str(config.options@, "EnforcedStyle"@, "with_first_element"@)
        == "with_fixed_indentation"@ {
        spec_line_indent(s, anchor) + spec_get_usize(config.options@, "IndentationWidth"@, 2)
    } else {
        col_of(s, first) as int
    }
}

/// The offenses of a list of at least two elements (by where each starts),
/// the indentation measured at `anchor`.
pub open spec fn list_offenses(s: Seq<u8>, config: CopConfig, anchor: int, elems: Seq<usize>) -> Seq<
    (int, int, Seq<char>),
> {
    if elems.len() < 2 {
        Seq::empty()
    } else {
        element_offenses(
            s,
            elems,
            expected_column(s, config, anchor, elems[0] as int),
            elems.len() as int,
        )
    }
}

/// The offenses of an array literal: none for one without an opening
/// bracket (the values of a multiple assignment).
pub open spec fn array_offenses(s: Seq<u8>, config: CopConfig, opening: Option<usize>, elems: Seq<usize>) -> Seq<
    (int, int, Seq<char>),
> {
    match opening {
        Some(o) => list_offenses(s, config, o as int, elems),
        None => Seq::empty(),
    }
}

/// The offenses of the exceptions of a `rescue`, the indentation measured on
/// the line of the first one.
pub open spec fn rescue_offenses(s: Seq<u8>, config: CopConfig, elems: Seq<usize>) -> Seq<
    (int, int, Seq<char>),
> {
    if elems.len() == 0 {
        Seq::empty()
    } else {
        list_offenses(s, config, elems[0] as int, elems)
    }
}

pub open spec fn starts_in_bounds(s: Seq<u8>, elems: Seq<usize>) -> bool {
    forall|k: int| 0 <= k < elems.len() ==> #[trigger] elems[k] <= s.len()
}

impl ArrayAlignment {
    pub fn name(&self) -> (r: &'static str)
        ensures
            r@ == "Layout/ArrayAlignment"@,
    {
        "Layout/ArrayAlignment"
    }

    /// Reports the elements of `elems` (by where each starts) that are
    /// misaligned, the indentation measured on the line of `anchor`.
    fn check_element_alignment(
        &self,
        source: &SourceFile,
        config: &CopConfig,
        anchor: usize,
        elems: &Vec<usize>,
        diagnostics: &mut Vec<Diagnostic>,
    )
        requires
            anchor <= source@.len(),
            starts_in_bounds(source@, elems@),
        ensures
            extends_with_reports(
                old(diagnostics)@,
                final(diagnostics)@,
                source.spec_path(),
                "Layout/ArrayAlignment"@,
                Severity::Convention,
                list_offenses(source@, *config, anchor as int, elems@),
                false,
            ),
    {
        proof {
            lemma_reports_empty(
                diagnostics@,
                source.spec_path(),
                "Layout/ArrayAlignment"@,
                Severity::Convention,
                false,
            );
        }
        if elems.len() < 2 {
            return;
        }
        let bytes = source.as_bytes();
        let style = config.get_str("EnforcedStyle", "with_first_element");
        let width = config.get_usize("IndentationWidth", 2);
        let (_, first_col) = source.offset_to_line_col(elems[0]);
        let expected: u128 = if string_is(&style, "with_fixed_indentation") {
            line_indent(bytes, anchor) as u128 + width as u128
        } else {
            first_col as u128
        };
        let ghost exp = expected_column(source@, *config, anchor as int, elems@[0] as int);
        assert(expected == exp);
        let ghost msg = "Align the elements of an array literal if they span more than one line."@;
        let mut k: usize = 1;
        while k < elems.len()
            invariant
                1 <= k <= elems@.len(),
                bytes@ == source@,
                starts_in_bounds(source@, elems@),
                expected == exp,
                msg == "Align the elements of an array literal if they span more than one line."@,
                extends_with_reports(
                    old(diagnostics)@,
                    diagnostics@,
                    source.spec_path(),
                    "Layout/ArrayAlignment"@,
                    Severity::Convention,
                    element_offenses(source@, elems@, exp, k as int),
                    false,
                ),
            decreases elems@.len() - k,
        {
            let ghost prev = element_offenses(source@, elems@, exp, k as int);
            let off = elems[k];
            assert(elems@[k - 1] <= source@.len());
            let (prev_line, _) = source.offset_to_line_col(elems[k - 1]);
            let (line, col) = source.offset_to_line_col(off);
            if line != prev_line && begins_its_line(bytes, off) && col as u128 != expected {
                let d = new_diagnostic(
                    source,
                    "Layout/ArrayAlignment",
                    Severity::Convention,
                    line,
                    col,
                    "Align the elements of an array literal if they span more than one line.".to_owned(),
                );
                let ghost mid = diagnostics@;
                diagnostics.push(d);
                proof {
                    assert(diagnostics@.drop_last() =~= mid);
                    lemma_reports_push(
                        old(diagnostics)@,
                        mid,
                        diagnostics@,
                        source.spec_path(),
                        "Layout/ArrayAlignment"@,
                        Severity::Convention,
                        prev,
                        (line as int, col as int, msg),
                        false,
                    );
                }
            }
            k = k + 1;
        }
    }

    /// Checks one array literal: where its opening bracket starts, if it has
    /// one, and where each element starts.
    pub fn check_array(
        &self,
        source: &SourceFile,
        opening: Option<usize>,
        elems: &Vec<usize>,
        config: &CopConfig,
        diagnostics: &mut Vec<Diagnostic>,
    )
        requires
            starts_in_bounds(source@, elems@),
            opening matches Some(o) ==> o <= source@.len(),
        ensures
            extends_with_reports(
                old(diagnostics)@,
                final(diagnostics)@,
                source.spec_path(),
                "Layout/ArrayAlignment"@,
                Severity::Convention,
                array_offenses(source@, *config, opening, elems@),
                false,
            ),
    {
        match opening {
            Some(o) => self.check_element_alignment(source, config, o, elems, diagnostics),
            None => {
                proof {
                    lemma_reports_empty(
                        diagnostics@,
                        source.spec_path(),
                        "Layout/ArrayAlignment"@,
                        Severity::Convention,
                        false,
                    );
                }
            },
        }
    }

    /// Checks the exception classes of one `rescue`, by where each starts.
    pub fn check_rescue_exceptions(
        &self,
        source: &SourceFile,
        exceptions: &Vec<usize>,
        config: &CopConfig,
        diagnostics: &mut Vec<Diagnostic>,
    )
        requires
            starts_in_bounds(source@, exceptions@),
        ensures
            extends_with_reports(
                old(diagnostics)@,
                final(diagnostics)@,
                source.spec_path(),
                "Layout/ArrayAlignment"@,
                Severity::Convention,
                rescue_offenses(source@, *config, exceptions@),
                false,
            ),
    {
        if exceptions.len() == 0 {
            proof {
                lemma_reports_empty(
                    diagnostics@,
                    source.spec_path(),
                    "Layout/ArrayAlignment"@,
                    Severity::Convention,
                    false,
                );
            }
            return;
        }
        self.check_element_alignment(source, config, exceptions[0], exceptions, diagnostics);
    }
}

} // verus!
