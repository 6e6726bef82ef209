use crate::cop::config::{spec_get_bool, CopConfig};
use crate::cop::report::{extends_with_reports, lemma_reports_empty, lemma_reports_push};
use crate::diagnostic::{new_diagnostic, Diagnostic, Severity};
use crate::parse::source::{col_of, line_of, SourceFile};
use vstd::prelude::*;

verus! {

/// Layout/MultilineArrayLineBreaks — each item in a multi-line array must start
/// on a separate line.
pub struct MultilineArrayLineBreaks;

/// An array literal: whether it has brackets, and where each element starts
/// and ends.
pub struct ArrayLiteral {
    pub has_brackets: bool,
    pub elements: Vec<(usize, usize)>,
}

/// The line of the last character of a span ending at `e`.
pub open spec fn last_line(s: Seq<u8>, e: usize) -> int {
    line_of(s, if e > 0 { e - 1 } else { 0 }) as int
}

/// All elements lie on one line: the first starts on the line where the
/// last ends, or, when the final element may span lines, where it starts.
pub open spec fn all_on_same_line(s: Seq<u8>, elems: Seq<(usize, usize)>, allow_final: bool) -> bool {
    if allow_final {
        line_of(s, elems[0].0 as int) == line_of(s, elems.last().0 as int)
    } else {
        line_of(s, elems[0].0 as int) == last_line(s, elems.last().1)
    }
}

pub open spec fn array_break_message() -> Seq<char> {
    "Each item in a multi-line array must start on a separate line."@
}

/// After the first `k` elements: the last line of the last element that
/// started on a line of its own (-1 before any), and the offenses so far.
/// An element that starts on or before that line is reported and does not
/// move it.
pub open spec fn line_break_scan(s: Seq<u8>, elems: Seq<(usize, usize)>, k: int) -> (int, Seq<(int, int, Seq<char>)>)
    decreases k,
{
    if k <= 0 {
        (-1, Seq::empty())
    } else {
        let (seen, offs) = line_break_scan(s, elems, k - 1);
        let e = elems[k - 1];
        let start_line = line_of(s, e.0 as int) as int;
        if seen >= start_line {
            (seen, offs.push((start_line, col_of(s, e.0 as int) as int, array_break_message())))
        } else {
            (last_line(s, e.1), offs)
        }
    }
}

/// The offenses of an array: none for an implicit array, fewer than two
/// elements, or elements all on one line.
pub open spec fn array_break_offenses(s: Seq<u8>, a: ArrayLiteral, allow_final: bool) -> Seq<(int, int, Seq<char>)> {
    if !a.has_brackets || a.elements@.len() < 2 || all_on_same_line(s, a.elements@, allow_final) {
        Seq::empty()
    } else {
        line_break_scan(s, a.elements@, a.elements@.len() as int).1
    }
}

pub open spec fn elements_in_bounds(s: Seq<u8>, elems: Seq<(usize, usize)>) -> bool {
    forall|k: int| 0 <= k < elems.len() ==> #[trigger] elems[k].0 <= s.len() && elems[k].1 <= s.len()
}

/// The line of the last character of the span ending at `e`.
pub fn last_line_exec(source: &SourceFile, e: usize) -> (r: usize)
    requires
        e <= source@.len(),
    ensures
        r == last_line(source@, e),
{
    let p = if e > 0 {
        e - 1
    } else {
        0
    };
    source.offset_to_line_col(p).0
}

impl MultilineArrayLineBreaks {
    pub fn name(&self) -> (r: &'static str)
        ensures
            r@ == "Layout/MultilineArrayLineBreaks"@,
    {
        "Layout/MultilineArrayLineBreaks"
    }

    pub fn default_enabled(&self) -> (r: bool)
        ensures
            r == false,
    {
        false
    }

    /// Checks one array literal. Option `AllowMultilineFinalElement`.
    pub fn check_array(
        &self,
        source: &SourceFile,
        array: &ArrayLiteral,
        config: &CopConfig,
        diagnostics: &mut Vec<Diagnostic>,
    )
        requires
            elements_in_bounds(source@, array.elements@),
        ensures
            extends_with_reports(
                old(diagnostics)@,
                final(diagnostics)@,
                source.spec_path(),
                "Layout/MultilineArrayLineBreaks"@,
                Severity::Convention,
                array_break_offenses(
                    source@,
                    *array,
                    spec_get_bool(config.options@, "AllowMultilineFinalElement"@, false),
                ),
                false,
            ),
    {
        let allow_final = config.get_bool("AllowMultilineFinalElement", false);
        let elems = &array.elements;
        let ghost es = elems@;
        proof {
            lemma_reports_empty(
                diagnostics@,
                source.spec_path(),
                "Layout/MultilineArrayLineBreaks"@,
                Severity::Convention,
                false,
            );
        }
        if !array.has_brackets || elems.len() < 2 {
            return;
        }
        let n = elems.len();
        assert(elems@[0].0 <= source@.len());
        assert(elems@[n - 1].0 <= source@.len() && elems@[n - 1].1 <= source@.len());
        let first_line = source.offset_to_line_col(elems[0].0).0;
        if allow_final {
            if first_line == source.offset_to_line_col(elems[n - 1].0).0 {
                return;
            }
        } else {
            if first_line == last_line_exec(source, elems[n - 1].1) {
                return;
            }
        }
        let mut seen: Option<usize> = None;
        let mut k: usize = 0;
        while k < n
            invariant
                k <= n == es.len(),
                es == elems@,
                elements_in_bounds(source@, es),
                line_break_scan(source@, es, k as int).0 == match seen {
                    Some(l) => l as int,
                    None => -1,
                },
                extends_with_reports(
                    old(diagnostics)@,
                    diagnostics@,
                    source.spec_path(),
                    "Layout/MultilineArrayLineBreaks"@,
                    Severity::Convention,
                    line_break_scan(source@, es, k as int).1,
                    false,
                ),
            decreases n - k,
        {
            let (a, e) = elems[k];
            assert(es[k as int].0 <= source@.len() && es[k as int].1 <= source@.len());
            let (start_line, start_col) = source.offset_to_line_col(a);
            let flagged = match seen {
                Some(l) => l >= start_line,
                None => false,
            };
            if flagged {
                let d = new_diagnostic(
                    source,
                    "Layout/MultilineArrayLineBreaks",
                    Severity::Convention,
                    start_line,
                    start_col,
                    "Each item in a multi-line array must start on a separate line.".to_owned(),
                );
                let ghost before = diagnostics@;
                diagnostics.push(d);
                proof {
                    assert(diagnostics@.drop_last() =~= before);
                    lemma_reports_push(
                        old(diagnostics)@,
                        before,
                        diagnostics@,
                        source.spec_path(),
                        "Layout/MultilineArrayLineBreaks"@,
                        Severity::Convention,
                        line_break_scan(source@, es, k as int).1,
                        (start_line as int, start_col as int, array_break_message()),
                        false,
                    );
                }
            } else {
                seen = Some(last_line_exec(source, e));
            }
            k = k + 1;
        }
    }
}

} // verus!
