use crate::diagnostic::Severity;
use crate::cop::report::{edits, extends_with_edits, lemma_edits_empty, lemma_edits_push};
use crate::correction::Correction;
use crate::diagnostic::{new_diagnostic, reports, Diagnostic};
use crate::parse::source::{col_of, line_of, SourceFile};
use vstd::prelude::*;

verus! {

/// The `Lint/TripleQuotes` cop.
pub struct TripleQuotes;

/// A string with interpolation, as far as the cop reads it: its range, and
/// its parts (start, end, the part is an empty string literal).
pub struct InterpolatedSite {
    pub start: usize,
    pub end: usize,
    pub parts: Vec<(usize, usize, bool)>,
}

/// Number of quote characters that open `s[a..b)`.
pub open spec fn leading_quotes(s: Seq<u8>, a: int, b: int) -> nat
    decreases b - a,
{
    if a < b && (s[a] == 34u8 || s[a] == 39u8) {
        1 + leading_quotes(s, a + 1, b)
    } else {
        0
    }
}

/// The empty string parts of `parts[k..]`, as ranges.
pub open spec fn empty_parts_from(parts: Seq<(usize, usize, bool)>, k: int) -> Seq<(int, int)>
    decreases parts.len() - k,
{
    if k < 0 || k >= parts.len() {
        Seq::empty()
    } else if parts[k].2 {
        seq![(parts[k].0 as int, parts[k].1 as int)] + empty_parts_from(parts, k + 1)
    } else {
        empty_parts_from(parts, k + 1)
    }
}

/// The string is opened by three quotes and holds an empty part.
pub open spec fn is_triple_quoted(s: Seq<u8>, site: InterpolatedSite) -> bool {
    empty_parts_from(site.parts@, 0).len() > 0 && leading_quotes(s, site.start as int, site.end as int)
        >= 3
}

/// The parts that the correction removes: the empty parts, but not the
/// first when every part is empty.
pub open spec fn removed_parts(site: InterpolatedSite) -> Seq<(int, int, Seq<char>)> {
    let e = empty_parts_from(site.parts@, 0);
    let kept = if e.len() == site.parts@.len() {
        e.drop_first()
    } else {
        e
    };
    kept.map_values(|r: (int, int)| (r.0, r.1, ""@))
}

impl TripleQuotes {
    pub fn name(&self) -> (r: &'static str)
        ensures
            r@ == "Lint/TripleQuotes"@,
    {
        "Lint/TripleQuotes"
    }

    pub fn default_severity(&self) -> (r: Severity)
        ensures
            r == Severity::Warning,
    {
        Severity::Warning
    }

    pub fn supports_autocorrect(&self) -> (r: bool)
        ensures
            r == true,
    {
        true
    }

    /// Checks one string with interpolation: one report when it is opened
    /// by three quotes and holds an empty part; with `autocorrect`, the
    /// empty parts are removed.
    pub fn check_node(
        &self,
        source: &SourceFile,
        site: &InterpolatedSite,
        diagnostics: &mut Vec<Diagnostic>,
        corrections: &mut Vec<Correction>,
        autocorrect: bool,
    )
        requires
            site.start <= site.end <= source@.len(),
        ensures
            if is_triple_quoted(source@, *site) {
                &&& final(diagnostics)@.len() == old(diagnostics)@.len() + 1
                &&& final(diagnostics)@.drop_last() == old(diagnostics)@
                &&& reports(
                    final(diagnostics)@.last(),
                    source.spec_path(),
                    "Lint/TripleQuotes"@,
                    Severity::Warning,
                    line_of(source@, site.start as int) as int,
                    col_of(source@, site.start as int) as int,
                    "Triple quotes found. Did you mean to use a heredoc?"@,
                    autocorrect,
                )
                &&& autocorrect ==> extends_with_edits(
                    old(corrections)@,
                    final(corrections)@,
                    "Lint/TripleQuotes"@,
                    removed_parts(*site),
                )
                &&& !autocorrect ==> final(corrections)@ == old(corrections)@
            } else {
                &&& final(diagnostics)@ == old(diagnostics)@
                &&& final(corrections)@ == old(corrections)@
            },
    {
        let cop = "Lint/TripleQuotes";
        let parts = &site.parts;
        let mut empties: Vec<(usize, usize)> = Vec::new();
        let mut k: usize = parts.len();
        while k > 0
            invariant
                k <= parts@.len(),
                empties@.map_values(|r: (usize, usize)| (r.0 as int, r.1 as int)) == empty_parts_from(
                    parts@,
                    k as int,
                ),
            decreases k,
        {
            k = k - 1;
            let (a, b, empty) = parts[k];
            if empty {
                let ghost e0 = empties@;
                empties.insert(0, (a, b));
                assert(empties@.map_values(|r: (usize, usize)| (r.0 as int, r.1 as int)) =~= seq![
                    (a as int, b as int),
                ] + e0.map_values(|r: (usize, usize)| (r.0 as int, r.1 as int)));
            }
        }
        let ghost ev = empty_parts_from(parts@, 0);
        assert(empties@.len() == ev.len());
        if empties.len() == 0 {
            return;
        }
        let bytes = source.as_bytes();
        let mut q = site.start;
        while q < site.end && (bytes[q] == 34u8 || bytes[q] == 39u8)
            invariant
                site.start <= q <= site.end <= bytes@.len(),
                bytes@ == source@,
                leading_quotes(bytes@, site.start as int, site.end as int) == (q - site.start)
                    + leading_quotes(bytes@, q as int, site.end as int),
            decreases site.end - q,
        {
            q = q + 1;
        }
        if q - site.start < 3 {
            return;
        }
        let (line, col) = source.offset_to_line_col(site.start);
        let mut d = new_diagnostic(
            source,
            cop,
            Severity::Warning,
            line,
            col,
            "Triple quotes found. Did you mean to use a heredoc?".to_owned(),
        );
        if autocorrect {
            let first = if empties.len() == parts.len() {
                1
            } else {
                0
            };
            let ghost kept = if ev.len() == parts@.len() {
                ev.drop_first()
            } else {
                ev
            };
            let ghost want = kept.map_values(|r: (int, int)| (r.0, r.1, ""@));
            let ghost c0 = corrections@;
            proof {
                lemma_edits_empty(c0, cop@);
            }
            let mut j: usize = first;
            while j < empties.len()
                invariant
                    first <= j <= empties@.len(),
                    first == (if ev.len() == parts@.len() { 1usize } else { 0usize }),
                    empties@.len() == ev.len(),
                    ev == empties@.map_values(|r: (usize, usize)| (r.0 as int, r.1 as int)),
                    kept == (if ev.len() == parts@.len() { ev.drop_first() } else { ev }),
                    want == kept.map_values(|r: (int, int)| (r.0, r.1, ""@)),
                    cop@ == "Lint/TripleQuotes"@,
                    extends_with_edits(c0, corrections@, cop@, want.subrange(0, j - first)),
                decreases empties@.len() - j,
            {
                let (a, b) = empties[j];
                let ghost cc = corrections@;
                corrections.push(
                    Correction {
                        start: a,
                        end: b,
                        replacement: String::new(),
                        cop_name: cop.to_owned(),
                        cop_index: 0,
                    },
                );
                proof {
                    reveal_strlit("");
                    assert(corrections@.last().replacement@ =~= ""@);
                    assert(corrections@.drop_last() =~= cc);
                    assert(want[j - first] == (a as int, b as int, ""@));
                    lemma_edits_push(c0, cc, corrections@, cop@, want.subrange(0, j - first), (a as int, b as int, ""@));
                    assert(want.subrange(0, j - first).push((a as int, b as int, ""@)) =~= want.subrange(0, j + 1 - first));
                }
                j = j + 1;
            }
            assert(want.subrange(0, j - first) =~= want);
            d.corrected = true;
        }
        diagnostics.push(d);
        assert(diagnostics@.drop_last() =~= old(diagnostics)@);
    }
}

} // verus!
