use crate::cop::config::{spec_get_str, CopConfig};
use crate::cop::report::{
    edits, extends_with_edits, extends_with_reports, lemma_edits_empty, lemma_edits_push,
    lemma_reports_empty, lemma_reports_push,
};
use crate::cop::util::string_is;
use crate::correction::Correction;
use crate::diagnostic::{new_diagnostic, reports, Diagnostic, Severity};
use crate::parse::codemap::CodeMap;
use crate::parse::source::{col_of, line_of, SourceFile};
use vstd::prelude::*;

verus! {

/// The `Layout/SpaceAfterComma` cop.
pub struct SpaceAfterComma;

/// The opening delimiter of an array literal that has one, and its closing
/// delimiter if it has one: `((start, end), Some((start, end)))`.
pub type ArrayDelimiters = ((usize, usize), Option<(usize, usize)>);

/// The opening `[a, b)` reads `%w`, `%W`, `%i` or `%I` and then, as its last
/// byte, a comma: a percent array delimited by commas.
pub open spec fn comma_percent_open(s: Seq<u8>, a: int, b: int) -> bool {
    &&& b - a >= 2
    &&& s[a] == 37u8
    &&& (s[a + 1] == 119u8 || s[a + 1] == 87u8 || s[a + 1] == 105u8 || s[a + 1] == 73u8)
    &&& s[b - 1] == 44u8
}

/// Byte `i` is a delimiter of a comma-delimited percent array.
pub open spec fn percent_delimiter(s: Seq<u8>, arrays: Seq<ArrayDelimiters>, i: int) -> bool {
    exists|k: int|
        0 <= k < arrays.len() && comma_percent_open(s, (#[trigger] arrays[k]).0.0 as int, arrays[k].0.1 as int) && (
        i == arrays[k].0.1 - 1 || match arrays[k].1 {
            Some((c, d)) => c < d && s[c as int] == 44u8 && i == c,
            None => false,
        })
}

/// The byte after the comma at `i` is one that allows it: a closing bracket,
/// `|`, `;`, or a closing brace when `skip_rcurly` holds.
pub open spec fn allowed_next(b: u8, skip_rcurly: bool) -> bool {
    b == 41u8 || b == 93u8 || b == 124u8 || b == 59u8 || (b == 125u8 && skip_rcurly)
}

/// The comma at `i` ends a line by a backslash continuation.
pub open spec fn continues_line(s: Seq<u8>, i: int) -> bool {
    i + 1 < s.len() && s[i + 1] == 92u8 && (i + 2 >= s.len() || s[i + 2] == 10u8 || s[i + 2] == 13u8)
}

/// White space (or the end of the text) follows the comma at `i`.
pub open spec fn spaced(s: Seq<u8>, i: int) -> bool {
    i + 1 >= s.len() || s[i + 1] == 32u8 || s[i + 1] == 9u8 || s[i + 1] == 10u8 || s[i + 1] == 13u8
}

/// Byte `i` is a comma of code (or of a heredoc's interpolation, outside
/// literals nested there) that lacks a space after it.
pub open spec fn comma_offense(
    s: Seq<u8>,
    code: CodeMap,
    arrays: Seq<ArrayDelimiters>,
    skip_rcurly: bool,
    i: int,
) -> bool {
    &&& s[i] == 44u8
    &&& !percent_delimiter(s, arrays, i)
    &&& (code.spec_is_code(i) || (code.spec_is_heredoc_interpolation(i)
        && !code.spec_is_non_code_in_heredoc_interpolation(i)))
    &&& !(i > 0 && s[i - 1] == 36u8)
    &&& !(i + 1 < s.len() && allowed_next(s[i + 1], skip_rcurly))
    &&& !continues_line(s, i)
    &&& !spaced(s, i)
}

/// The offending commas among the first `p` bytes, in order.
pub open spec fn comma_offenses(
    s: Seq<u8>,
    code: CodeMap,
    arrays: Seq<ArrayDelimiters>,
    skip_rcurly: bool,
    p: int,
) -> Seq<int>
    decreases p,
{
    if p <= 0 {
        Seq::empty()
    } else {
        let r = comma_offenses(s, code, arrays, skip_rcurly, p - 1);
        if comma_offense(s, code, arrays, skip_rcurly, p - 1) {
            r.push(p - 1)
        } else {
            r
        }
    }
}

pub open spec fn comma_reports(s: Seq<u8>, ps: Seq<int>) -> Seq<(int, int, Seq<char>)> {
    ps.map_values(|i: int| (line_of(s, i) as int, col_of(s, i) as int, "Space missing after comma."@))
}

/// Each offense inserts a space after its comma.
pub open spec fn comma_edits(ps: Seq<int>) -> Seq<(int, int, Seq<char>)> {
    ps.map_values(|i: int| (i + 1, i + 1, " "@))
}

/// The style option read from `Layout/SpaceInsideHashLiteralBraces` is
/// `no_space`.
pub open spec fn skips_rcurly(config: CopConfig) -> bool {
    spec_get_str(config.options@, "__SpaceInsideHashBracesStyle"@, "space"@) == "no_space"@
}

fn is_percent_delimiter(bytes: &[u8], arrays: &Vec<ArrayDelimiters>, i: usize) -> (r: bool)
    requires
        forall|k: int|
            0 <= k < arrays@.len() ==> #[trigger] arrays@[k].0.0 <= arrays@[k].0.1 <= bytes@.len()
                && match arrays@[k].1 {
                Some((c, d)) => c <= d <= bytes@.len(),
                None => true,
            },
    ensures
        r == percent_delimiter(bytes@, arrays@, i as int),
{
    let mut k: usize = 0;
    while k < arrays.len()
        invariant
            k <= arrays@.len(),
            forall|j: int|
                0 <= j < arrays@.len() ==> #[trigger] arrays@[j].0.0 <= arrays@[j].0.1 <= bytes@.len()
                    && match arrays@[j].1 {
                    Some((c, d)) => c <= d <= bytes@.len(),
                    None => true,
                },
            forall|j: int|
                0 <= j < k ==> !(comma_percent_open(bytes@, (#[trigger] arrays@[j]).0.0 as int, arrays@[j].0.1 as int) && (
                i == arrays@[j].0.1 - 1 || match arrays@[j].1 {
                    Some((c, d)) => c < d && bytes@[c as int] == 44u8 && i == c,
                    None => false,
                })),
        decreases arrays@.len() - k,
    {
        let ((a, b), close) = arrays[k];
        let open = b >= 2 && a <= b - 2 && bytes[a] == 37u8 && (bytes[a + 1] == 119u8 || bytes[a
            + 1] == 87u8 || bytes[a + 1] == 105u8 || bytes[a + 1] == 73u8) && bytes[b - 1] == 44u8;
        if open {
            if i == b - 1 {
                return true;
            }
            match close {
                Some((c, d)) => {
                    if c < d && bytes[c] == 44u8 && i == c {
                        return true;
                    }
                },
                None => {},
            }
        }
        k = k + 1;
    }
    false
}

impl SpaceAfterComma {
    pub fn name(&self) -> (r: &'static str)
        ensures
            r@ == "Layout/SpaceAfterComma"@,
    {
        "Layout/SpaceAfterComma"
    }

    pub fn supports_autocorrect(&self) -> (r: bool)
        ensures
            r == true,
    {
        true
    }

    /// Checks the whole source. `arrays` gives the delimiters of the array
    /// literals that have them; the option `__SpaceInsideHashBracesStyle`
    /// carries the style of `Layout/SpaceInsideHashLiteralBraces`. Every report
    /// is marked corrected; with `autocorrect` each comes with its edit.
    pub fn check_source(
        &self,
        source: &SourceFile,
        code: &CodeMap,
        arrays: &Vec<ArrayDelimiters>,
        config: &CopConfig,
        diagnostics: &mut Vec<Diagnostic>,
        corrections: &mut Vec<Correction>,
        autocorrect: bool,
    )
        requires
            forall|k: int|
                0 <= k < arrays@.len() ==> #[trigger] arrays@[k].0.0 <= arrays@[k].0.1 <= source@.len()
                    && match arrays@[k].1 {
                    Some((c, d)) => c <= d <= source@.len(),
                    None => true,
                },
        ensures
            ({
                let ps = comma_offenses(source@, *code, arrays@, skips_rcurly(*config), source@.len() as int);
                &&& extends_with_reports(
                    old(diagnostics)@,
                    final(diagnostics)@,
                    source.spec_path(),
                    "Layout/SpaceAfterComma"@,
                    Severity::Convention,
                    comma_reports(source@, ps),
                    true,
                )
                &&& extends_with_edits(
                    old(corrections)@,
                    final(corrections)@,
                    "Layout/SpaceAfterComma"@,
                    if autocorrect {
                        comma_edits(ps)
                    } else {
                        Seq::empty()
                    },
                )
            }),
    {
        let style = config.get_str("__SpaceInsideHashBracesStyle", "space");
        let skip_rcurly = string_is(&style, "no_space");
        let ghost sk = skips_rcurly(*config);
        assert(skip_rcurly == sk);
        let bytes = source.as_bytes();
        let n = bytes.len();
        proof {
            lemma_reports_empty(
                diagnostics@,
                source.spec_path(),
                "Layout/SpaceAfterComma"@,
                Severity::Convention,
                true,
            );
            lemma_edits_empty(corrections@, "Layout/SpaceAfterComma"@);
            assert(comma_reports(source@, Seq::<int>::empty()) =~= Seq::empty());
            assert(comma_edits(Seq::<int>::empty()) =~= Seq::empty());
        }
        let mut i: usize = 0;
        while i < n
            invariant
                i <= n == bytes@.len() == source@.len(),
                bytes@ == source@,
                skip_rcurly == sk,
                forall|k: int|
                    0 <= k < arrays@.len() ==> #[trigger] arrays@[k].0.0 <= arrays@[k].0.1
                        <= bytes@.len() && match arrays@[k].1 {
                        Some((c, d)) => c <= d <= bytes@.len(),
                        None => true,
                    },
                extends_with_reports(
                    old(diagnostics)@,
                    diagnostics@,
                    source.spec_path(),
                    "Layout/SpaceAfterComma"@,
                    Severity::Convention,
                    comma_reports(source@, comma_offenses(source@, *code, arrays@, sk, i as int)),
                    true,
                ),
                extends_with_edits(
                    old(corrections)@,
                    corrections@,
                    "Layout/SpaceAfterComma"@,
                    if autocorrect {
                        comma_edits(comma_offenses(source@, *code, arrays@, sk, i as int))
                    } else {
                        Seq::empty()
                    },
                ),
            decreases n - i,
        {
            let ghost ps = comma_offenses(source@, *code, arrays@, sk, i as int);
            let offense = bytes[i] == 44u8 && !is_percent_delimiter(bytes, arrays, i) && (code.is_code(i)
                || (code.is_heredoc_interpolation(i) && !code.is_non_code_in_heredoc_interpolation(i)))
                && !(i > 0 && bytes[i - 1] == 36u8) && !(i + 1 < n && (bytes[i + 1] == 41u8 || bytes[i
                + 1] == 93u8 || bytes[i + 1] == 124u8 || bytes[i + 1] == 59u8 || (bytes[i + 1] == 125u8
                && skip_rcurly))) && !(i + 1 < n && bytes[i + 1] == 92u8 && (i + 2 >= n || bytes[i + 2]
                == 10u8 || bytes[i + 2] == 13u8)) && !(i + 1 >= n || bytes[i + 1] == 32u8 || bytes[i
                + 1] == 9u8 || bytes[i + 1] == 10u8 || bytes[i + 1] == 13u8);
            assert(offense == comma_offense(source@, *code, arrays@, sk, i as int));
            if offense {
                let (line, col) = source.offset_to_line_col(i);
                let mut d = new_diagnostic(
                    source,
                    "Layout/SpaceAfterComma",
                    Severity::Convention,
                    line,
                    col,
                    "Space missing after comma.".to_owned(),
                );
                d.corrected = true;
                let ghost mid_d = diagnostics@;
                diagnostics.push(d);
                proof {
                    assert(diagnostics@.drop_last() =~= mid_d);
                    lemma_reports_push(
                        old(diagnostics)@,
                        mid_d,
                        diagnostics@,
                        source.spec_path(),
                        "Layout/SpaceAfterComma"@,
                        Severity::Convention,
                        comma_reports(source@, ps),
                        (line as int, col as int, "Space missing after comma."@),
                        true,
                    );
                    assert(comma_reports(source@, ps.push(i as int)) =~= comma_reports(
                        source@,
                        ps,
                    ).push((line as int, col as int, "Space missing after comma."@)));
                }
                if autocorrect {
                    let ghost mid_c = corrections@;
                    corrections.push(
                        Correction {
                            start: i + 1,
                            end: i + 1,
                            replacement: " ".to_owned(),
                            cop_name: "Layout/SpaceAfterComma".to_owned(),
                            cop_index: 0,
                        },
                    );
                    proof {
                        assert(corrections@.drop_last() =~= mid_c);
                        lemma_edits_push(
                            old(corrections)@,
                            mid_c,
                            corrections@,
                            "Layout/SpaceAfterComma"@,
                            comma_edits(ps),
                            (i + 1, i + 1, " "@),
                        );
                        assert(comma_edits(ps.push(i as int)) =~= comma_edits(ps).push(
                            (i + 1, i + 1, " "@),
                        ));
                    }
                }
            }
            i = i + 1;
        }
    }
}

} // verus!
