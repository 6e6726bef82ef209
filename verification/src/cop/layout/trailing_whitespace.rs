use crate::cop::config::{spec_get_bool, CopConfig};
use crate::cop::report::{
    extends_with_edits, extends_with_reports, lemma_edits_empty, lemma_edits_push,
    lemma_reports_empty, lemma_reports_push, push_offense,
};
use crate::cop::util::{
    copy_range_to_vec, find_byte, find_byte_exec, line_end_exec, range_eq, spec_is_blank, word_end,
    word_end_exec,
};
use crate::correction::Correction;
use crate::diagnostic::{Diagnostic, Severity};
use crate::parse::source::{col_of, lemma_line_end_bounds, line_end, line_of, SourceFile};
use vstd::prelude::*;

verus! {

/// Checks for trailing whitespace: spaces, tabs and full-width spaces
/// (U+3000) at the end of a line. Checking stops at an `__END__` line outside
/// a heredoc; with `AllowInHeredoc`, lines inside heredocs are not checked.
pub struct TrailingWhitespace;

/// End of the line `p..e` without a final carriage return.
pub open spec fn strip_cr_end(s: Seq<u8>, p: int, e: int) -> int {
    if e > p && s[e - 1] == 13u8 {
        e - 1
    } else {
        e
    }
}

/// The three bytes before `end` encode U+3000 (ideographic space).
pub open spec fn ends_with_wide_space(s: Seq<u8>, a: int, end: int) -> bool {
    end - a >= 3 && s[end - 3] == 0xE3u8 && s[end - 2] == 0x80u8 && s[end - 1] == 0x80u8
}

/// Where the trailing whitespace of `a..end` starts (`end` when there is none).
pub open spec fn tw_start(s: Seq<u8>, a: int, end: int) -> int
    decreases end - a,
{
    if end <= a {
        end
    } else if spec_is_blank(s[end - 1]) {
        tw_start(s, a, end - 1)
    } else if ends_with_wide_space(s, a, end) {
        tw_start(s, a, end - 3)
    } else {
        end
    }
}

/// First position of `p..se` that is not a space or tab, or `se`.
pub open spec fn lead_blank_end(s: Seq<u8>, p: int, se: int) -> int
    decreases se - p,
{
    if p < se && spec_is_blank(s[p]) {
        lead_blank_end(s, p + 1, se)
    } else {
        p
    }
}

/// First position `q >= i` with `<<` at `q..q+2` inside `..e`, or -1.
pub open spec fn find_shift(s: Seq<u8>, i: int, e: int) -> int
    decreases e - i,
{
    if i + 1 >= e {
        -1
    } else if s[i] == 60u8 && s[i + 1] == 60u8 {
        i
    } else {
        find_shift(s, i + 1, e)
    }
}

/// The terminator of a heredoc opened on the line `p..e` (`<<WORD`,
/// `<<~WORD`, `<<-WORD`, quoted or not), taken from the first `<<` of the line.
pub open spec fn heredoc_opener(s: Seq<u8>, p: int, e: int) -> Option<Seq<u8>> {
    let pos = find_shift(s, p, e);
    if pos < 0 {
        None
    } else {
        let a0 = pos + 2;
        let a = if a0 < e && (s[a0] == 126u8 || s[a0] == 45u8) {
            a0 + 1
        } else {
            a0
        };
        let k = if a < e && (s[a] == 39u8 || s[a] == 34u8) {
            find_byte(s, s[a], a + 1, e)
        } else {
            -1
        };
        let r0 = if k >= 0 {
            a + 1
        } else {
            a
        };
        let r1 = if k >= 0 {
            k
        } else {
            e
        };
        let we = word_end(s, r0, r1);
        if we > r0 {
            Some(s.subrange(r0, we))
        } else {
            None
        }
    }
}

/// The line `p..se` is the `__END__` marker.
pub open spec fn is_end_marker(s: Seq<u8>, p: int, se: int) -> bool {
    s.subrange(p, se) == seq![95u8, 95u8, 69u8, 78u8, 68u8, 95u8, 95u8]
}

/// Byte ranges of trailing whitespace in the lines from `p` on, when the
/// heredoc whose terminator is `state` (if any) is open at `p`.
pub open spec fn tw_ranges_from(s: Seq<u8>, allow: bool, p: int, state: Option<Seq<u8>>) -> Seq<
    (int, int),
>
    decreases s.len() + 1 - p,
{
    if p < 0 || p >= s.len() {
        Seq::empty()
    } else {
        let e = line_end(s, p);
        let se = strip_cr_end(s, p, e);
        let closes = match state {
            Some(t) => s.subrange(lead_blank_end(s, p, se), se) == t,
            None => false,
        };
        let state1 = if closes {
            None
        } else {
            state
        };
        if state1 is Some && allow {
            proof {
                lemma_line_end_bounds(s, p);
            }
            tw_ranges_from(s, allow, e + 1, state1)
        } else if is_end_marker(s, p, se) && state1 is None {
            Seq::empty()
        } else {
            let state2 = if state1 is None {
                heredoc_opener(s, p, e)
            } else {
                state1
            };
            proof {
                lemma_line_end_bounds(s, p);
            }
            let rest = tw_ranges_from(s, allow, e + 1, state2);
            let ts = tw_start(s, p, se);
            if se > p && ts < se {
                seq![(ts, se)] + rest
            } else {
                rest
            }
        }
    }
}

pub open spec fn opt_view(o: Option<Vec<u8>>) -> Option<Seq<u8>> {
    match o {
        Some(v) => Some(v@),
        None => None,
    }
}

proof fn lemma_tw_ranges_bounded(s: Seq<u8>, allow: bool, p: int, state: Option<Seq<u8>>)
    requires
        0 <= p,
    ensures
        forall|j: int|
            0 <= j < tw_ranges_from(s, allow, p, state).len() ==> p <= (#[trigger] tw_ranges_from(
                s,
                allow,
                p,
                state,
            )[j]).0 <= tw_ranges_from(s, allow, p, state)[j].1 <= s.len(),
    decreases s.len() + 1 - p,
{
    if 0 <= p < s.len() {
        let e = line_end(s, p);
        lemma_line_end_bounds(s, p);
        let se = strip_cr_end(s, p, e);
        let closes = match state {
            Some(t) => s.subrange(lead_blank_end(s, p, se), se) == t,
            None => false,
        };
        let state1 = if closes {
            None
        } else {
            state
        };
        let all = tw_ranges_from(s, allow, p, state);
        if state1 is Some && allow {
            lemma_tw_ranges_bounded(s, allow, e + 1, state1);
            assert(all == tw_ranges_from(s, allow, e + 1, state1));
            assert forall|j: int| 0 <= j < all.len() implies p <= (#[trigger] all[j]).0 <= all[j].1
                <= s.len() by {
                assert(all[j] == tw_ranges_from(s, allow, e + 1, state1)[j]);
            }
        } else if is_end_marker(s, p, se) && state1 is None {
            assert(all.len() == 0);
        } else {
            let state2 = if state1 is None {
                heredoc_opener(s, p, e)
            } else {
                state1
            };
            lemma_tw_ranges_bounded(s, allow, e + 1, state2);
            lemma_tw_start_bounds(s, p, se);
            let rest = tw_ranges_from(s, allow, e + 1, state2);
            let ts = tw_start(s, p, se);
            if se > p && ts < se {
                assert(all == seq![(ts, se)] + rest);
                assert forall|j: int| 0 <= j < all.len() implies p <= (#[trigger] all[j]).0 <= all[j].1
                    <= s.len() by {
                    if j > 0 {
                        assert(all[j] == rest[j - 1]);
                    }
                }
            } else {
                assert(all == rest);
                assert forall|j: int| 0 <= j < all.len() implies p <= (#[trigger] all[j]).0 <= all[j].1
                    <= s.len() by {
                    assert(all[j] == rest[j]);
                }
            }
        }
    }
}

proof fn lemma_tw_start_bounds(s: Seq<u8>, a: int, end: int)
    requires
        a <= end,
    ensures
        a <= tw_start(s, a, end) <= end,
    decreases end - a,
{
    if end > a {
        if spec_is_blank(s[end - 1]) {
            lemma_tw_start_bounds(s, a, end - 1);
        } else if ends_with_wide_space(s, a, end) {
            lemma_tw_start_bounds(s, a, end - 3);
        }
    }
}

/// The trailing-whitespace ranges of source `s`.
pub open spec fn tw_ranges(s: Seq<u8>, allow: bool) -> Seq<(int, int)> {
    tw_ranges_from(s, allow, 0, None)
}

/// The offenses (line, column, message) for the ranges `rs`.
pub open spec fn tw_offenses(s: Seq<u8>, rs: Seq<(int, int)>) -> Seq<(int, int, Seq<char>)> {
    rs.map_values(
        |r: (int, int)|
            (line_of(s, r.0) as int, col_of(s, r.0) as int, "Trailing whitespace detected."@),
    )
}

/// The corrections (start, end, replacement) for the ranges `rs`: each
/// range is deleted.
pub open spec fn tw_edits(rs: Seq<(int, int)>) -> Seq<(int, int, Seq<char>)> {
    rs.map_values(|r: (int, int)| (r.0, r.1, Seq::<char>::empty()))
}

fn tw_start_exec(bytes: &[u8], a: usize, end: usize) -> (r: usize)
    requires
        a <= end <= bytes@.len(),
    ensures
        r == tw_start(bytes@, a as int, end as int),
        a <= r <= end,
{
    let mut k = end;
    loop
        invariant
            a <= k <= end <= bytes@.len(),
            tw_start(bytes@, a as int, end as int) == tw_start(bytes@, a as int, k as int),
        decreases k,
    {
        if k > a && (bytes[k - 1] == 32u8 || bytes[k - 1] == 9u8) {
            k = k - 1;
        } else if k > a && k - a >= 3 && bytes[k - 3] == 0xE3u8 && bytes[k - 2] == 0x80u8 && bytes[k
            - 1] == 0x80u8 {
            k = k - 3;
        } else {
            return k;
        }
    }
}

fn lead_blank_end_exec(bytes: &[u8], p: usize, se: usize) -> (r: usize)
    requires
        p <= se <= bytes@.len(),
    ensures
        r == lead_blank_end(bytes@, p as int, se as int),
        p <= r <= se,
{
    let mut k = p;
    while k < se && (bytes[k] == 32u8 || bytes[k] == 9u8)
        invariant
            p <= k <= se <= bytes@.len(),
            lead_blank_end(bytes@, p as int, se as int) == lead_blank_end(
                bytes@,
                k as int,
                se as int,
            ),
        decreases se - k,
    {
        k = k + 1;
    }
    k
}

fn find_shift_exec(bytes: &[u8], p: usize, e: usize) -> (r: Option<usize>)
    requires
        p <= e <= bytes.len(),
    ensures
        r matches Some(q) ==> find_shift(bytes@, p as int, e as int) == q as int && p <= q && q
            + 2 <= e,
        r is None ==> find_shift(bytes@, p as int, e as int) == -1,
{
    let mut k = p;
    while e - k >= 2
        invariant
            p <= k <= e <= bytes@.len(),
            find_shift(bytes@, p as int, e as int) == find_shift(bytes@, k as int, e as int),
        decreases e - k,
    {
        if bytes[k] == 60u8 && bytes[k + 1] == 60u8 {
            return Some(k);
        }
        k = k + 1;
    }
    None
}

fn heredoc_opener_exec(bytes: &[u8], p: usize, e: usize) -> (r: Option<Vec<u8>>)
    requires
        p <= e <= bytes@.len(),
    ensures
        r matches Some(v) ==> heredoc_opener(bytes@, p as int, e as int) == Some(v@),
        r is None ==> heredoc_opener(bytes@, p as int, e as int) is None,
{
    match find_shift_exec(bytes, p, e) {
        None => None,
        Some(pos) => {
            let a0 = pos + 2;
            let a = if a0 < e && (bytes[a0] == 126u8 || bytes[a0] == 45u8) {
                a0 + 1
            } else {
                a0
            };
            let k = if a < e && (bytes[a] == 39u8 || bytes[a] == 34u8) {
                find_byte_exec(bytes, bytes[a], a + 1, e)
            } else {
                None
            };
            let (r0, r1) = match k {
                Some(q) => (a + 1, q),
                None => (a, e),
            };
            let we = word_end_exec(bytes, r0, r1);
            if we > r0 {
                Some(copy_range_to_vec(bytes, r0, we))
            } else {
                None
            }
        },
    }
}

fn is_end_marker_exec(bytes: &[u8], p: usize, se: usize) -> (r: bool)
    requires
        p <= se <= bytes@.len(),
    ensures
        r == is_end_marker(bytes@, p as int, se as int),
{
    let r = se - p == 7 && bytes[p] == 95u8 && bytes[p + 1] == 95u8 && bytes[p + 2] == 69u8
        && bytes[p + 3] == 78u8 && bytes[p + 4] == 68u8 && bytes[p + 5] == 95u8 && bytes[p + 6]
        == 95u8;
    if r {
        assert(bytes@.subrange(p as int, se as int) =~= seq![95u8, 95u8, 69u8, 78u8, 68u8, 95u8, 95u8]);
    } else if se - p == 7 {
        proof {
            let sub = bytes@.subrange(p as int, se as int);
            if sub == seq![95u8, 95u8, 69u8, 78u8, 68u8, 95u8, 95u8] {
                assert(sub[0] == 95u8 && sub[1] == 95u8 && sub[2] == 69u8 && sub[3] == 78u8
                    && sub[4] == 68u8 && sub[5] == 95u8 && sub[6] == 95u8);
            }
        }
    } else {
        assert(bytes@.subrange(p as int, se as int).len() != 7);
    }
    r
}

impl TrailingWhitespace {
    pub fn name(&self) -> (r: &'static str)
        ensures
            r@ == "Layout/TrailingWhitespace"@,
    {
        "Layout/TrailingWhitespace"
    }

    pub fn supports_autocorrect(&self) -> (r: bool)
        ensures
            r == true,
    {
        true
    }

    /// The byte ranges of trailing whitespace in `source`.
    pub fn ranges(&self, source: &SourceFile, allow_in_heredoc: bool) -> (r: Vec<(usize, usize)>)
        ensures
            r@.map_values(|x: (usize, usize)| (x.0 as int, x.1 as int)) == tw_ranges(
                source@,
                allow_in_heredoc,
            ),
            forall|j: int| 0 <= j < r@.len() ==> (#[trigger] r@[j]).0 <= r@[j].1 <= source@.len(),
    {
        proof {
            lemma_tw_ranges_bounded(source@, allow_in_heredoc, 0, None);
        }
        let bytes = source.as_bytes();
        let ghost s = bytes@;
        let ghost allow = allow_in_heredoc;
        let mut out: Vec<(usize, usize)> = Vec::new();
        let mut state: Option<Vec<u8>> = None;
        let mut p: usize = 0;
        let mut stop = false;
        while p < bytes.len() && !stop
            invariant
                s == bytes@,
                allow == allow_in_heredoc,
                s.len() < usize::MAX,
                p <= s.len() + 1,
                out@.map_values(|x: (usize, usize)| (x.0 as int, x.1 as int)) + (if stop {
                    Seq::empty()
                } else {
                    tw_ranges_from(
                        s,
                        allow,
                        p as int,
                        opt_view(state),
                    )
                }) == tw_ranges(s, allow),
            decreases s.len() + 1 - p, if stop { 0int } else { 1int },
        {
            let ghost out0 = out@.map_values(|x: (usize, usize)| (x.0 as int, x.1 as int));
            let ghost st = opt_view(state);
            let e = line_end_exec(bytes, p);
            let se = if e > p && bytes[e - 1] == 13u8 {
                e - 1
            } else {
                e
            };
            let closes = match &state {
                Some(t) => {
                    let lb = lead_blank_end_exec(bytes, p, se);
                    range_eq(bytes, lb, se, t.as_slice())
                },
                None => false,
            };
            if closes {
                state = None;
            }
            let ghost st1 = opt_view(state);
            assert(st1 == (if closes {
                None
            } else {
                st
            }));
            if state.is_some() && allow_in_heredoc {
                p = e + 1;
            } else if is_end_marker_exec(bytes, p, se) && state.is_none() {
                stop = true;
            } else {
                if state.is_none() {
                    state = heredoc_opener_exec(bytes, p, e);
                }
                let ts = tw_start_exec(bytes, p, se);
                if se > p && ts < se {
                    out.push((ts, se));
                    assert(out@.map_values(|x: (usize, usize)| (x.0 as int, x.1 as int)) =~= out0.push(
                        (ts as int, se as int),
                    ));
                    assert(out0.push((ts as int, se as int)) + tw_ranges_from(
                        s,
                        allow,
                        e + 1,
                        opt_view(state),
                    ) =~= out0 + (seq![(ts as int, se as int)] + tw_ranges_from(
                        s,
                        allow,
                        e + 1,
                        opt_view(state),
                    )));
                }
                p = e + 1;
            }
        }
        proof {
            if !stop {
                assert(tw_ranges_from(
                    s,
                    allow,
                    p as int,
                    opt_view(state),
                ) =~= Seq::empty());
            }
        }
        let ghost m = out@.map_values(|x: (usize, usize)| (x.0 as int, x.1 as int));
        assert(m =~= tw_ranges(s, allow));
        assert forall|j: int| 0 <= j < out@.len() implies (#[trigger] out@[j]).0 <= out@[j].1 <= s.len() by {
            assert(m.len() == out@.len());
            assert(m[j] == (out@[j].0 as int, out@[j].1 as int));
            assert(m[j] == tw_ranges_from(s, allow, 0, None)[j]);
            assert(0 <= tw_ranges_from(s, allow, 0, None)[j].0 <= tw_ranges_from(s, allow, 0, None)[j].1 <= s.len());
        }
        out
    }

    /// Reports each run of trailing whitespace at its start; with
    /// `autocorrect`, also records a correction that deletes the run.
    pub fn check_lines(
        &self,
        source: &SourceFile,
        config: &CopConfig,
        diagnostics: &mut Vec<Diagnostic>,
        corrections: &mut Vec<Correction>,
        autocorrect: bool,
    )
        ensures
            ({
                let rs = tw_ranges(source@, spec_get_bool(config.options@, "AllowInHeredoc"@, false));
                &&& extends_with_reports(
                    old(diagnostics)@,
                    final(diagnostics)@,
                    source.spec_path(),
                    "Layout/TrailingWhitespace"@,
                    Severity::Convention,
                    tw_offenses(source@, rs),
                    autocorrect,
                )
                &&& autocorrect ==> extends_with_edits(
                    old(corrections)@,
                    final(corrections)@,
                    "Layout/TrailingWhitespace"@,
                    tw_edits(rs),
                )
                &&& !autocorrect ==> final(corrections)@ == old(corrections)@
            }),
    {
        let allow = config.get_bool("AllowInHeredoc", false);
        let rs = self.ranges(source, allow);
        let ghost grs = rs@.map_values(|x: (usize, usize)| (x.0 as int, x.1 as int));
        let bytes = source.as_bytes();
        let ghost d0 = diagnostics@;
        let ghost c0 = corrections@;
        proof {
            lemma_reports_empty(d0, source.spec_path(), "Layout/TrailingWhitespace"@, Severity::Convention, autocorrect);
            lemma_edits_empty(c0, "Layout/TrailingWhitespace"@);
        }
        let mut i: usize = 0;
        while i < rs.len()
            invariant
                i <= rs@.len(),
                grs == rs@.map_values(|x: (usize, usize)| (x.0 as int, x.1 as int)),
                grs == tw_ranges(source@, allow),
                bytes@ == source@,
                d0 == old(diagnostics)@,
                c0 == old(corrections)@,
                forall|j: int| 0 <= j < rs@.len() ==> (#[trigger] rs@[j]).0 <= rs@[j].1 <= source@.len(),
                extends_with_reports(
                    d0,
                    diagnostics@,
                    source.spec_path(),
                    "Layout/TrailingWhitespace"@,
                    Severity::Convention,
                    tw_offenses(source@, grs.subrange(0, i as int)),
                    autocorrect,
                ),
                autocorrect ==> extends_with_edits(
                    c0,
                    corrections@,
                    "Layout/TrailingWhitespace"@,
                    tw_edits(grs.subrange(0, i as int)),
                ),
                !autocorrect ==> corrections@ == c0,
            decreases rs@.len() - i,
        {
            let (start, end) = rs[i];
            let (line, col) = source.offset_to_line_col(start);
            let ghost dm = diagnostics@;
            let ghost cm = corrections@;
            push_offense(
                diagnostics,
                corrections,
                autocorrect,
                source,
                self.name(),
                Severity::Convention,
                line,
                col,
                "Trailing whitespace detected.".to_owned(),
                start,
                end,
                "",
            );
            proof {
                let pre = grs.subrange(0, i as int);
                assert(grs.subrange(0, i + 1) =~= pre.push(grs[i as int]));
                assert(tw_offenses(source@, pre.push(grs[i as int])) =~= tw_offenses(source@, pre).push(
                    (line as int, col as int, "Trailing whitespace detected."@),
                ));
                lemma_reports_push(
                    d0,
                    dm,
                    diagnostics@,
                    source.spec_path(),
                    "Layout/TrailingWhitespace"@,
                    Severity::Convention,
                    tw_offenses(source@, pre),
                    (line as int, col as int, "Trailing whitespace detected."@),
                    autocorrect,
                );
                if autocorrect {
                    assert(tw_edits(pre.push(grs[i as int])) =~= tw_edits(pre).push(
                        (start as int, end as int, Seq::<char>::empty()),
                    ));
                    reveal_strlit("");
                    assert(""@ =~= Seq::<char>::empty());
                    lemma_edits_push(
                        c0,
                        cm,
                        corrections@,
                        "Layout/TrailingWhitespace"@,
                        tw_edits(pre),
                        (start as int, end as int, Seq::<char>::empty()),
                    );
                }
            }
            i = i + 1;
        }
        assert(grs.subrange(0, rs@.len() as int) =~= grs);
    }
}

} // verus!
