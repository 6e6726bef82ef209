use crate::cop::report::{
    extends_with_edits, extends_with_reports, lemma_edits_empty, lemma_edits_push,
    lemma_reports_empty, lemma_reports_push, push_offense,
};
use crate::cop::util::{
    find_sub, find_sub_exec, is_valid_utf8, is_word, lemma_find_sub_bounds, spec_is_word,
    utrim_start, utrim_start_exec,
};
use crate::correction::Correction;
use crate::diagnostic::{Diagnostic, Severity};
use crate::parse::source::{lemma_line_end_bounds, line_end, line_of, SourceFile};
use vstd::prelude::*;
use vstd::utf8::valid_utf8;

verus! {

/// Gemspec/RubyVersionGlobalsUsage: a gemspec does not read `RUBY_VERSION`
/// (outside strings and comments).
pub struct RubyVersionGlobalsUsage;

pub open spec fn ruby_version_bytes() -> Seq<u8> {
    seq![82u8, 85u8, 66u8, 89u8, 95u8, 86u8, 69u8, 82u8, 83u8, 73u8, 79u8, 78u8]
}

/// The quoting state after reading `s[i..lim)` of a line that ends at `e`:
/// (in single quotes, in double quotes, interpolation depth).
pub open spec fn quote_state(
    s: Seq<u8>,
    i: int,
    lim: int,
    e: int,
    single: bool,
    double: bool,
    depth: nat,
) -> (bool, bool, nat)
    decreases lim + 1 - i,
{
    if i >= lim {
        (single, double, depth)
    } else if double && depth > 0 {
        let d = if s[i] == 123u8 {
            depth + 1
        } else if s[i] == 125u8 {
            (depth - 1) as nat
        } else {
            depth
        };
        quote_state(s, i + 1, lim, e, single, double, d)
    } else if s[i] == 39u8 && !double {
        quote_state(s, i + 1, lim, e, !single, double, depth)
    } else if s[i] == 34u8 && !single {
        quote_state(s, i + 1, lim, e, single, !double, depth)
    } else if s[i] == 92u8 && (single || double) {
        quote_state(s, i + 2, lim, e, single, double, depth)
    } else if s[i] == 35u8 && double && i + 1 < e && s[i + 1] == 123u8 {
        quote_state(s, i + 2, lim, e, single, double, 1)
    } else {
        quote_state(s, i + 1, lim, e, single, double, depth)
    }
}

/// Position `pos` of the line `s[p..e)` is inside a string literal (not in
/// an interpolation).
pub open spec fn is_inside_string(s: Seq<u8>, p: int, e: int, pos: int) -> bool {
    let st = quote_state(s, p, pos, e, false, false, 0);
    st.0 || (st.1 && st.2 == 0)
}

/// A use of `RUBY_VERSION` at `q` within the line `s[p..e)`: a whole word
/// outside strings.
pub open spec fn is_ruby_version_use(s: Seq<u8>, p: int, e: int, q: int) -> bool {
    (q == p || !spec_is_word(s[q - 1])) && (q + 12 >= e || !spec_is_word(s[q + 12]))
        && !is_inside_string(s, p, e, q)
}

/// The line `s[p..e)` is not read: it is not valid UTF-8, or a comment.
pub open spec fn skipped_line(s: Seq<u8>, p: int, e: int) -> bool {
    let t = utrim_start(s, p, e);
    !valid_utf8(s.subrange(p, e)) || (t < e && s[t] == 35u8)
}

/// The uses of `RUBY_VERSION` from position `from` of the line that starts
/// at `p` on, then in the following lines: (position, start of its line).
pub open spec fn uses_scan(s: Seq<u8>, p: int, from: int) -> Seq<(int, int)>
    decreases s.len() - p, line_end(s, p) - from,
{
    if p < 0 || p > s.len() || from < p || from > line_end(s, p) {
        Seq::empty()
    } else {
        let e = line_end(s, p);
        let q = if skipped_line(s, p, e) {
            -1
        } else {
            find_sub(s, from, e, ruby_version_bytes())
        };
        if q < from || q + 12 > e {
            if e < s.len() && e >= p {
                uses_scan(s, e + 1, e + 1)
            } else {
                Seq::empty()
            }
        } else if is_ruby_version_use(s, p, e, q) {
            seq![(q, p)] + uses_scan(s, p, q + 12)
        } else {
            uses_scan(s, p, q + 12)
        }
    }
}

/// The reports of the uses `us`, in order.
pub open spec fn use_offenses(s: Seq<u8>, us: Seq<(int, int)>) -> Seq<(int, int, Seq<char>)>
    decreases us.len(),
{
    if us.len() == 0 {
        Seq::empty()
    } else {
        use_offenses(s, us.drop_last()).push(use_offense(s, us.last()))
    }
}

/// The corrections of the uses `us`, in order.
pub open spec fn use_edits(us: Seq<(int, int)>) -> Seq<(int, int, Seq<char>)>
    decreases us.len(),
{
    if us.len() == 0 {
        Seq::empty()
    } else {
        use_edits(us.drop_last()).push(use_edit(us.last()))
    }
}

/// The report of a use: line, byte column within the line, message.
pub open spec fn use_offense(s: Seq<u8>, u: (int, int)) -> (int, int, Seq<char>) {
    (line_of(s, u.1) as int, u.0 - u.1, "Do not use `RUBY_VERSION` in gemspec."@)
}

/// The correction of a use: the constant replaced by `'0.0.0'`.
pub open spec fn use_edit(u: (int, int)) -> (int, int, Seq<char>) {
    (u.0, u.0 + 12, "'0.0.0'"@)
}


fn is_inside_string_exec(bytes: &[u8], p: usize, e: usize, pos: usize) -> (r: bool)
    requires
        p <= pos <= e <= bytes@.len(),
        bytes@.len() < usize::MAX,
    ensures
        r == is_inside_string(bytes@, p as int, e as int, pos as int),
{
    let mut single = false;
    let mut double = false;
    let mut depth: usize = 0;
    let mut i = p;
    while i < pos
        invariant
            p <= i <= pos + 1,
            pos <= e <= bytes@.len(),
            bytes@.len() < usize::MAX,
            depth <= i,
            quote_state(bytes@, p as int, pos as int, e as int, false, false, 0) == quote_state(
                bytes@,
                i as int,
                pos as int,
                e as int,
                single,
                double,
                depth as nat,
            ),
        decreases pos + 1 - i,
    {
        let c = bytes[i];
        if double && depth > 0 {
            if c == 123u8 {
                depth = depth + 1;
            } else if c == 125u8 {
                depth = depth - 1;
            }
            i = i + 1;
        } else if c == 39u8 && !double {
            single = !single;
            i = i + 1;
        } else if c == 34u8 && !single {
            double = !double;
            i = i + 1;
        } else if c == 92u8 && (single || double) {
            i = i + 2;
        } else if c == 35u8 && double && i + 1 < e && bytes[i + 1] == 123u8 {
            depth = 1;
            i = i + 2;
        } else {
            i = i + 1;
        }
    }
    single || (double && depth == 0)
}

impl RubyVersionGlobalsUsage {
    pub fn name(&self) -> (r: &'static str)
        ensures
            r@ == "Gemspec/RubyVersionGlobalsUsage"@,
    {
        "Gemspec/RubyVersionGlobalsUsage"
    }

    pub fn default_severity(&self) -> (r: Severity)
        ensures
            r == Severity::Convention,
    {
        Severity::Convention
    }

    pub fn supports_autocorrect(&self) -> (r: bool)
        ensures
            r == true,
    {
        true
    }

    /// File patterns the cop applies to unless configured otherwise.
    pub fn default_include(&self) -> (r: Vec<&'static str>)
        ensures
            r@.len() == 1,
            r@[0]@ == "**/*.gemspec"@,
    {
        vec!["**/*.gemspec"]
    }

    /// Checks a gemspec line by line: one report per use of `RUBY_VERSION`
    /// and, with `autocorrect`, the constant replaced by `'0.0.0'`.
    pub fn check_lines(
        &self,
        source: &SourceFile,
        diagnostics: &mut Vec<Diagnostic>,
        corrections: &mut Vec<Correction>,
        autocorrect: bool,
    )
        ensures
            extends_with_reports(
                old(diagnostics)@,
                final(diagnostics)@,
                source.spec_path(),
                "Gemspec/RubyVersionGlobalsUsage"@,
                Severity::Convention,
                use_offenses(source@, uses_scan(source@, 0, 0)),
                autocorrect,
            ),
            autocorrect ==> extends_with_edits(
                old(corrections)@,
                final(corrections)@,
                "Gemspec/RubyVersionGlobalsUsage"@,
                use_edits(uses_scan(source@, 0, 0)),
            ),
            !autocorrect ==> final(corrections)@ == old(corrections)@,
    {
        let cop = "Gemspec/RubyVersionGlobalsUsage";
        let pat: Vec<u8> = vec![82u8, 85u8, 66u8, 89u8, 95u8, 86u8, 69u8, 82u8, 83u8, 73u8, 79u8, 78u8];
        let ghost path = source.spec_path();
        let bytes = source.as_bytes();
        let ghost s = bytes@;
        let n = bytes.len();
        proof {
            lemma_reports_empty(diagnostics@, path, cop@, Severity::Convention, autocorrect);
            lemma_edits_empty(corrections@, cop@);
        }
        let ghost mut acc = Seq::<(int, int)>::empty();
        let mut p: usize = 0;
        let mut e = crate::cop::util::line_end_exec(bytes, 0);
        let mut skip = {
            let t = utrim_start_exec(bytes, 0, e);
            !is_valid_utf8(vstd::slice::slice_subrange(bytes, 0, e)) || (t < e && bytes[t] == 35u8)
        };
        let (mut line, _) = source.offset_to_line_col(0);
        let mut from: usize = 0;
        loop
            invariant
                n == s.len(),
                s == bytes@,
                s == source@,
                s.len() < usize::MAX,
                path == source.spec_path(),
                cop@ == "Gemspec/RubyVersionGlobalsUsage"@,
                pat@ == ruby_version_bytes(),
                p <= from <= e <= n,
                e == line_end(s, p as int),
                skip == skipped_line(s, p as int, e as int),
                line == line_of(s, p as int),
                acc + uses_scan(s, p as int, from as int) == uses_scan(s, 0, 0),
                extends_with_reports(
                    old(diagnostics)@,
                    diagnostics@,
                    path,
                    cop@,
                    Severity::Convention,
                    use_offenses(s, acc),
                    autocorrect,
                ),
                autocorrect ==> extends_with_edits(
                    old(corrections)@,
                    corrections@,
                    cop@,
                    use_edits(acc),
                ),
                !autocorrect ==> corrections@ == old(corrections)@,
            decreases n - p, e - from,
        {
            let found = if skip {
                None
            } else {
                find_sub_exec(bytes, from, e, pat.as_slice())
            };
            match found {
                Some(q) => {
                    let before_ok = q == p || !is_word(bytes[q - 1]);
                    let after_ok = q + 12 >= e || !is_word(bytes[q + 12]);
                    if before_ok && after_ok && !is_inside_string_exec(bytes, p, e, q) {
                        let ghost u = (q as int, p as int);
                        let ghost d0 = diagnostics@;
                        let ghost c0 = corrections@;
                        push_offense(
                            diagnostics,
                            corrections,
                            autocorrect,
                            source,
                            cop,
                            Severity::Convention,
                            line,
                            q - p,
                            "Do not use `RUBY_VERSION` in gemspec.".to_owned(),
                            q,
                            q + 12,
                            "'0.0.0'",
                        );
                        proof {
                            lemma_reports_push(
                                old(diagnostics)@,
                                d0,
                                diagnostics@,
                                path,
                                cop@,
                                Severity::Convention,
                                use_offenses(s, acc),
                                use_offense(s, u),
                                autocorrect,
                            );
                            if autocorrect {
                                lemma_edits_push(old(corrections)@, c0, corrections@, cop@, use_edits(acc), use_edit(u));
                            }
                            assert(acc.push(u).drop_last() =~= acc);
                            assert(acc.push(u) + uses_scan(s, p as int, q + 12) =~= acc + (seq![u] + uses_scan(s, p as int, q + 12)));
                            acc = acc.push(u);
                        }
                    }
                    from = q + 12;
                },
                None => {
                    if e >= n {
                        proof {
                            assert(uses_scan(s, p as int, from as int) =~= Seq::<(int, int)>::empty());
                            assert(acc + Seq::<(int, int)>::empty() =~= acc);
                        }
                        return;
                    }
                    proof {
                        lemma_line_end_bounds(s, p as int);
                    }
                    p = e + 1;
                    from = p;
                    e = crate::cop::util::line_end_exec(bytes, p);
                    let t = utrim_start_exec(bytes, p, e);
                    skip = !is_valid_utf8(vstd::slice::slice_subrange(bytes, p, e)) || (t < e
                        && bytes[t] == 35u8);
                    let (l, _) = source.offset_to_line_col(p);
                    line = l;
                },
            }
        }
    }
}

} // verus!
