use crate::cop::config::{spec_get_bool, CopConfig};
use crate::cop::report::{extends_with_reports, lemma_reports_empty, lemma_reports_push};
use crate::cop::util::{
    find_byte, find_byte_exec, find_sub, find_sub_exec, is_alnum, is_valid_utf8, line_end_exec,
    lemma_find_sub_bounds, lossy_text, lowercase_of, lowercase_text, push_char, spec_is_alnum,
    starts_with_at, starts_with_at_exec, text_of, utrim_end, utrim_end_exec, utrim_start,
    utrim_start_exec, ws_len_at, ws_len_at_exec,
};
use crate::diagnostic::{new_diagnostic, Diagnostic, Severity};
use crate::parse::source::{line_end, SourceFile};
use vstd::prelude::*;
use vstd::utf8::valid_utf8;

verus! {

/// Gems listed in alphabetical order within each section of a Gemfile.
pub struct OrderedGems;

/// Where the code of the line `[a, b)` ends: at its first `#` outside quotes.
pub open spec fn code_end(s: Seq<u8>, i: int, b: int, sq: bool, dq: bool) -> int
    decreases b - i,
{
    if i >= b {
        b
    } else {
        let ch = s[i];
        if sq {
            code_end(s, i + 1, b, ch != 39u8, dq)
        } else if dq {
            if ch == 92u8 {
                if i + 2 >= b {
                    b
                } else {
                    code_end(s, i + 2, b, sq, dq)
                }
            } else {
                code_end(s, i + 1, b, sq, ch != 34u8)
            }
        } else if ch == 39u8 {
            code_end(s, i + 1, b, true, dq)
        } else if ch == 34u8 {
            code_end(s, i + 1, b, sq, true)
        } else if ch == 35u8 {
            i
        } else {
            code_end(s, i + 1, b, sq, dq)
        }
    }
}

/// The quoted name that follows `gem` at `a` (after white space or `(`),
/// within `[a, c)`: where it lies.
pub open spec fn gem_arg(s: Seq<u8>, a: int, c: int) -> Option<(int, int)> {
    if a >= c || !(ws_len_at(s, a, c) > 0 || s[a] == 40u8) {
        None
    } else {
        let r1 = utrim_start(s, a, c);
        let r2 = if r1 < c && s[r1] == 40u8 {
            utrim_start(s, r1 + 1, c)
        } else {
            r1
        };
        if r2 >= c || !(s[r2] == 39u8 || s[r2] == 34u8) {
            None
        } else {
            let e = find_byte(s, s[r2], r2 + 1, c);
            if e < 0 {
                None
            } else {
                Some((r2 + 1, e))
            }
        }
    }
}

/// The name of the first `gem 'name'` call found from `i` on in the code
/// `[p, c)` of a line: `gem` as a word of its own, then the quoted name.
pub open spec fn find_gem(s: Seq<u8>, p: int, i: int, c: int) -> Option<(int, int)>
    decreases c - i,
{
    if i + 3 > c {
        None
    } else {
        let pos = find_sub(s, i, c, seq![103u8, 101u8, 109u8]);
        if pos < i || pos + 3 > c {
            None
        } else if pos > p && (spec_is_alnum(s[pos - 1]) || s[pos - 1] == 95u8) {
            find_gem(s, p, pos + 3, c)
        } else {
            match gem_arg(s, pos + 3, c) {
                Some(x) => Some(x),
                None => find_gem(s, p, pos + 3, c),
            }
        }
    }
}

/// The literal gem name declared on the line `[p, e)`.
pub open spec fn line_gem(s: Seq<u8>, p: int, e: int) -> Option<(int, int)> {
    find_gem(s, p, p, code_end(s, p, e, false, false))
}

/// The trimmed line `[a, b)` continues a declaration begun above: it starts
/// with a quote or a colon, or with a word followed by a colon.
pub open spec fn is_continuation(s: Seq<u8>, a: int, b: int) -> bool {
    if a < b && (s[a] == 39u8 || s[a] == 34u8 || s[a] == 58u8) {
        true
    } else {
        let colon = find_byte(s, 58u8, a, b);
        colon > a && forall|q: int| a <= q < colon ==> (spec_is_alnum(#[trigger] s[q]) || s[q] == 95u8)
    }
}

/// The text without `-` and `_`.
pub open spec fn without_punctuation(l: Seq<char>) -> Seq<char>
    decreases l.len(),
{
    if l.len() == 0 {
        l
    } else {
        let r = without_punctuation(l.drop_last());
        if l.last() != '-' && l.last() != '_' {
            r.push(l.last())
        } else {
            r
        }
    }
}

/// The key gems are sorted by: the lower-cased name, without `-` and `_`
/// unless punctuation counts.
pub open spec fn sort_key(name: Seq<char>, punctuation: bool) -> Seq<char> {
    let l = lowercase_text(name);
    if punctuation {
        l
    } else {
        without_punctuation(l)
    }
}

/// `a` sorts before `b`, character by character.
pub open spec fn text_less(a: Seq<char>, b: Seq<char>) -> bool
    decreases a.len(),
{
    if b.len() == 0 {
        false
    } else if a.len() == 0 {
        true
    } else if a[0] != b[0] {
        (a[0] as u32) < (b[0] as u32)
    } else {
        text_less(a.drop_first(), b.drop_first())
    }
}

/// What the scan carries from line to line: the last gem of the current
/// section (its name and key), and whether it is inside `=begin`/`=end`.
pub struct GemState {
    pub prev: Option<(Seq<char>, Seq<char>)>,
    pub in_block: bool,
}

pub open spec fn prev_view(p: Option<(String, String)>) -> Option<(Seq<char>, Seq<char>)> {
    match p {
        Some((a, b)) => Some((a@, b@)),
        None => None,
    }
}

pub open spec fn order_message(name: Seq<char>, prev: Seq<char>) -> Seq<char> {
    "Gems should be sorted in an alphabetical order within their section of the Gemfile. Gem `"@
        + name + "` should appear before `"@ + prev + "`."@
}

/// One line `[p, e)`, number `line`: the state after it, and its offense. Blank
/// lines, `=begin`/`=end` blocks, comments (when they separate groups) and
/// other statements end a section; continuation lines do not.
pub open spec fn order_step(
    s: Seq<u8>,
    p: int,
    e: int,
    line: int,
    st: GemState,
    comments_separate: bool,
    punctuation: bool,
) -> (GemState, Option<(int, int, Seq<char>)>) {
    let valid = valid_utf8(s.subrange(p, e));
    let ta = if valid { utrim_start(s, p, e) } else { e };
    let tb = if valid { utrim_end(s, ta, e) } else { e };
    if st.in_block {
        if starts_with_at(s, ta, tb, seq![61u8, 101u8, 110u8, 100u8]) {
            (GemState { prev: None, in_block: false }, None)
        } else {
            (st, None)
        }
    } else if starts_with_at(s, ta, tb, seq![61u8, 98u8, 101u8, 103u8, 105u8, 110u8]) {
        (GemState { prev: None, in_block: true }, None)
    } else if ta >= tb {
        (GemState { prev: None, in_block: false }, None)
    } else if s[ta] == 35u8 {
        (if comments_separate { GemState { prev: None, in_block: false } } else { st }, None)
    } else {
        match line_gem(s, p, e) {
            Some((a, b)) => {
                let name = lossy_text(s.subrange(a, b));
                let key = sort_key(name, punctuation);
                (
                    GemState { prev: Some((name, key)), in_block: false },
                    match st.prev {
                        Some((pn, pk)) => if text_less(key, pk) {
                            Some((line, ta - p, order_message(name, pn)))
                        } else {
                            None
                        },
                        None => None,
                    },
                )
            },
            None => if is_continuation(s, ta, tb) {
                (st, None)
            } else {
                (GemState { prev: None, in_block: false }, None)
            },
        }
    }
}

/// The offenses of the lines from the one that starts at `p` (number `line`)
/// on, in state `st`.
pub open spec fn order_offenses(
    s: Seq<u8>,
    p: int,
    line: int,
    st: GemState,
    comments_separate: bool,
    punctuation: bool,
) -> Seq<(int, int, Seq<char>)>
    decreases s.len() - p,
{
    if p < 0 || p > s.len() {
        Seq::empty()
    } else {
        let e = line_end(s, p);
        let (st2, o) = order_step(s, p, e, line, st, comments_separate, punctuation);
        let here = match o {
            Some(x) => seq![x],
            None => Seq::empty(),
        };
        if e < s.len() && e >= p {
            here + order_offenses(s, e + 1, line + 1, st2, comments_separate, punctuation)
        } else {
            here
        }
    }
}

fn code_end_exec(bytes: &[u8], a: usize, b: usize) -> (r: usize)
    requires
        a <= b <= bytes@.len(),
    ensures
        r == code_end(bytes@, a as int, b as int, false, false),
        a <= r <= b,
{
    let mut i = a;
    let mut sq = false;
    let mut dq = false;
    while i < b
        invariant
            a <= i <= b + 1,
            b <= bytes@.len(),
            code_end(bytes@, a as int, b as int, false, false) == code_end(bytes@, i as int, b as int, sq, dq),
        decreases b + 1 - i,
    {
        let ch = bytes[i];
        if sq {
            sq = ch != 39u8;
            i = i + 1;
        } else if dq {
            if ch == 92u8 {
                if b - i <= 2 {
                    return b;
                }
                i = i + 2;
            } else {
                dq = ch != 34u8;
                i = i + 1;
            }
        } else if ch == 39u8 {
            sq = true;
            i = i + 1;
        } else if ch == 34u8 {
            dq = true;
            i = i + 1;
        } else if ch == 35u8 {
            return i;
        } else {
            i = i + 1;
        }
    }
    b
}

pub(crate) fn gem_arg_exec(bytes: &[u8], a: usize, c: usize) -> (r: Option<(usize, usize)>)
    requires
        a <= c <= bytes@.len(),
    ensures
        match gem_arg(bytes@, a as int, c as int) {
            Some((x, y)) => r == Some((x as usize, y as usize)) && a <= x <= y <= c,
            None => r is None,
        },
{
    if a >= c || !(ws_len_at_exec(bytes, a, c) > 0 || bytes[a] == 40u8) {
        return None;
    }
    let r1 = utrim_start_exec(bytes, a, c);
    let r2 = if r1 < c && bytes[r1] == 40u8 {
        utrim_start_exec(bytes, r1 + 1, c)
    } else {
        r1
    };
    if r2 >= c || !(bytes[r2] == 39u8 || bytes[r2] == 34u8) {
        return None;
    }
    match find_byte_exec(bytes, bytes[r2], r2 + 1, c) {
        Some(e) => Some((r2 + 1, e)),
        None => None,
    }
}

fn find_gem_exec(bytes: &[u8], p: usize, c: usize) -> (r: Option<(usize, usize)>)
    requires
        p <= c <= bytes@.len(),
    ensures
        match find_gem(bytes@, p as int, p as int, c as int) {
            Some((x, y)) => r == Some((x as usize, y as usize)) && p <= x <= y <= c,
            None => r is None,
        },
{
    let gem = vec![103u8, 101u8, 109u8];
    assert(gem@ =~= seq![103u8, 101u8, 109u8]);
    let mut i = p;
    while i <= c && c - i >= 3
        invariant
            p <= i,
            c <= bytes@.len(),
            gem@ == seq![103u8, 101u8, 109u8],
            find_gem(bytes@, p as int, p as int, c as int) == find_gem(bytes@, p as int, i as int, c as int),
        decreases c + 3 - i,
    {
        assert(i + 3 <= c);
        let pos = match find_sub_exec(bytes, i, c, gem.as_slice()) {
            Some(q) => q,
            None => {
                return None;
            },
        };
        if pos > p && (is_alnum(bytes[pos - 1]) || bytes[pos - 1] == 95u8) {
            i = pos + 3;
        } else {
            match gem_arg_exec(bytes, pos + 3, c) {
                Some(x) => {
                    return Some(x);
                },
                None => {
                    i = pos + 3;
                },
            }
        }
    }
    None
}

fn is_continuation_exec(bytes: &[u8], a: usize, b: usize) -> (r: bool)
    requires
        a <= b <= bytes@.len(),
    ensures
        r == is_continuation(bytes@, a as int, b as int),
{
    if a < b && (bytes[a] == 39u8 || bytes[a] == 34u8 || bytes[a] == 58u8) {
        return true;
    }
    match find_byte_exec(bytes, 58u8, a, b) {
        Some(colon) => {
            if colon <= a {
                return false;
            }
            let mut q = a;
            while q < colon
                invariant
                    a <= q <= colon <= b <= bytes@.len(),
                    find_byte(bytes@, 58u8, a as int, b as int) == colon as int,
                    colon > a,
                    !(a < b && (bytes@[a as int] == 39u8 || bytes@[a as int] == 34u8 || bytes@[a as int] == 58u8)),
                    forall|j: int| a <= j < q ==> (spec_is_alnum(#[trigger] bytes@[j]) || bytes@[j] == 95u8),
                decreases colon - q,
            {
                if !(is_alnum(bytes[q]) || bytes[q] == 95u8) {
                    assert(!(spec_is_alnum(bytes@[q as int]) || bytes@[q as int] == 95u8));
                    return false;
                }
                q = q + 1;
            }
            true
        },
        None => false,
    }
}

fn sort_key_exec(name: &String, punctuation: bool) -> (r: String)
    ensures
        r@ == sort_key(name@, punctuation),
{
    let l = lowercase_of(name.as_str());
    if punctuation {
        return l;
    }
    let n = l.as_str().unicode_len();
    let mut out = String::new();
    assert(out@ =~= Seq::<char>::empty());
    let mut i: usize = 0;
    while i < n
        invariant
            i <= n == l@.len(),
            out@ == without_punctuation(l@.subrange(0, i as int)),
        decreases n - i,
    {
        let c = l.as_str().get_char(i);
        assert(l@.subrange(0, i + 1).drop_last() =~= l@.subrange(0, i as int));
        if c != '-' && c != '_' {
            push_char(&mut out, c);
        }
        i = i + 1;
    }
    assert(l@.subrange(0, n as int) =~= l@);
    out
}

fn text_less_exec(a: &String, b: &String) -> (r: bool)
    ensures
        r == text_less(a@, b@),
{
    let na = a.as_str().unicode_len();
    let nb = b.as_str().unicode_len();
    let mut i: usize = 0;
    assert(a@.subrange(0, na as int) =~= a@);
    assert(b@.subrange(0, nb as int) =~= b@);
    while i < na && i < nb
        invariant
            na == a@.len(),
            nb == b@.len(),
            i <= na,
            i <= nb,
            text_less(a@, b@) == text_less(a@.subrange(i as int, na as int), b@.subrange(i as int, nb as int)),
        decreases na - i,
    {
        let ca = a.as_str().get_char(i);
        let cb = b.as_str().get_char(i);
        let ghost ra = a@.subrange(i as int, na as int);
        let ghost rb = b@.subrange(i as int, nb as int);
        assert(ra[0] == ca);
        assert(rb[0] == cb);
        if ca != cb {
            return (ca as u32) < (cb as u32);
        }
        assert(ra.drop_first() =~= a@.subrange(i + 1, na as int));
        assert(rb.drop_first() =~= b@.subrange(i + 1, nb as int));
        i = i + 1;
    }
    i == na && i < nb
}

impl OrderedGems {
    pub fn name(&self) -> (r: &'static str)
        ensures
            r@ == "Bundler/OrderedGems"@,
    {
        "Bundler/OrderedGems"
    }

    /// File patterns the cop applies to unless configured otherwise.
    pub fn default_include(&self) -> (r: Vec<&'static str>)
        ensures
            r@.len() == 3,
            r@[0]@ == "**/*.gemfile"@,
            r@[1]@ == "**/Gemfile"@,
            r@[2]@ == "**/gems.rb"@,
    {
        vec!["**/*.gemfile", "**/Gemfile", "**/gems.rb"]
    }

    /// Checks the lines of a Gemfile; options `TreatCommentsAsGroupSeparators`
    /// (default on) and `ConsiderPunctuation` (default off).
    pub fn check_lines(&self, source: &SourceFile, config: &CopConfig, diagnostics: &mut Vec<Diagnostic>)
        ensures
            extends_with_reports(
                old(diagnostics)@,
                final(diagnostics)@,
                source.spec_path(),
                "Bundler/OrderedGems"@,
                Severity::Convention,
                order_offenses(
                    source@,
                    0,
                    1,
                    GemState { prev: None, in_block: false },
                    spec_get_bool(config.options@, "TreatCommentsAsGroupSeparators"@, true),
                    spec_get_bool(config.options@, "ConsiderPunctuation"@, false),
                ),
                false,
            ),
    {
        let separate = config.get_bool("TreatCommentsAsGroupSeparators", true);
        let punctuation = config.get_bool("ConsiderPunctuation", false);
        let bytes = source.as_bytes();
        let n = bytes.len();
        let ghost s = bytes@;
        let ghost total = order_offenses(s, 0, 1, GemState { prev: None, in_block: false }, separate, punctuation);
        proof {
            lemma_reports_empty(diagnostics@, source.spec_path(), "Bundler/OrderedGems"@, Severity::Convention, false);
        }
        let mut prev: Option<(String, String)> = None;
        let mut in_block = false;
        let mut p: usize = 0;
        let mut before: usize = 0;
        let ghost mut acc = Seq::<(int, int, Seq<char>)>::empty();
        let begin_bytes = vec![61u8, 98u8, 101u8, 103u8, 105u8, 110u8];
        let end_bytes = vec![61u8, 101u8, 110u8, 100u8];
        assert(begin_bytes@ =~= seq![61u8, 98u8, 101u8, 103u8, 105u8, 110u8]);
        assert(end_bytes@ =~= seq![61u8, 101u8, 110u8, 100u8]);
        loop
            invariant_except_break
                acc + order_offenses(
                    s,
                    p as int,
                    before + 1,
                    GemState { prev: prev_view(prev), in_block },
                    separate,
                    punctuation,
                ) == total,
            invariant
                p <= n == s.len(),
                s == bytes@,
                s == source@,
                before <= p,
                begin_bytes@ == seq![61u8, 98u8, 101u8, 103u8, 105u8, 110u8],
                end_bytes@ == seq![61u8, 101u8, 110u8, 100u8],
                total == order_offenses(s, 0, 1, GemState { prev: None, in_block: false }, separate, punctuation),
                extends_with_reports(
                    old(diagnostics)@,
                    diagnostics@,
                    source.spec_path(),
                    "Bundler/OrderedGems"@,
                    Severity::Convention,
                    acc,
                    false,
                ),
            ensures
                extends_with_reports(
                    old(diagnostics)@,
                    diagnostics@,
                    source.spec_path(),
                    "Bundler/OrderedGems"@,
                    Severity::Convention,
                    total,
                    false,
                ),
            decreases n - p,
        {
            let ghost st = GemState { prev: prev_view(prev), in_block };
            let e = line_end_exec(bytes, p);
            let valid = is_valid_utf8(vstd::slice::slice_subrange(bytes, p, e));
            let ta = if valid {
                utrim_start_exec(bytes, p, e)
            } else {
                e
            };
            let tb = if valid {
                utrim_end_exec(bytes, ta, e)
            } else {
                e
            };
            let ghost step = order_step(s, p as int, e as int, before + 1, st, separate, punctuation);
            let ghost here = match step.1 {
                Some(x) => seq![x],
                None => Seq::empty(),
            };
            assert(order_offenses(s, p as int, before + 1, st, separate, punctuation) == if e < n {
                here + order_offenses(s, e + 1, before + 2, step.0, separate, punctuation)
            } else {
                here
            });
            let mut offense: Option<(usize, usize, String)> = None;
            if in_block {
                if starts_with_at_exec(bytes, ta, tb, end_bytes.as_slice()) {
                    in_block = false;
                    prev = None;
                }
            } else if starts_with_at_exec(bytes, ta, tb, begin_bytes.as_slice()) {
                in_block = true;
                prev = None;
            } else if ta >= tb {
                prev = None;
            } else if bytes[ta] == 35u8 {
                if separate {
                    prev = None;
                }
            } else {
                let c = code_end_exec(bytes, p, e);
                match find_gem_exec(bytes, p, c) {
                    Some((a, b)) => {
                        let name = text_of(vstd::slice::slice_subrange(bytes, a, b));
                        let key = sort_key_exec(&name, punctuation);
                        match &prev {
                            Some((pn, pk)) => {
                                if text_less_exec(&key, pk) {
                                    let mut msg =
                                        "Gems should be sorted in an alphabetical order within their section of the Gemfile. Gem `".to_owned();
                                    msg.append(name.as_str());
                                    msg.append("` should appear before `");
                                    msg.append(pn.as_str());
                                    msg.append("`.");
                                    offense = Some((before + 1, ta - p, msg));
                                }
                            },
                            None => {},
                        }
                        prev = Some((name, key));
                    },
                    None => {
                        if !is_continuation_exec(bytes, ta, tb) {
                            prev = None;
                        }
                    },
                }
            }
            let ghost st2 = GemState { prev: prev_view(prev), in_block };
            assert(st2 == step.0);
            match offense {
                Some((l, col, msg)) => {
                    assert(step.1 == Some((l as int, col as int, msg@)));
                    let ghost m = msg@;
                    let d = new_diagnostic(source, "Bundler/OrderedGems", Severity::Convention, l, col, msg);
                    let ghost before = diagnostics@;
                    diagnostics.push(d);
                    proof {
                        assert(diagnostics@.drop_last() =~= before);
                        lemma_reports_push(
                            old(diagnostics)@,
                            before,
                            diagnostics@,
                            source.spec_path(),
                            "Bundler/OrderedGems"@,
                            Severity::Convention,
                            acc,
                            (l as int, col as int, m),
                            false,
                        );
                        acc = acc.push((l as int, col as int, m));
                        assert(here == seq![(l as int, col as int, m)]);
                    }
                },
                None => {
                    assert(step.1 is None);
                    assert(here =~= Seq::<(int, int, Seq<char>)>::empty());
                },
            }
            if e >= n {
                proof {
                    assert(acc =~= total);
                }
                break;
            }
            proof {
                assert(acc + order_offenses(s, e + 1, before + 2, step.0, separate, punctuation) =~= total);
            }
            p = e + 1;
            before = before + 1;
        }
    }
}

} // verus!
