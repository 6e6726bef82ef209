use crate::cop::bundler::ordered_gems::{gem_arg, gem_arg_exec};
use crate::cop::config::{spec_get_list, spec_get_str, CopConfig};
use crate::cop::lint::duplicate_methods::string_views;
use crate::cop::report::{extends_with_reports, lemma_reports_empty, lemma_reports_push};
use crate::cop::util::{
    find_byte, find_byte_exec, find_sub, find_sub_exec, is_digit, is_valid_utf8, line_end_exec, lossy_text,
    spec_is_digit, starts_with_at, starts_with_at_exec, string_is, text_of, utrim_end, utrim_end_exec,
    utrim_start, utrim_start_exec,
};
use crate::diagnostic::{new_diagnostic, Diagnostic, Severity};
use crate::parse::source::{line_end, SourceFile};
use vstd::prelude::*;
use vstd::utf8::valid_utf8;

verus! {

/// Gem declarations in a Gemfile with (or, by style, without) a version
/// specification.
pub struct GemVersion;

pub open spec fn gem_bytes() -> Seq<u8> {
    seq![103u8, 101u8, 109u8]
}

/// The name declared by a line `[p, e)` that starts (after indentation)
/// with `gem` and a quoted name; none for a line that is not valid UTF-8.
pub open spec fn line_gem_name(s: Seq<u8>, p: int, e: int) -> Option<(int, int)> {
    if !valid_utf8(s.subrange(p, e)) {
        None
    } else {
        let ta = utrim_start(s, p, e);
        if starts_with_at(s, ta, e, gem_bytes()) {
            gem_arg(s, ta + 3, e)
        } else {
            None
        }
    }
}

/// First quote (`'` or `"`) in `[a, b)`, or -1.
pub open spec fn find_quote(s: Seq<u8>, a: int, b: int) -> int
    decreases b - a,
{
    if a >= b {
        -1
    } else if s[a] == 39u8 || s[a] == 34u8 {
        a
    } else {
        find_quote(s, a + 1, b)
    }
}

/// `[a, b)` with every leading repetition of `pat` removed: where it starts.
pub open spec fn strip_all(s: Seq<u8>, a: int, b: int, pat: Seq<u8>) -> int
    decreases b - a,
{
    if pat.len() > 0 && starts_with_at(s, a, b, pat) {
        strip_all(s, a + pat.len(), b, pat)
    } else {
        a
    }
}

/// The text `[a, b)` is a version: trimmed, without leading `~>`, `>=`, `<=`,
/// `!=`, `>`, `<` and `=` (each removed as often as it repeats, in this
/// order), it starts with a digit.
pub open spec fn is_version_text(s: Seq<u8>, a: int, b: int) -> bool {
    let a1 = utrim_start(s, a, b);
    let b1 = utrim_end(s, a1, b);
    let a2 = strip_all(s, a1, b1, seq![126u8, 62u8]);
    let a3 = strip_all(s, a2, b1, seq![62u8, 61u8]);
    let a4 = strip_all(s, a3, b1, seq![60u8, 61u8]);
    let a5 = strip_all(s, a4, b1, seq![33u8, 61u8]);
    let a6 = strip_all(s, a5, b1, seq![62u8]);
    let a7 = strip_all(s, a6, b1, seq![60u8]);
    let a8 = strip_all(s, a7, b1, seq![61u8]);
    let a9 = utrim_start(s, a8, b1);
    a9 < b1 && spec_is_digit(s[a9])
}

/// The keywords that give a source in place of a version.
pub open spec fn source_keyword(k: int) -> Seq<u8> {
    if k == 0 {
        seq![103u8, 105u8, 116u8, 58u8]
    } else if k == 1 {
        seq![103u8, 105u8, 116u8, 104u8, 117u8, 98u8, 58u8]
    } else if k == 2 {
        seq![98u8, 114u8, 97u8, 110u8, 99u8, 104u8, 58u8]
    } else if k == 3 {
        seq![114u8, 101u8, 102u8, 58u8]
    } else {
        seq![116u8, 97u8, 103u8, 58u8]
    }
}

/// One of `git:`, `github:`, `branch:`, `ref:`, `tag:` occurs in `[a, b)`.
pub open spec fn names_source(s: Seq<u8>, a: int, b: int) -> bool {
    exists|k: int| 0 <= k < 5 && #[trigger] find_sub(s, a, b, source_keyword(k)) >= 0
}

/// The declaration on line `[p, e)` specifies a version or a source: after
/// the quoted name come a comma and either a source keyword anywhere in the
/// rest, or a quoted version first.
pub open spec fn has_version_or_source(s: Seq<u8>, p: int, e: int) -> bool {
    let ta = utrim_start(s, p, e);
    let tb = utrim_end(s, ta, e);
    let q1 = find_quote(s, ta, tb);
    if q1 < 0 {
        false
    } else {
        let close = find_byte(s, s[q1], q1 + 1, tb);
        if close < 0 {
            false
        } else {
            let r1 = utrim_start(s, close + 1, tb);
            if r1 >= tb || s[r1] != 44u8 {
                false
            } else {
                let r2 = utrim_start(s, r1 + 1, tb);
                if names_source(s, r2, tb) {
                    true
                } else if r2 < tb && (s[r2] == 39u8 || s[r2] == 34u8) {
                    let end = find_byte(s, s[r2], r2 + 1, tb);
                    end >= 0 && is_version_text(s, r2 + 1, end)
                } else {
                    false
                }
            }
        }
    }
}

/// The offense of line `[p, e)`, number `line`: a declared gem not among the
/// allowed ones, without a version under style `required`, with one under
/// style `forbidden`.
pub open spec fn version_line_offense(
    s: Seq<u8>,
    p: int,
    e: int,
    line: int,
    style: Seq<char>,
    allowed: Seq<Seq<char>>,
) -> Option<(int, int, Seq<char>)> {
    match line_gem_name(s, p, e) {
        Some((a, b)) => if allowed.contains(lossy_text(s.subrange(a, b))) {
            None
        } else if style == "required"@ && !has_version_or_source(s, p, e) {
            Some((line, 0, "Gem version specification is required."@))
        } else if style == "forbidden"@ && has_version_or_source(s, p, e) {
            Some((line, 0, "Gem version specification is forbidden."@))
        } else {
            None
        },
        None => None,
    }
}

/// The offenses of the lines from the one that starts at `p` (number `line`) on.
pub open spec fn version_offenses(s: Seq<u8>, p: int, line: int, style: Seq<char>, allowed: Seq<Seq<char>>) -> Seq<
    (int, int, Seq<char>),
>
    decreases s.len() - p,
{
    if p < 0 || p > s.len() {
        Seq::empty()
    } else {
        let e = line_end(s, p);
        let here = match version_line_offense(s, p, e, line, style, allowed) {
            Some(x) => seq![x],
            None => Seq::empty(),
        };
        if e < s.len() && e >= p {
            here + version_offenses(s, e + 1, line + 1, style, allowed)
        } else {
            here
        }
    }
}

/// The gems allowed to go without the style: option `AllowedGems`.
pub open spec fn allowed_gems(config: CopConfig) -> Seq<Seq<char>> {
    match spec_get_list(config.options@, "AllowedGems"@) {
        Some(l) => l,
        None => Seq::empty(),
    }
}

fn line_gem_name_exec(bytes: &[u8], p: usize, e: usize) -> (r: Option<(usize, usize)>)
    requires
        p <= e <= bytes@.len(),
    ensures
        match line_gem_name(bytes@, p as int, e as int) {
            Some((a, b)) => r == Some((a as usize, b as usize)) && p <= a <= b <= e,
            None => r is None,
        },
{
    if !is_valid_utf8(vstd::slice::slice_subrange(bytes, p, e)) {
        return None;
    }
    let ta = utrim_start_exec(bytes, p, e);
    let g: Vec<u8> = vec![103u8, 101u8, 109u8];
    assert(g@ =~= gem_bytes());
    if starts_with_at_exec(bytes, ta, e, g.as_slice()) {
        gem_arg_exec(bytes, ta + 3, e)
    } else {
        None
    }
}

fn find_quote_exec(bytes: &[u8], a: usize, b: usize) -> (r: Option<usize>)
    requires
        a <= b <= bytes@.len(),
    ensures
        match r {
            Some(q) => find_quote(bytes@, a as int, b as int) == q as int && a <= q < b,
            None => find_quote(bytes@, a as int, b as int) == -1,
        },
{
    let mut k = a;
    while k < b
        invariant
            a <= k <= b <= bytes@.len(),
            find_quote(bytes@, a as int, b as int) == find_quote(bytes@, k as int, b as int),
        decreases b - k,
    {
        if bytes[k] == 39u8 || bytes[k] == 34u8 {
            return Some(k);
        }
        k = k + 1;
    }
    None
}

fn strip_all_exec(bytes: &[u8], a: usize, b: usize, pat: &[u8]) -> (r: usize)
    requires
        a <= b <= bytes@.len(),
    ensures
        r == strip_all(bytes@, a as int, b as int, pat@),
        a <= r <= b,
{
    let mut k = a;
    while pat.len() > 0 && starts_with_at_exec(bytes, k, b, pat)
        invariant
            a <= k <= b <= bytes@.len(),
            strip_all(bytes@, a as int, b as int, pat@) == strip_all(bytes@, k as int, b as int, pat@),
        decreases b - k,
    {
        k = k + pat.len();
    }
    k
}

fn is_version_text_exec(bytes: &[u8], a: usize, b: usize) -> (r: bool)
    requires
        a <= b <= bytes@.len(),
    ensures
        r == is_version_text(bytes@, a as int, b as int),
{
    let p1: Vec<u8> = vec![126u8, 62u8];
    let p2: Vec<u8> = vec![62u8, 61u8];
    let p3: Vec<u8> = vec![60u8, 61u8];
    let p4: Vec<u8> = vec![33u8, 61u8];
    let p5: Vec<u8> = vec![62u8];
    let p6: Vec<u8> = vec![60u8];
    let p7: Vec<u8> = vec![61u8];
    assert(p1@ =~= seq![126u8, 62u8]);
    assert(p2@ =~= seq![62u8, 61u8]);
    assert(p3@ =~= seq![60u8, 61u8]);
    assert(p4@ =~= seq![33u8, 61u8]);
    assert(p5@ =~= seq![62u8]);
    assert(p6@ =~= seq![60u8]);
    assert(p7@ =~= seq![61u8]);
    let a1 = utrim_start_exec(bytes, a, b);
    let b1 = utrim_end_exec(bytes, a1, b);
    let a2 = strip_all_exec(bytes, a1, b1, p1.as_slice());
    let a3 = strip_all_exec(bytes, a2, b1, p2.as_slice());
    let a4 = strip_all_exec(bytes, a3, b1, p3.as_slice());
    let a5 = strip_all_exec(bytes, a4, b1, p4.as_slice());
    let a6 = strip_all_exec(bytes, a5, b1, p5.as_slice());
    let a7 = strip_all_exec(bytes, a6, b1, p6.as_slice());
    let a8 = strip_all_exec(bytes, a7, b1, p7.as_slice());
    let a9 = utrim_start_exec(bytes, a8, b1);
    a9 < b1 && is_digit(bytes[a9])
}

fn names_source_exec(bytes: &[u8], a: usize, b: usize) -> (r: bool)
    requires
        a <= b <= bytes@.len(),
    ensures
        r == names_source(bytes@, a as int, b as int),
{
    let k0: Vec<u8> = vec![103u8, 105u8, 116u8, 58u8];
    let k1: Vec<u8> = vec![103u8, 105u8, 116u8, 104u8, 117u8, 98u8, 58u8];
    let k2: Vec<u8> = vec![98u8, 114u8, 97u8, 110u8, 99u8, 104u8, 58u8];
    let k3: Vec<u8> = vec![114u8, 101u8, 102u8, 58u8];
    let k4: Vec<u8> = vec![116u8, 97u8, 103u8, 58u8];
    assert(k0@ =~= source_keyword(0));
    assert(k1@ =~= source_keyword(1));
    assert(k2@ =~= source_keyword(2));
    assert(k3@ =~= source_keyword(3));
    assert(k4@ =~= source_keyword(4));
    let r0 = find_sub_exec(bytes, a, b, k0.as_slice()).is_some();
    let r1 = find_sub_exec(bytes, a, b, k1.as_slice()).is_some();
    let r2 = find_sub_exec(bytes, a, b, k2.as_slice()).is_some();
    let r3 = find_sub_exec(bytes, a, b, k3.as_slice()).is_some();
    let r4 = find_sub_exec(bytes, a, b, k4.as_slice()).is_some();
    let ghost s = bytes@;
    assert(r0 == (find_sub(s, a as int, b as int, source_keyword(0)) >= 0));
    assert(r1 == (find_sub(s, a as int, b as int, source_keyword(1)) >= 0));
    assert(r2 == (find_sub(s, a as int, b as int, source_keyword(2)) >= 0));
    assert(r3 == (find_sub(s, a as int, b as int, source_keyword(3)) >= 0));
    assert(r4 == (find_sub(s, a as int, b as int, source_keyword(4)) >= 0));
    if !(r0 || r1 || r2 || r3 || r4) {
        assert forall|k: int| 0 <= k < 5 implies !(#[trigger] find_sub(s, a as int, b as int, source_keyword(k)) >= 0) by {
            if k == 0 {
            } else if k == 1 {
            } else if k == 2 {
            } else if k == 3 {
            } else {
            }
        }
    }
    r0 || r1 || r2 || r3 || r4
}

fn has_version_or_source_exec(bytes: &[u8], p: usize, e: usize) -> (r: bool)
    requires
        p <= e <= bytes@.len(),
    ensures
        r == has_version_or_source(bytes@, p as int, e as int),
{
    let ta = utrim_start_exec(bytes, p, e);
    let tb = utrim_end_exec(bytes, ta, e);
    let q1 = match find_quote_exec(bytes, ta, tb) {
        Some(q) => q,
        None => {
            return false;
        },
    };
    let close = match find_byte_exec(bytes, bytes[q1], q1 + 1, tb) {
        Some(c) => c,
        None => {
            return false;
        },
    };
    let r1 = utrim_start_exec(bytes, close + 1, tb);
    if r1 >= tb || bytes[r1] != 44u8 {
        return false;
    }
    let r2 = utrim_start_exec(bytes, r1 + 1, tb);
    if names_source_exec(bytes, r2, tb) {
        return true;
    }
    if r2 < tb && (bytes[r2] == 39u8 || bytes[r2] == 34u8) {
        match find_byte_exec(bytes, bytes[r2], r2 + 1, tb) {
            Some(end) => is_version_text_exec(bytes, r2 + 1, end),
            None => false,
        }
    } else {
        false
    }
}

fn list_has(v: &Vec<String>, name: &String) -> (r: bool)
    ensures
        r == string_views(v@).contains(name@),
{
    let mut k: usize = 0;
    while k < v.len()
        invariant
            k <= v@.len(),
            forall|j: int| 0 <= j < k ==> v@[j]@ != name@,
        decreases v@.len() - k,
    {
        if v[k].eq(name) {
            assert(string_views(v@)[k as int] == name@);
            return true;
        }
        k = k + 1;
    }
    assert forall|j: int| 0 <= j < v@.len() implies #[trigger] string_views(v@)[j] != name@ by {
        assert(string_views(v@)[j] == v@[j]@);
    }
    false
}

impl GemVersion {
    pub fn name(&self) -> (r: &'static str)
        ensures
            r@ == "Bundler/GemVersion"@,
    {
        "Bundler/GemVersion"
    }

    /// File patterns the cop applies to unless configured otherwise.
    pub fn default_include(&self) -> (r: Vec<&'static str>)
        ensures
            r@.len() == 3,
            r@[0]@ == "**/*.gemfile"@,
            r@[1]@ == "**/Gemfile"@,
            r@[2]@ == "**/gems.rb"@,
    {
        vec!["**/*.gemfile", "**/Gemfile", "**/gems.rb"]
    }

    /// Checks the lines of a Gemfile; options `EnforcedStyle` (`required`,
    /// the default, or `forbidden`) and `AllowedGems`.
    pub fn check_lines(&self, source: &SourceFile, config: &CopConfig, diagnostics: &mut Vec<Diagnostic>)
        ensures
            extends_with_reports(
                old(diagnostics)@,
                final(diagnostics)@,
                source.spec_path(),
                "Bundler/GemVersion"@,
                Severity::Convention,
                version_offenses(
                    source@,
                    0,
                    1,
                    spec_get_str(config.options@, "EnforcedStyle"@, "required"@),
                    allowed_gems(*config),
                ),
                false,
            ),
    {
        let style = config.get_str("EnforcedStyle", "required");
        let empty: Vec<String> = Vec::new();
        let allowed: &Vec<String> = match config.get_string_array("AllowedGems") {
            Some(v) => v,
            None => &empty,
        };
        proof {
            assert(string_views(empty@) =~= Seq::<Seq<char>>::empty());
        }
        let ghost al = allowed_gems(*config);
        assert(string_views(allowed@) == al);
        let required = string_is(&style, "required");
        let forbidden = string_is(&style, "forbidden");
        let bytes = source.as_bytes();
        let n = bytes.len();
        let ghost s = bytes@;
        let ghost st = style@;
        let ghost total = version_offenses(s, 0, 1, st, al);
        proof {
            lemma_reports_empty(diagnostics@, source.spec_path(), "Bundler/GemVersion"@, Severity::Convention, false);
        }
        let mut p: usize = 0;
        let mut before: usize = 0;
        let ghost mut acc = Seq::<(int, int, Seq<char>)>::empty();
        loop
            invariant_except_break
                acc + version_offenses(s, p as int, before + 1, st, al) == total,
            invariant
                p <= n == s.len(),
                s == bytes@,
                s == source@,
                before <= p,
                st == style@,
                required == (st == "required"@),
                forbidden == (st == "forbidden"@),
                string_views(allowed@) == al,
                total == version_offenses(s, 0, 1, st, al),
                extends_with_reports(
                    old(diagnostics)@,
                    diagnostics@,
                    source.spec_path(),
                    "Bundler/GemVersion"@,
                    Severity::Convention,
                    acc,
                    false,
                ),
            ensures
                extends_with_reports(
                    old(diagnostics)@,
                    diagnostics@,
                    source.spec_path(),
                    "Bundler/GemVersion"@,
                    Severity::Convention,
                    total,
                    false,
                ),
            decreases n - p,
        {
            let e = line_end_exec(bytes, p);
            let ghost o = version_line_offense(s, p as int, e as int, before + 1, st, al);
            let ghost here = match o {
                Some(x) => seq![x],
                None => Seq::empty(),
            };
            assert(version_offenses(s, p as int, before + 1, st, al) == if e < n {
                here + version_offenses(s, e + 1, before + 2, st, al)
            } else {
                here
            });
            let mut msg: Option<&str> = None;
            match line_gem_name_exec(bytes, p, e) {
                Some((a, b)) => {
                    let name = text_of(vstd::slice::slice_subrange(bytes, a, b));
                    if !list_has(allowed, &name) {
                        let versioned = has_version_or_source_exec(bytes, p, e);
                        if required && !versioned {
                            msg = Some("Gem version specification is required.");
                        } else if forbidden && versioned {
                            msg = Some("Gem version specification is forbidden.");
                        }
                    }
                },
                None => {},
            }
            match msg {
                Some(m) => {
                    assert(o == Some((before + 1, 0int, m@)));
                    let d = new_diagnostic(source, "Bundler/GemVersion", Severity::Convention, before + 1, 0, m.to_owned());
                    let ghost mid = diagnostics@;
                    diagnostics.push(d);
                    proof {
                        assert(diagnostics@.drop_last() =~= mid);
                        lemma_reports_push(
                            old(diagnostics)@,
                            mid,
                            diagnostics@,
                            source.spec_path(),
                            "Bundler/GemVersion"@,
                            Severity::Convention,
                            acc,
                            (before + 1, 0, m@),
                            false,
                        );
                        acc = acc.push((before + 1, 0, m@));
                        assert(here == seq![(before + 1, 0int, m@)]);
                    }
                },
                None => {
                    assert(o is None);
                    assert(here =~= Seq::<(int, int, Seq<char>)>::empty());
                },
            }
            if e >= n {
                proof {
                    assert(acc =~= total);
                }
                break;
            }
            proof {
                assert(acc + version_offenses(s, e + 1, before + 2, st, al) =~= total);
            }
            p = e + 1;
            before = before + 1;
        }
    }
}

} // verus!
