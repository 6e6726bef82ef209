use crate::cop::config::{spec_get_list, spec_get_str, CopConfig};
use crate::cop::report::{extends_with_reports, lemma_reports_empty, lemma_reports_push};
use crate::cop::util::{
    find_byte, find_byte_exec, find_sub, find_sub_exec, is_valid_utf8, lemma_find_sub_bounds,
    range_eq, spec_is_digit, starts_with_at, starts_with_at_exec, string_is, utrim_end,
    utrim_end_exec, utrim_start, utrim_start_exec,
};
use crate::diagnostic::{new_diagnostic, Diagnostic, Severity};
use crate::parse::source::{lemma_line_end_bounds, line_end, line_of, SourceFile};
use vstd::prelude::*;
use vstd::utf8::{encode_utf8, valid_utf8};

verus! {

/// Gemspec/DependencyVersion: gemspec dependencies carry a version
/// requirement (style `required`) or carry none (style `forbidden`).
pub struct DependencyVersion;

/// The dependency method number `k`, with its leading dot.
pub open spec fn dep_method_bytes(k: int) -> Seq<u8> {
    if k == 0 {
        seq![46u8, 97u8, 100u8, 100u8, 95u8, 100u8, 101u8, 112u8, 101u8, 110u8, 100u8, 101u8, 110u8, 99u8, 121u8]
    } else if k == 1 {
        seq![46u8, 97u8, 100u8, 100u8, 95u8, 114u8, 117u8, 110u8, 116u8, 105u8, 109u8, 101u8, 95u8, 100u8, 101u8, 112u8, 101u8, 110u8, 100u8, 101u8, 110u8, 99u8, 121u8]
    } else {
        seq![46u8, 97u8, 100u8, 100u8, 95u8, 100u8, 101u8, 118u8, 101u8, 108u8, 111u8, 112u8, 109u8, 101u8, 110u8, 116u8, 95u8, 100u8, 101u8, 112u8, 101u8, 110u8, 100u8, 101u8, 110u8, 99u8, 121u8]
    }
}

fn dep_method_exec(k: usize) -> (r: Vec<u8>)
    requires
        k < 3,
    ensures
        r@ == dep_method_bytes(k as int),
{
    if k == 0 {
        vec![46u8, 97u8, 100u8, 100u8, 95u8, 100u8, 101u8, 112u8, 101u8, 110u8, 100u8, 101u8, 110u8, 99u8, 121u8]
    } else if k == 1 {
        vec![46u8, 97u8, 100u8, 100u8, 95u8, 114u8, 117u8, 110u8, 116u8, 105u8, 109u8, 101u8, 95u8, 100u8, 101u8, 112u8, 101u8, 110u8, 100u8, 101u8, 110u8, 99u8, 121u8]
    } else {
        vec![46u8, 97u8, 100u8, 100u8, 95u8, 100u8, 101u8, 118u8, 101u8, 108u8, 111u8, 112u8, 109u8, 101u8, 110u8, 116u8, 95u8, 100u8, 101u8, 112u8, 101u8, 110u8, 100u8, 101u8, 110u8, 99u8, 121u8]
    }
}

pub open spec fn spec_new_bytes() -> Seq<u8> {
    seq![71u8, 101u8, 109u8, 58u8, 58u8, 83u8, 112u8, 101u8, 99u8, 105u8, 102u8, 105u8, 99u8, 97u8, 116u8, 105u8, 111u8, 110u8, 46u8, 110u8, 101u8, 119u8]
}

pub open spec fn do_bytes() -> Seq<u8> {
    seq![100u8, 111u8]
}

pub open spec fn interp_bytes() -> Seq<u8> {
    seq![35u8, 123u8]
}

/// The line `s[a..b)` calls `Gem::Specification.new` with positional
/// arguments.
pub open spec fn positional_line(s: Seq<u8>, a: int, b: int) -> bool {
    let q = find_sub(s, a, b, spec_new_bytes());
    if q < 0 {
        false
    } else {
        let after = utrim_start(s, q + 22, b);
        if after >= b || starts_with_at(s, after, b, do_bytes()) || s[after] == 123u8 {
            false
        } else if s[after] == 40u8 {
            let inner = utrim_start(s, after + 1, b);
            !(inner < b && s[inner] == 38u8)
        } else {
            true
        }
    }
}

/// Some line from the one that starts at `p` on is a valid UTF-8 line that
/// calls `Gem::Specification.new` with positional arguments.
pub open spec fn positional_from(s: Seq<u8>, p: int) -> bool
    decreases s.len() - p,
{
    if p < 0 || p > s.len() {
        false
    } else {
        let e = line_end(s, p);
        if valid_utf8(s.subrange(p, e)) && positional_line(s, p, e) {
            true
        } else if e < s.len() && e >= p {
            positional_from(s, e + 1)
        } else {
            false
        }
    }
}

/// The quoted string `s[a..)` within `[a, b)` is a version requirement:
/// not interpolated, and starting with a digit or a comparison operator.
pub open spec fn is_version_at(s: Seq<u8>, a: int, b: int) -> bool {
    a < b && (s[a] == 39u8 || s[a] == 34u8) && {
        let q = find_byte(s, s[a], a + 1, b);
        q >= 0 && find_sub(s, a + 1, q, interp_bytes()) < 0 && {
            let ct = utrim_start(s, a + 1, q);
            let ce = utrim_end(s, ct, q);
            ct < ce && (spec_is_digit(s[ct]) || s[ct] == 62u8 || s[ct] == 60u8 || s[ct] == 61u8
                || (ce - ct >= 2 && ((s[ct] == 126u8 && s[ct + 1] == 62u8) || (s[ct] == 33u8 && s[ct
                + 1] == 61u8))))
        }
    }
}

/// The closing bracket of the `%q` delimiter `c`, or 0.
pub open spec fn closing_of(c: u8) -> u8 {
    if c == 60u8 {
        62u8
    } else if c == 40u8 {
        41u8
    } else if c == 91u8 {
        93u8
    } else if c == 123u8 {
        125u8
    } else {
        0u8
    }
}

/// The gem name of the arguments `s[a..b)`: its range, and where the rest
/// of the arguments starts.
pub open spec fn gem_name_at(s: Seq<u8>, t: int, b: int) -> Option<(int, int)> {
    if t < b && (s[t] == 39u8 || s[t] == 34u8) {
        let q = find_byte(s, s[t], t + 1, b);
        if q >= 0 {
            Some((t + 1, q))
        } else {
            None
        }
    } else if b - t >= 4 && s[t] == 37u8 && (s[t + 1] == 113u8 || s[t + 1] == 81u8) && closing_of(
        s[t + 2],
    ) != 0 {
        let q = find_byte(s, closing_of(s[t + 2]), t + 3, b);
        if q >= 0 {
            Some((t + 3, q))
        } else {
            None
        }
    } else {
        None
    }
}

/// The arguments `s[a..b)` after a dependency method: the gem name range,
/// and whether a version requirement follows it.
pub open spec fn dependency_args(s: Seq<u8>, a: int, b: int) -> (Option<(int, int)>, bool) {
    let t0 = utrim_start(s, a, b);
    let t = if t0 < b && s[t0] == 40u8 {
        utrim_start(s, t0 + 1, b)
    } else {
        t0
    };
    let name = gem_name_at(s, t, b);
    let rem = match name {
        Some((_, q)) => q + 1,
        None => t,
    };
    let r = utrim_start(s, rem, b);
    (name, r < b && s[r] == 44u8 && is_version_at(s, utrim_start(s, r + 1, b), b))
}

/// The texts of a list of strings.
pub open spec fn views(v: Seq<String>) -> Seq<Seq<char>> {
    v.map_values(|x: String| x@)
}

/// The gem named by `s[a..b)` is in the allowed list.
pub open spec fn is_allowed(s: Seq<u8>, allowed: Seq<Seq<char>>, name: Option<(int, int)>) -> bool {
    match name {
        Some((a, b)) => exists|k: int|
            0 <= k < allowed.len() && encode_utf8(#[trigger] allowed[k]) == s.subrange(a, b),
        None => false,
    }
}

/// The offense of the line `s[p..e)` from dependency method `k` on.
pub open spec fn method_offense(
    s: Seq<u8>,
    style: Seq<char>,
    allowed: Seq<Seq<char>>,
    p: int,
    e: int,
    k: int,
) -> Option<(int, int, Seq<char>)>
    decreases 3 - k,
{
    if k < 0 || k >= 3 {
        None
    } else {
        let pos = find_sub(s, p, e, dep_method_bytes(k));
        if pos < 0 {
            method_offense(s, style, allowed, p, e, k + 1)
        } else {
            let args = dependency_args(s, pos + dep_method_bytes(k).len(), e);
            if is_allowed(s, allowed, args.0) {
                method_offense(s, style, allowed, p, e, k + 1)
            } else if style == "required"@ && !args.1 {
                Some((line_of(s, p) as int, pos - p + 1, "Dependency version is required."@))
            } else if style == "forbidden"@ && args.1 {
                Some(
                    (
                        line_of(s, p) as int,
                        pos - p + 1,
                        "Dependency version should not be specified."@,
                    ),
                )
            } else {
                None
            }
        }
    }
}

/// The offense of the line `s[p..e)`, if any: not for invalid UTF-8 or
/// comment lines.
pub open spec fn line_offense(s: Seq<u8>, style: Seq<char>, allowed: Seq<Seq<char>>, p: int, e: int) -> Option<
    (int, int, Seq<char>),
> {
    let t = utrim_start(s, p, e);
    if !valid_utf8(s.subrange(p, e)) || (t < e && s[t] == 35u8) {
        None
    } else {
        method_offense(s, style, allowed, p, e, 0)
    }
}

/// The offenses of the lines from the one that starts at `p` on.
pub open spec fn offenses_from(s: Seq<u8>, style: Seq<char>, allowed: Seq<Seq<char>>, p: int) -> Seq<
    (int, int, Seq<char>),
>
    decreases s.len() - p,
{
    if p < 0 || p > s.len() {
        Seq::empty()
    } else {
        let e = line_end(s, p);
        let here = match line_offense(s, style, allowed, p, e) {
            Some(o) => seq![o],
            None => Seq::empty(),
        };
        if e < s.len() && e >= p {
            here + offenses_from(s, style, allowed, e + 1)
        } else {
            here
        }
    }
}

/// The offenses of a gemspec: none when it builds its specification from
/// positional arguments.
pub open spec fn dependency_offenses(s: Seq<u8>, style: Seq<char>, allowed: Seq<Seq<char>>) -> Seq<
    (int, int, Seq<char>),
> {
    if positional_from(s, 0) {
        Seq::empty()
    } else {
        offenses_from(s, style, allowed, 0)
    }
}


fn positional_line_exec(bytes: &[u8], a: usize, b: usize) -> (r: bool)
    requires
        a <= b <= bytes@.len(),
    ensures
        r == positional_line(bytes@, a as int, b as int),
{
    let pat: Vec<u8> = vec![71u8, 101u8, 109u8, 58u8, 58u8, 83u8, 112u8, 101u8, 99u8, 105u8, 102u8, 105u8, 99u8, 97u8, 116u8, 105u8, 111u8, 110u8, 46u8, 110u8, 101u8, 119u8];
    let q = match find_sub_exec(bytes, a, b, pat.as_slice()) {
        Some(q) => q,
        None => {
            return false;
        },
    };
    let after = utrim_start_exec(bytes, q + 22, b);
    let d: Vec<u8> = vec![100u8, 111u8];
    if after >= b || starts_with_at_exec(bytes, after, b, d.as_slice()) || bytes[after] == 123u8 {
        false
    } else if bytes[after] == 40u8 {
        let inner = utrim_start_exec(bytes, after + 1, b);
        !(inner < b && bytes[inner] == 38u8)
    } else {
        true
    }
}

fn positional_exec(bytes: &[u8]) -> (r: bool)
    ensures
        r == positional_from(bytes@, 0),
{
    let n = bytes.len();
    let mut p: usize = 0;
    loop
        invariant
            p <= n == bytes@.len(),
            positional_from(bytes@, 0) == positional_from(bytes@, p as int),
        decreases n - p,
    {
        let e = crate::cop::util::line_end_exec(bytes, p);
        let line = vstd::slice::slice_subrange(bytes, p, e);
        if is_valid_utf8(line) && positional_line_exec(bytes, p, e) {
            return true;
        }
        if e >= n {
            return false;
        }
        p = e + 1;
    }
}

fn is_version_at_exec(bytes: &[u8], a: usize, b: usize) -> (r: bool)
    requires
        a <= b <= bytes@.len(),
    ensures
        r == is_version_at(bytes@, a as int, b as int),
{
    if a >= b || !(bytes[a] == 39u8 || bytes[a] == 34u8) {
        return false;
    }
    let q = match find_byte_exec(bytes, bytes[a], a + 1, b) {
        Some(q) => q,
        None => {
            return false;
        },
    };
    let ip: Vec<u8> = vec![35u8, 123u8];
    if find_sub_exec(bytes, a + 1, q, ip.as_slice()).is_some() {
        return false;
    }
    let ct = utrim_start_exec(bytes, a + 1, q);
    let ce = utrim_end_exec(bytes, ct, q);
    if ct >= ce {
        return false;
    }
    let c = bytes[ct];
    (48u8 <= c && c <= 57u8) || c == 62u8 || c == 60u8 || c == 61u8 || (ce - ct >= 2 && ((c
        == 126u8 && bytes[ct + 1] == 62u8) || (c == 33u8 && bytes[ct + 1] == 61u8)))
}

/// Whether the text `s` starts with a quoted version requirement (digits or
/// a comparison operator, without interpolation).
pub fn is_version_string(s: &str) -> (r: bool)
    ensures
        r == is_version_at(encode_utf8(s@), 0, encode_utf8(s@).len() as int),
{
    let bytes = s.as_bytes();
    is_version_at_exec(bytes, 0, bytes.len())
}

fn closing_of_exec(c: u8) -> (r: u8)
    ensures
        r == closing_of(c),
{
    if c == 60u8 {
        62u8
    } else if c == 40u8 {
        41u8
    } else if c == 91u8 {
        93u8
    } else if c == 123u8 {
        125u8
    } else {
        0u8
    }
}

fn gem_name_at_exec(bytes: &[u8], t: usize, b: usize) -> (r: Option<(usize, usize)>)
    requires
        t <= b <= bytes@.len(),
    ensures
        match r {
            Some((x, y)) => gem_name_at(bytes@, t as int, b as int) == Some((x as int, y as int)) && x <= y < b,
            None => gem_name_at(bytes@, t as int, b as int) is None,
        },
{
    if t < b && (bytes[t] == 39u8 || bytes[t] == 34u8) {
        match find_byte_exec(bytes, bytes[t], t + 1, b) {
            Some(q) => Some((t + 1, q)),
            None => None,
        }
    } else if b - t >= 4 && bytes[t] == 37u8 && (bytes[t + 1] == 113u8 || bytes[t + 1] == 81u8)
        && closing_of_exec(bytes[t + 2]) != 0 {
        match find_byte_exec(bytes, closing_of_exec(bytes[t + 2]), t + 3, b) {
            Some(q) => Some((t + 3, q)),
            None => None,
        }
    } else {
        None
    }
}

fn dependency_args_exec(bytes: &[u8], a: usize, b: usize) -> (r: (Option<(usize, usize)>, bool))
    requires
        a <= b <= bytes@.len(),
    ensures
        ({
            let sp = dependency_args(bytes@, a as int, b as int);
            &&& sp.1 == r.1
            &&& match r.0 {
                Some((x, y)) => sp.0 == Some((x as int, y as int)) && x <= y <= b,
                None => sp.0 is None,
            }
        }),
{
    let t0 = utrim_start_exec(bytes, a, b);
    let t = if t0 < b && bytes[t0] == 40u8 {
        utrim_start_exec(bytes, t0 + 1, b)
    } else {
        t0
    };
    let name = gem_name_at_exec(bytes, t, b);
    let rem = match name {
        Some((_, q)) => q + 1,
        None => t,
    };
    let r = utrim_start_exec(bytes, rem, b);
    let has_version = r < b && bytes[r] == 44u8 && is_version_at_exec(
        bytes,
        utrim_start_exec(bytes, r + 1, b),
        b,
    );
    (name, has_version)
}

fn is_allowed_exec(bytes: &[u8], allowed: &Vec<String>, name: Option<(usize, usize)>) -> (r: bool)
    requires
        name matches Some((x, y)) ==> x <= y <= bytes@.len(),
    ensures
        r == is_allowed(
            bytes@,
            views(allowed@),
            match name {
                Some((x, y)) => Some((x as int, y as int)),
                None => None,
            },
        ),
{
    let (x, y) = match name {
        Some(nm) => nm,
        None => {
            return false;
        },
    };
    let ghost al = views(allowed@);
    let mut k: usize = 0;
    while k < allowed.len()
        invariant
            k <= allowed@.len(),
            x <= y <= bytes@.len(),
            name == Some((x, y)),
            al == views(allowed@),
            forall|j: int| 0 <= j < k ==> encode_utf8(#[trigger] al[j]) != bytes@.subrange(x as int, y as int),
        decreases allowed@.len() - k,
    {
        let g = allowed[k].as_str().as_bytes();
        if range_eq(bytes, x, y, g) {
            assert(encode_utf8(al[k as int]) == bytes@.subrange(x as int, y as int));
            return true;
        }
        k = k + 1;
    }
    false
}

fn method_offense_exec(
    source: &SourceFile,
    bytes: &[u8],
    style: &String,
    allowed: &Vec<String>,
    p: usize,
    e: usize,
) -> (r: Option<(usize, usize, String)>)
    requires
        p <= e <= bytes@.len(),
        bytes@ == source@,
    ensures
        match r {
            Some(o) => method_offense(
                bytes@,
                style@,
                views(allowed@),
                p as int,
                e as int,
                0,
            ) == Some((o.0 as int, o.1 as int, o.2@)),
            None => method_offense(
                bytes@,
                style@,
                views(allowed@),
                p as int,
                e as int,
                0,
            ) is None,
        },
{
    let ghost al = views(allowed@);
    let mut k: usize = 0;
    while k < 3
        invariant
            k <= 3,
            p <= e <= bytes@.len(),
            bytes@ == source@,
            al == views(allowed@),
            method_offense(bytes@, style@, al, p as int, e as int, 0) == method_offense(
                bytes@,
                style@,
                al,
                p as int,
                e as int,
                k as int,
            ),
        decreases 3 - k,
    {
        let m = dep_method_exec(k);
        match find_sub_exec(bytes, p, e, m.as_slice()) {
            None => {},
            Some(pos) => {
                let args = dependency_args_exec(bytes, pos + m.len(), e);
                if !is_allowed_exec(bytes, allowed, args.0) {
                    let (line, _) = source.offset_to_line_col(p);
                    if string_is(style, "required") && !args.1 {
                        return Some((line, pos - p + 1, "Dependency version is required.".to_owned()));
                    } else if string_is(style, "forbidden") && args.1 {
                        return Some(
                            (line, pos - p + 1, "Dependency version should not be specified.".to_owned()),
                        );
                    } else {
                        return None;
                    }
                }
            },
        }
        k = k + 1;
    }
    None
}

impl DependencyVersion {
    pub fn name(&self) -> (r: &'static str)
        ensures
            r@ == "Gemspec/DependencyVersion"@,
    {
        "Gemspec/DependencyVersion"
    }

    pub fn default_severity(&self) -> (r: Severity)
        ensures
            r == Severity::Convention,
    {
        Severity::Convention
    }

    pub fn default_enabled(&self) -> (r: bool)
        ensures
            r == false,
    {
        false
    }

    /// File patterns the cop applies to unless configured otherwise.
    pub fn default_include(&self) -> (r: Vec<&'static str>)
        ensures
            r@.len() == 1,
            r@[0]@ == "**/*.gemspec"@,
    {
        vec!["**/*.gemspec"]
    }

    /// Checks the dependency declarations of a gemspec, line by line, under
    /// the configured `EnforcedStyle` (default `required`) and `AllowedGems`.
    pub fn check_lines(&self, source: &SourceFile, config: &CopConfig, diagnostics: &mut Vec<Diagnostic>)
        ensures
            extends_with_reports(
                old(diagnostics)@,
                final(diagnostics)@,
                source.spec_path(),
                "Gemspec/DependencyVersion"@,
                Severity::Convention,
                dependency_offenses(
                    source@,
                    spec_get_str(config.options@, "EnforcedStyle"@, "required"@),
                    match spec_get_list(config.options@, "AllowedGems"@) {
                        Some(l) => l,
                        None => Seq::empty(),
                    },
                ),
                false,
            ),
    {
        let cop = "Gemspec/DependencyVersion";
        let style = config.get_str("EnforcedStyle", "required");
        let empty: Vec<String> = Vec::new();
        let allowed: &Vec<String> = match config.get_string_array("AllowedGems") {
            Some(v) => v,
            None => &empty,
        };
        let ghost al = views(allowed@);
        assert(al == match spec_get_list(config.options@, "AllowedGems"@) {
            Some(l) => l,
            None => Seq::<Seq<char>>::empty(),
        });
        let ghost path = source.spec_path();
        let bytes = source.as_bytes();
        let ghost s = bytes@;
        proof {
            lemma_reports_empty(diagnostics@, path, cop@, Severity::Convention, false);
        }
        if positional_exec(bytes) {
            return;
        }
        let n = bytes.len();
        let mut p: usize = 0;
        let ghost mut acc = Seq::<(int, int, Seq<char>)>::empty();
        loop
            invariant
                p <= n == s.len(),
                s == bytes@,
                s == source@,
                path == source.spec_path(),
                cop@ == "Gemspec/DependencyVersion"@,
                al == views(allowed@),
                al == match spec_get_list(config.options@, "AllowedGems"@) {
                    Some(l) => l,
                    None => Seq::<Seq<char>>::empty(),
                },
                style@ == spec_get_str(config.options@, "EnforcedStyle"@, "required"@),
                !positional_from(s, 0),
                acc + offenses_from(s, style@, al, p as int) == offenses_from(s, style@, al, 0),
                extends_with_reports(
                    old(diagnostics)@,
                    diagnostics@,
                    path,
                    cop@,
                    Severity::Convention,
                    acc,
                    false,
                ),
            decreases n - p,
        {
            let e = crate::cop::util::line_end_exec(bytes, p);
            proof {
                lemma_line_end_bounds(s, p as int);
            }
            let line = vstd::slice::slice_subrange(bytes, p, e);
            let t = utrim_start_exec(bytes, p, e);
            let ghost acc0 = acc;
            let ghost here = match line_offense(s, style@, al, p as int, e as int) {
                Some(o) => seq![o],
                None => Seq::empty(),
            };
            if is_valid_utf8(line) && !(t < e && bytes[t] == 35u8) {
                match method_offense_exec(source, bytes, &style, allowed, p, e) {
                    Some((line_no, col, msg)) => {
                        let ghost o = (line_no as int, col as int, msg@);
                        let d = new_diagnostic(source, cop, Severity::Convention, line_no, col, msg);
                        let ghost d0 = diagnostics@;
                        diagnostics.push(d);
                        proof {
                            assert(diagnostics@.drop_last() =~= d0);
                            lemma_reports_push(old(diagnostics)@, d0, diagnostics@, path, cop@, Severity::Convention, acc, o, false);
                            acc = acc.push(o);
                        }
                    },
                    None => {},
                }
            }
            assert(line@ == s.subrange(p as int, e as int));
            assert(acc == acc0 + here);
            if e >= n {
                proof {
                    assert(offenses_from(s, style@, al, p as int) == here);
                    assert(acc0 + here == offenses_from(s, style@, al, 0));
                }
                return;
            }
            proof {
                assert(offenses_from(s, style@, al, p as int) == here + offenses_from(
                    s,
                    style@,
                    al,
                    e + 1,
                ));
                assert(acc0 + (here + offenses_from(s, style@, al, e + 1)) =~= acc + offenses_from(
                    s,
                    style@,
                    al,
                    e + 1,
                ));
            }
            p = e + 1;
        }
    }
}

} // verus!
