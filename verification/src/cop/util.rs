use crate::parse::source::{line_start, NEWLINE};
use vstd::prelude::*;

verus! {

pub open spec fn spec_is_digit(b: u8) -> bool {
    48u8 <= b <= 57u8
}

pub open spec fn spec_is_alpha(b: u8) -> bool {
    (65u8 <= b <= 90u8) || (97u8 <= b <= 122u8)
}

pub open spec fn spec_is_alnum(b: u8) -> bool {
    spec_is_digit(b) || spec_is_alpha(b)
}

/// A byte that may appear in a Ruby identifier.
pub open spec fn spec_is_word(b: u8) -> bool {
    spec_is_alnum(b) || b == 95u8
}

/// A space or a tab.
pub open spec fn spec_is_blank(b: u8) -> bool {
    b == 32u8 || b == 9u8
}

pub fn is_digit(b: u8) -> (r: bool)
    ensures
        r == spec_is_digit(b),
{
    48u8 <= b && b <= 57u8
}

pub fn is_alpha(b: u8) -> (r: bool)
    ensures
        r == spec_is_alpha(b),
{
    (65u8 <= b && b <= 90u8) || (97u8 <= b && b <= 122u8)
}

pub fn is_alnum(b: u8) -> (r: bool)
    ensures
        r == spec_is_alnum(b),
{
    is_digit(b) || is_alpha(b)
}

pub fn is_word(b: u8) -> (r: bool)
    ensures
        r == spec_is_word(b),
{
    is_alnum(b) || b == 95u8
}

pub fn is_blank(b: u8) -> (r: bool)
    ensures
        r == spec_is_blank(b),
{
    b == 32u8 || b == 9u8
}

/// Start of the line that holds `off`.
pub fn find_line_start(bytes: &[u8], off: usize) -> (r: usize)
    requires
        off <= bytes@.len(),
    ensures
        r == line_start(bytes@, off as int),
        r <= off,
{
    let mut p = off;
    while p > 0 && bytes[p - 1] != NEWLINE
        invariant
            p <= off <= bytes@.len(),
            line_start(bytes@, off as int) == line_start(bytes@, p as int),
        decreases p,
    {
        p = p - 1;
    }
    p
}

/// Number of spaces and tabs that follow `p`.
pub open spec fn blank_run(s: Seq<u8>, p: int) -> nat
    decreases s.len() - p,
{
    if p < 0 || p >= s.len() || !spec_is_blank(s[p]) {
        0
    } else {
        1 + blank_run(s, p + 1)
    }
}

/// Only spaces and tabs stand between the start of its line and `off`.
pub open spec fn spec_begins_its_line(s: Seq<u8>, off: int) -> bool {
    forall|q: int| line_start(s, off) <= q < off ==> spec_is_blank(s[q])
}

/// Indentation of the line that holds `off`: its leading spaces and tabs.
pub open spec fn spec_line_indent(s: Seq<u8>, off: int) -> nat {
    blank_run(s, line_start(s, off))
}

pub proof fn lemma_blank_run_bound(s: Seq<u8>, p: int)
    requires
        0 <= p <= s.len(),
    ensures
        p + blank_run(s, p) <= s.len(),
    decreases s.len() - p,
{
    if p < s.len() && spec_is_blank(s[p]) {
        lemma_blank_run_bound(s, p + 1);
    }
}

/// Checks that only spaces and tabs precede `off` on its line.
pub fn begins_its_line(bytes: &[u8], off: usize) -> (r: bool)
    requires
        off <= bytes@.len(),
    ensures
        r == spec_begins_its_line(bytes@, off as int),
{
    let ghost s = bytes@;
    let mut pos = off;
    proof {
        crate::parse::source::lemma_line_start_bounds(s, off as int);
    }
    while pos > 0 && bytes[pos - 1] != NEWLINE
        invariant
            pos <= off <= s.len(),
            s == bytes@,
            line_start(s, off as int) == line_start(s, pos as int),
            line_start(s, off as int) <= pos,
            forall|q: int| pos <= q < off ==> spec_is_blank(s[q]),
        decreases pos,
    {
        pos = pos - 1;
        proof {
            crate::parse::source::lemma_line_start_bounds(s, pos as int);
        }
        if bytes[pos] != 32u8 && bytes[pos] != 9u8 {
            return false;
        }
    }
    true
}

/// Leading spaces and tabs of the line that holds `off`.
pub fn line_indent(bytes: &[u8], off: usize) -> (r: usize)
    requires
        off <= bytes@.len(),
    ensures
        r == spec_line_indent(bytes@, off as int),
{
    let ls = find_line_start(bytes, off);
    blank_run_exec(bytes, ls)
}

/// Number of spaces and tabs that follow `p`.
pub fn blank_run_exec(bytes: &[u8], p: usize) -> (r: usize)
    requires
        p <= bytes@.len(),
    ensures
        r == blank_run(bytes@, p as int),
        p + r <= bytes@.len(),
{
    let mut n: usize = 0;
    proof {
        lemma_blank_run_bound(bytes@, p as int);
    }
    while p + n < bytes.len() && (bytes[p + n] == 32u8 || bytes[p + n] == 9u8)
        invariant
            p + n <= bytes.len(),
            blank_run(bytes@, p as int) == n + blank_run(bytes@, (p + n) as int),
        decreases bytes@.len() - (p + n),
    {
        n = n + 1;
    }
    n
}

/// The bytes `a..b` of `bytes` equal `t`.
pub fn range_eq(bytes: &[u8], a: usize, b: usize, t: &[u8]) -> (r: bool)
    requires
        a <= b <= bytes@.len(),
    ensures
        r == (bytes@.subrange(a as int, b as int) == t@),
{
    if b - a != t.len() {
        assert(bytes@.subrange(a as int, b as int).len() != t@.len());
        return false;
    }
    let mut k: usize = 0;
    while k < t.len()
        invariant
            a <= b <= bytes@.len(),
            b - a == t@.len(),
            k <= t@.len(),
            forall|j: int| 0 <= j < k ==> bytes@[a + j] == t@[j],
        decreases t@.len() - k,
    {
        if bytes[a + k] != t[k] {
            assert(bytes@.subrange(a as int, b as int)[k as int] != t@[k as int]);
            return false;
        }
        k = k + 1;
    }
    assert(bytes@.subrange(a as int, b as int) =~= t@);
    true
}

/// A copy of the bytes `a..b`.
pub fn copy_range_to_vec(bytes: &[u8], a: usize, b: usize) -> (r: Vec<u8>)
    requires
        a <= b <= bytes@.len(),
    ensures
        r@ == bytes@.subrange(a as int, b as int),
{
    let mut out: Vec<u8> = Vec::new();
    let mut k = a;
    while k < b
        invariant
            a <= k <= b <= bytes@.len(),
            out@ == bytes@.subrange(a as int, k as int),
        decreases b - k,
    {
        out.push(bytes[k]);
        assert(bytes@.subrange(a as int, k + 1) =~= bytes@.subrange(a as int, k as int).push(
            bytes@[k as int],
        ));
        k = k + 1;
    }
    out
}

/// First position at or after `a` and before `b` that does not hold an
/// identifier byte, or `b`.
pub open spec fn word_end(s: Seq<u8>, a: int, b: int) -> int
    decreases b - a,
{
    if a < b && spec_is_word(s[a]) {
        word_end(s, a + 1, b)
    } else {
        a
    }
}

pub fn word_end_exec(bytes: &[u8], a: usize, b: usize) -> (r: usize)
    requires
        a <= b <= bytes@.len(),
    ensures
        r == word_end(bytes@, a as int, b as int),
        a <= r <= b,
{
    let mut k = a;
    while k < b && is_word(bytes[k])
        invariant
            a <= k <= b <= bytes@.len(),
            word_end(bytes@, a as int, b as int) == word_end(bytes@, k as int, b as int),
        decreases b - k,
    {
        k = k + 1;
    }
    k
}

/// First position in `a..b` that holds byte `c`, or -1.
pub open spec fn find_byte(s: Seq<u8>, c: u8, a: int, b: int) -> int
    decreases b - a,
{
    if a >= b {
        -1
    } else if s[a] == c {
        a
    } else {
        find_byte(s, c, a + 1, b)
    }
}

pub fn find_byte_exec(bytes: &[u8], c: u8, a: usize, b: usize) -> (r: Option<usize>)
    requires
        a <= b <= bytes@.len(),
    ensures
        r matches Some(q) ==> find_byte(bytes@, c, a as int, b as int) == q as int && a <= q < b,
        r is None ==> find_byte(bytes@, c, a as int, b as int) == -1,
{
    let mut k = a;
    while k < b
        invariant
            a <= k <= b <= bytes@.len(),
            find_byte(bytes@, c, a as int, b as int) == find_byte(bytes@, c, k as int, b as int),
        decreases b - k,
    {
        if bytes[k] == c {
            return Some(k);
        }
        k = k + 1;
    }
    None
}

/// End of the line that starts at or holds `p`.
pub fn line_end_exec(bytes: &[u8], p: usize) -> (r: usize)
    requires
        p <= bytes@.len(),
    ensures
        r == crate::parse::source::line_end(bytes@, p as int),
        p <= r <= bytes@.len(),
{
    let mut k = p;
    while k < bytes.len() && bytes[k] != NEWLINE
        invariant
            p <= k <= bytes@.len(),
            crate::parse::source::line_end(bytes@, p as int) == crate::parse::source::line_end(
                bytes@,
                k as int,
            ),
        decreases bytes@.len() - k,
    {
        k = k + 1;
    }
    k
}


/// The decimal digit `d` (below ten) as a character.
pub open spec fn digit_char(d: nat) -> char {
    if d == 0 {
        '0'
    } else if d == 1 {
        '1'
    } else if d == 2 {
        '2'
    } else if d == 3 {
        '3'
    } else if d == 4 {
        '4'
    } else if d == 5 {
        '5'
    } else if d == 6 {
        '6'
    } else if d == 7 {
        '7'
    } else if d == 8 {
        '8'
    } else {
        '9'
    }
}

/// `n` written in decimal, without leading zeros.
pub open spec fn decimal(n: nat) -> Seq<char>
    decreases n,
{
    if n < 10 {
        seq![digit_char(n)]
    } else {
        decimal(n / 10).push(digit_char(n % 10))
    }
}

fn digit_str(d: usize) -> (r: &'static str)
    requires
        d < 10,
    ensures
        r@ == seq![digit_char(d as nat)],
{
    proof {
        reveal_strlit("0");
        reveal_strlit("1");
        reveal_strlit("2");
        reveal_strlit("3");
        reveal_strlit("4");
        reveal_strlit("5");
        reveal_strlit("6");
        reveal_strlit("7");
        reveal_strlit("8");
        reveal_strlit("9");
    }
    if d == 0 {
        "0"
    } else if d == 1 {
        "1"
    } else if d == 2 {
        "2"
    } else if d == 3 {
        "3"
    } else if d == 4 {
        "4"
    } else if d == 5 {
        "5"
    } else if d == 6 {
        "6"
    } else if d == 7 {
        "7"
    } else if d == 8 {
        "8"
    } else {
        "9"
    }
}

/// Appends `n` in decimal to `s`.
pub fn push_decimal(s: &mut String, n: usize)
    ensures
        final(s)@ == old(s)@ + decimal(n as nat),
    decreases n,
{
    if n >= 10 {
        push_decimal(s, n / 10);
    }
    s.append(digit_str(n % 10));
    proof {
        if n >= 10 {
            assert(decimal(n as nat) == decimal((n / 10) as nat).push(digit_char((n % 10) as nat)));
        }
    }
}


/// Whether the string `a` reads `lit`.
pub fn string_is(a: &String, lit: &str) -> (r: bool)
    ensures
        r == (a@ == lit@),
{
    let b = lit.to_owned();
    a.eq(&b)
}


/// First position of `[a, b)` that is not a space or a tab, or `b`.
pub open spec fn skip_indent(s: Seq<u8>, a: int, b: int) -> int
    decreases b - a,
{
    if a < b && spec_is_blank(s[a]) {
        skip_indent(s, a + 1, b)
    } else {
        a
    }
}

/// A space, a tab or a carriage return; with `nl`, a line feed too.
pub open spec fn is_trailing_space(c: u8, nl: bool) -> bool {
    c == 32u8 || c == 9u8 || c == 13u8 || (nl && c == 10u8)
}

/// End of `[a, b)` once trailing spaces, tabs and carriage returns (and, with
/// `nl`, line feeds) are stripped.
pub open spec fn trim_back(s: Seq<u8>, a: int, b: int, nl: bool) -> int
    decreases b - a,
{
    if a < b && is_trailing_space(s[b - 1], nl) {
        trim_back(s, a, b - 1, nl)
    } else {
        b
    }
}

/// `s[a..b)` holds only spaces, tabs and carriage returns (or nothing).
pub open spec fn is_blank_ws_line(s: Seq<u8>, a: int, b: int) -> bool {
    forall|q: int| a <= q < b ==> is_trailing_space(#[trigger] s[q], false)
}

/// `lit` occurs in `s` at `a`, within `[a, b)`.
pub open spec fn starts_with_at(s: Seq<u8>, a: int, b: int, lit: Seq<u8>) -> bool {
    a + lit.len() <= b && s.subrange(a, a + lit.len()) == lit
}

pub fn skip_indent_exec(bytes: &[u8], a: usize, b: usize) -> (r: usize)
    requires
        a <= b <= bytes@.len(),
    ensures
        r == skip_indent(bytes@, a as int, b as int),
        a <= r <= b,
{
    let mut q = a;
    while q < b && (bytes[q] == 32u8 || bytes[q] == 9u8)
        invariant
            a <= q <= b <= bytes@.len(),
            skip_indent(bytes@, a as int, b as int) == skip_indent(bytes@, q as int, b as int),
        decreases b - q,
    {
        q = q + 1;
    }
    q
}

pub fn trim_back_exec(bytes: &[u8], a: usize, b: usize, nl: bool) -> (r: usize)
    requires
        a <= b <= bytes@.len(),
    ensures
        r == trim_back(bytes@, a as int, b as int, nl),
        a <= r <= b,
{
    let mut q = b;
    while q > a && (bytes[q - 1] == 32u8 || bytes[q - 1] == 9u8 || bytes[q - 1] == 13u8 || (nl
        && bytes[q - 1] == 10u8))
        invariant
            a <= q <= b <= bytes@.len(),
            trim_back(bytes@, a as int, b as int, nl) == trim_back(bytes@, a as int, q as int, nl),
        decreases q - a,
    {
        q = q - 1;
    }
    q
}

pub fn is_blank_ws_line_exec(bytes: &[u8], a: usize, b: usize) -> (r: bool)
    requires
        a <= b <= bytes@.len(),
    ensures
        r == is_blank_ws_line(bytes@, a as int, b as int),
{
    let mut q = a;
    while q < b
        invariant
            a <= q <= b <= bytes@.len(),
            forall|j: int| a <= j < q ==> is_trailing_space(#[trigger] bytes@[j], false),
        decreases b - q,
    {
        let c = bytes[q];
        if !(c == 32u8 || c == 9u8 || c == 13u8) {
            assert(!is_trailing_space(bytes@[q as int], false));
            return false;
        }
        q = q + 1;
    }
    true
}

pub fn starts_with_at_exec(bytes: &[u8], a: usize, b: usize, lit: &[u8]) -> (r: bool)
    requires
        a <= b <= bytes@.len(),
    ensures
        r == starts_with_at(bytes@, a as int, b as int, lit@),
{
    if lit.len() > b - a {
        return false;
    }
    range_eq(bytes, a, a + lit.len(), lit)
}


/// Length of the UTF-8 encoding of a white-space character (Unicode
/// `White_Space`, as `char::is_whitespace`) that starts at `a` within
/// `[a, b)`, or 0. On valid UTF-8 this reads whole characters.
pub open spec fn ws_len_at(s: Seq<u8>, a: int, b: int) -> int {
    if a >= b {
        0
    } else if (9u8 <= s[a] <= 13u8) || s[a] == 32u8 {
        1
    } else if a + 2 <= b && s[a] == 0xC2u8 && (s[a + 1] == 0x85u8 || s[a + 1] == 0xA0u8) {
        2
    } else if a + 3 <= b && s[a] == 0xE1u8 && s[a + 1] == 0x9Au8 && s[a + 2] == 0x80u8 {
        3
    } else if a + 3 <= b && s[a] == 0xE2u8 && s[a + 1] == 0x80u8 && ((0x80u8 <= s[a + 2]
        <= 0x8Au8) || s[a + 2] == 0xA8u8 || s[a + 2] == 0xA9u8 || s[a + 2] == 0xAFu8) {
        3
    } else if a + 3 <= b && s[a] == 0xE2u8 && s[a + 1] == 0x81u8 && s[a + 2] == 0x9Fu8 {
        3
    } else if a + 3 <= b && s[a] == 0xE3u8 && s[a + 1] == 0x80u8 && s[a + 2] == 0x80u8 {
        3
    } else {
        0
    }
}

/// Length of the encoding of a white-space character that ends at `b`
/// within `[a, b)`, or 0.
pub open spec fn ws_len_before(s: Seq<u8>, a: int, b: int) -> int {
    if b <= a {
        0
    } else if (9u8 <= s[b - 1] <= 13u8) || s[b - 1] == 32u8 {
        1
    } else if b - 2 >= a && s[b - 2] == 0xC2u8 && (s[b - 1] == 0x85u8 || s[b - 1] == 0xA0u8) {
        2
    } else if b - 3 >= a && ws_len_at(s, b - 3, b) == 3 {
        3
    } else {
        0
    }
}

/// Start of `[a, b)` once leading white space is removed (as `str::trim_start`).
pub open spec fn utrim_start(s: Seq<u8>, a: int, b: int) -> int
    decreases b - a,
{
    if ws_len_at(s, a, b) > 0 && a < b {
        utrim_start(s, a + ws_len_at(s, a, b), b)
    } else {
        a
    }
}

/// End of `[a, b)` once trailing white space is removed (as `str::trim_end`).
pub open spec fn utrim_end(s: Seq<u8>, a: int, b: int) -> int
    decreases b - a,
{
    if ws_len_before(s, a, b) > 0 && a < b {
        utrim_end(s, a, b - ws_len_before(s, a, b))
    } else {
        b
    }
}

pub fn ws_len_at_exec(bytes: &[u8], a: usize, b: usize) -> (r: usize)
    requires
        a <= b <= bytes@.len(),
    ensures
        r == ws_len_at(bytes@, a as int, b as int),
        a + r <= b,
{
    if a >= b {
        return 0;
    }
    let c = bytes[a];
    if (9u8 <= c && c <= 13u8) || c == 32u8 {
        return 1;
    }
    if b - a >= 2 && c == 0xC2u8 && (bytes[a + 1] == 0x85u8 || bytes[a + 1] == 0xA0u8) {
        return 2;
    }
    if b - a >= 3 {
        let c1 = bytes[a + 1];
        let c2 = bytes[a + 2];
        if (c == 0xE1u8 && c1 == 0x9Au8 && c2 == 0x80u8) || (c == 0xE2u8 && c1 == 0x80u8 && ((
        0x80u8 <= c2 && c2 <= 0x8Au8) || c2 == 0xA8u8 || c2 == 0xA9u8 || c2 == 0xAFu8)) || (c
            == 0xE2u8 && c1 == 0x81u8 && c2 == 0x9Fu8) || (c == 0xE3u8 && c1 == 0x80u8 && c2
            == 0x80u8) {
            return 3;
        }
    }
    0
}

pub fn ws_len_before_exec(bytes: &[u8], a: usize, b: usize) -> (r: usize)
    requires
        a <= b <= bytes@.len(),
    ensures
        r == ws_len_before(bytes@, a as int, b as int),
        r <= b - a,
{
    if b <= a {
        return 0;
    }
    let c = bytes[b - 1];
    if (9u8 <= c && c <= 13u8) || c == 32u8 {
        return 1;
    }
    if b - a >= 2 && bytes[b - 2] == 0xC2u8 && (c == 0x85u8 || c == 0xA0u8) {
        return 2;
    }
    if b - a >= 3 && ws_len_at_exec(bytes, b - 3, b) == 3 {
        return 3;
    }
    0
}

pub fn utrim_start_exec(bytes: &[u8], a: usize, b: usize) -> (r: usize)
    requires
        a <= b <= bytes@.len(),
    ensures
        r == utrim_start(bytes@, a as int, b as int),
        a <= r <= b,
{
    let mut q = a;
    loop
        invariant
            a <= q <= b <= bytes@.len(),
            utrim_start(bytes@, a as int, b as int) == utrim_start(bytes@, q as int, b as int),
        decreases b - q,
    {
        let w = ws_len_at_exec(bytes, q, b);
        if w == 0 {
            return q;
        }
        q = q + w;
    }
}

pub fn utrim_end_exec(bytes: &[u8], a: usize, b: usize) -> (r: usize)
    requires
        a <= b <= bytes@.len(),
    ensures
        r == utrim_end(bytes@, a as int, b as int),
        a <= r <= b,
{
    let mut q = b;
    loop
        invariant
            a <= q <= b <= bytes@.len(),
            utrim_end(bytes@, a as int, b as int) == utrim_end(bytes@, a as int, q as int),
        decreases q - a,
    {
        let w = ws_len_before_exec(bytes, a, q);
        if w == 0 {
            return q;
        }
        q = q - w;
    }
}


/// Calls `std::str::from_utf8`: whether `bytes` are valid UTF-8. Its
/// documentation says it fails exactly on bytes that are not valid UTF-8;
/// the contract states that with vstd's definition of valid UTF-8.
#[verifier::external_body]
pub fn is_valid_utf8(bytes: &[u8]) -> (r: bool)
    ensures
        r == vstd::utf8::valid_utf8(bytes@),
{
    std::str::from_utf8(bytes).is_ok()
}


/// First position of `[a, b)` that is not `#`, or `b`.
pub open spec fn skip_hashes(s: Seq<u8>, a: int, b: int) -> int
    decreases b - a,
{
    if a < b && s[a] == 35u8 {
        skip_hashes(s, a + 1, b)
    } else {
        a
    }
}

pub open spec fn rubocop_disable_bytes() -> Seq<u8> {
    seq![114u8, 117u8, 98u8, 111u8, 99u8, 111u8, 112u8, 58u8, 100u8, 105u8, 115u8, 97u8, 98u8, 108u8, 101u8]
}

pub open spec fn rubocop_todo_bytes() -> Seq<u8> {
    seq![114u8, 117u8, 98u8, 111u8, 99u8, 111u8, 112u8, 58u8, 116u8, 111u8, 100u8, 111u8]
}

pub open spec fn all_bytes() -> Seq<u8> {
    seq![97u8, 108u8, 108u8]
}

/// The range `[a, b)` of `s` reads `t`.
pub open spec fn range_is(s: Seq<u8>, a: int, b: int, t: Seq<u8>) -> bool {
    b - a == t.len() && starts_with_at(s, a, b, t)
}

/// Some comma-separated part of `[a, b)`, trimmed, reads `cop` or `all`.
pub open spec fn names_cop(s: Seq<u8>, a: int, b: int, cop: Seq<u8>) -> bool
    decreases b - a,
{
    let c = find_byte(s, 44u8, a, b);
    let pe = if c < 0 || c < a || c >= b {
        b
    } else {
        c
    };
    let ps = utrim_start(s, a, pe);
    let pt = utrim_end(s, ps, pe);
    range_is(s, ps, pt, cop) || range_is(s, ps, pt, all_bytes()) || (a <= c < b && names_cop(
        s,
        c + 1,
        b,
    cop))
}

/// The comment text `s` (valid UTF-8) is a `rubocop:disable` or
/// `rubocop:todo` directive that names `cop` or `all`.
pub open spec fn disables_cop(s: Seq<u8>, cop: Seq<u8>) -> bool {
    let n = s.len() as int;
    let t0 = skip_hashes(s, 0, n);
    let t = utrim_start(s, t0, n);
    let e = utrim_end(s, t, n);
    if starts_with_at(s, t, e, rubocop_disable_bytes()) {
        names_cop(s, t + 15, e, cop)
    } else if starts_with_at(s, t, e, rubocop_todo_bytes()) {
        names_cop(s, t + 12, e, cop)
    } else {
        false
    }
}

fn range_is_exec(bytes: &[u8], a: usize, b: usize, t: &[u8]) -> (r: bool)
    requires
        a <= b <= bytes@.len(),
    ensures
        r == range_is(bytes@, a as int, b as int, t@),
{
    b - a == t.len() && starts_with_at_exec(bytes, a, b, t)
}

fn names_cop_exec(bytes: &[u8], a: usize, b: usize, cop: &[u8]) -> (r: bool)
    requires
        a <= b <= bytes@.len(),
    ensures
        r == names_cop(bytes@, a as int, b as int, cop@),
    decreases b - a,
{
    let all: Vec<u8> = vec![97u8, 108u8, 108u8];
    let c = find_byte_exec(bytes, 44u8, a, b);
    let pe = match c {
        Some(q) => q,
        None => b,
    };
    let ps = utrim_start_exec(bytes, a, pe);
    let pt = utrim_end_exec(bytes, ps, pe);
    if range_is_exec(bytes, ps, pt, cop) || range_is_exec(bytes, ps, pt, all.as_slice()) {
        return true;
    }
    match c {
        Some(q) => names_cop_exec(bytes, q + 1, b, cop),
        None => false,
    }
}

/// Whether the comment text `text` disables `cop` (or all cops).
pub fn disables_cop_exec(text: &[u8], cop: &[u8]) -> (r: bool)
    ensures
        r == disables_cop(text@, cop@),
{
    let n = text.len();
    let mut t0: usize = 0;
    while t0 < n && text[t0] == 35u8
        invariant
            t0 <= n == text@.len(),
            skip_hashes(text@, 0, n as int) == skip_hashes(text@, t0 as int, n as int),
        decreases n - t0,
    {
        t0 = t0 + 1;
    }
    let t = utrim_start_exec(text, t0, n);
    let e = utrim_end_exec(text, t, n);
    let dis: Vec<u8> = vec![114u8, 117u8, 98u8, 111u8, 99u8, 111u8, 112u8, 58u8, 100u8, 105u8, 115u8, 97u8, 98u8, 108u8, 101u8];
    let todo: Vec<u8> = vec![114u8, 117u8, 98u8, 111u8, 99u8, 111u8, 112u8, 58u8, 116u8, 111u8, 100u8, 111u8];
    if starts_with_at_exec(text, t, e, dis.as_slice()) {
        names_cop_exec(text, t + 15, e, cop)
    } else if starts_with_at_exec(text, t, e, todo.as_slice()) {
        names_cop_exec(text, t + 12, e, cop)
    } else {
        false
    }
}


/// First position `q` in `[a, b)` at which `t` occurs within `[a, b)`, or -1.
pub open spec fn find_sub(s: Seq<u8>, a: int, b: int, t: Seq<u8>) -> int
    decreases b - a,
{
    if a >= b || a + t.len() > b {
        -1
    } else if s.subrange(a, a + t.len()) == t {
        a
    } else {
        find_sub(s, a + 1, b, t)
    }
}

pub proof fn lemma_find_sub_bounds(s: Seq<u8>, a: int, b: int, t: Seq<u8>)
    ensures
        find_sub(s, a, b, t) == -1 || (a <= find_sub(s, a, b, t) && find_sub(s, a, b, t) + t.len()
            <= b),
    decreases b - a,
{
    if !(a >= b || a + t.len() > b) && s.subrange(a, a + t.len()) != t {
        lemma_find_sub_bounds(s, a + 1, b, t);
    }
}

pub fn find_sub_exec(bytes: &[u8], a: usize, b: usize, t: &[u8]) -> (r: Option<usize>)
    requires
        a <= b <= bytes@.len(),
    ensures
        match r {
            Some(q) => find_sub(bytes@, a as int, b as int, t@) == q as int && a <= q && q + t@.len()
                <= b,
            None => find_sub(bytes@, a as int, b as int, t@) == -1,
        },
{
    let mut q = a;
    while q < b
        invariant
            a <= q <= b <= bytes@.len(),
            find_sub(bytes@, a as int, b as int, t@) == find_sub(bytes@, q as int, b as int, t@),
        decreases b - q,
    {
        if t.len() > b - q {
            return None;
        }
        if range_eq(bytes, q, q + t.len(), t) {
            return Some(q);
        }
        q = q + 1;
    }
    None
}


/// The last component of `path`, as `std::path::Path::file_name` reads it.
pub uninterp spec fn path_file_name(path: Seq<char>) -> Option<Seq<char>>;

/// Calls `std::path::Path::file_name` on `path`: the final component of the
/// path, `None` when the path ends in `..` or has no component. The result
/// is named, not stated.
#[verifier::external_body]
pub(crate) fn file_name_of(path: &str) -> (r: Option<String>)
    ensures
        match r {
            Some(n) => path_file_name(path@) == Some(n@),
            None => path_file_name(path@) is None,
        },
{
    std::path::Path::new(path).file_name().and_then(|s| s.to_str()).map(|s| s.to_owned())
}


/// The text of `bytes` read as UTF-8, as `String::from_utf8_lossy` reads it.
pub uninterp spec fn lossy_text(bytes: Seq<u8>) -> Seq<char>;

/// Calls `String::from_utf8_lossy`: the text of `bytes`, invalid sequences
/// replaced. On valid UTF-8 the documentation fixes the result as the plain
/// decoding (stated with vstd's `decode_utf8`); otherwise it is only named.
#[verifier::external_body]
pub(crate) fn text_of(bytes: &[u8]) -> (r: String)
    ensures
        r@ == lossy_text(bytes@),
        vstd::utf8::valid_utf8(bytes@) ==> r@ == vstd::utf8::decode_utf8(bytes@),
{
    String::from_utf8_lossy(bytes).into_owned()
}


/// The text of `[a, b)` of the source when those bytes are valid UTF-8,
/// else `default`.
pub open spec fn slice_text(s: Seq<u8>, a: int, b: int, default: Seq<char>) -> Seq<char> {
    if vstd::utf8::valid_utf8(s.subrange(a, b)) {
        vstd::utf8::decode_utf8(s.subrange(a, b))
    } else {
        default
    }
}

/// The text of `[a, b)`, or `default` when those bytes are not valid UTF-8.
pub fn slice_text_exec(bytes: &[u8], a: usize, b: usize, default: &str) -> (r: String)
    requires
        a <= b <= bytes@.len(),
    ensures
        r@ == slice_text(bytes@, a as int, b as int, default@),
{
    let sub = vstd::slice::slice_subrange(bytes, a, b);
    if is_valid_utf8(sub) {
        text_of(sub)
    } else {
        default.to_owned()
    }
}

/// Where the assignment that the keyword at `off` is the value of starts: the
/// first non-blank position of its line, when the text before the keyword on
/// that line, trailing blanks trimmed, ends with an assignment `=` (not part
/// of `==`, `!=`, `<=` or `>=`) or with `<<`, and something precedes that
/// operator.
pub open spec fn assignment_base(s: Seq<u8>, off: int) -> Option<int> {
    let ls = line_start(s, off);
    let e = trim_back(s, ls, off, false);
    let ind = skip_indent(s, ls, off);
    let op = if e - ls >= 2 && s[e - 2] == 60u8 && s[e - 1] == 60u8 {
        e - 2
    } else if e - ls >= 1 && s[e - 1] == 61u8 && !(e - ls >= 2 && (s[e - 2] == 61u8 || s[e - 2]
        == 33u8 || s[e - 2] == 60u8 || s[e - 2] == 62u8)) {
        e - 1
    } else {
        -1
    };
    if op >= 0 && ind < op {
        Some(ind)
    } else {
        None
    }
}

pub fn assignment_base_exec(bytes: &[u8], off: usize) -> (r: Option<usize>)
    requires
        off <= bytes@.len(),
    ensures
        r matches Some(q) ==> assignment_base(bytes@, off as int) == Some(q as int) && q <= off,
        r is None ==> assignment_base(bytes@, off as int) is None,
{
    let ls = find_line_start(bytes, off);
    let e = trim_back_exec(bytes, ls, off, false);
    let ind = skip_indent_exec(bytes, ls, off);
    let op: Option<usize> = if e - ls >= 2 && bytes[e - 2] == 60u8 && bytes[e - 1] == 60u8 {
        Some(e - 2)
    } else if e - ls >= 1 && bytes[e - 1] == 61u8 && !(e - ls >= 2 && (bytes[e - 2] == 61u8
        || bytes[e - 2] == 33u8 || bytes[e - 2] == 60u8 || bytes[e - 2] == 62u8)) {
        Some(e - 1)
    } else {
        None
    };
    match op {
        Some(o) => if ind < o {
            Some(ind)
        } else {
            None
        },
        None => None,
    }
}


/// Calls `String::push`, which appends the character `c`.
#[verifier::external_body]
pub(crate) fn push_char(s: &mut String, c: char)
    ensures
        final(s)@ == old(s)@.push(c),
{
    s.push(c);
}


/// The lower-case mapping of a text, as `str::to_lowercase` gives it.
pub uninterp spec fn lowercase_text(s: Seq<char>) -> Seq<char>;

/// Calls `str::to_lowercase`: every character replaced by its Unicode
/// lower-case mapping. The result is named, not stated.
#[verifier::external_body]
pub(crate) fn lowercase_of(s: &str) -> (r: String)
    ensures
        r@ == lowercase_text(s@),
{
    s.to_lowercase()
}

} // verus!
