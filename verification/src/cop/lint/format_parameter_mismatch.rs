use crate::cop::report::{extends_with_reports, lemma_reports_empty, lemma_reports_push};
use crate::cop::util::{
    decimal, find_byte, find_byte_exec, is_digit, push_decimal, spec_is_digit, string_is,
};
use crate::diagnostic::{new_diagnostic, Diagnostic, Severity};
use crate::parse::source::{col_of, line_of, SourceFile};
use vstd::prelude::*;

verus! {

/// Checks that the number of arguments given to `format`, `sprintf` and
/// `String#%` matches the number of fields of the format string, and that a
/// format string does not mix numbered, named and unnumbered sequences.
pub struct FormatParameterMismatch;

/// A flag byte of a format sequence: `-`, `+`, space, `0` or `#`.
pub open spec fn is_flag(b: u8) -> bool {
    b == 45u8 || b == 43u8 || b == 32u8 || b == 48u8 || b == 35u8
}

/// A conversion type of a format sequence: one of `bBdiouxXeEfgGaAcps`.
pub open spec fn spec_is_format_type(b: u8) -> bool {
    b == 98u8 || b == 66u8 || b == 100u8 || b == 105u8 || b == 111u8 || b == 117u8 || b == 120u8
        || b == 88u8 || b == 101u8 || b == 69u8 || b == 102u8 || b == 103u8 || b == 71u8 || b
        == 97u8 || b == 65u8 || b == 99u8 || b == 112u8 || b == 115u8
}

/// First position at or after `i` that does not hold a flag byte.
pub open spec fn skip_flags(s: Seq<u8>, i: int) -> int
    decreases s.len() - i,
{
    if 0 <= i < s.len() && is_flag(s[i]) {
        skip_flags(s, i + 1)
    } else {
        i
    }
}

/// First position at or after `i` that does not hold a digit.
pub open spec fn skip_digits(s: Seq<u8>, i: int) -> int
    decreases s.len() - i,
{
    if 0 <= i < s.len() && spec_is_digit(s[i]) {
        skip_digits(s, i + 1)
    } else {
        i
    }
}

/// The number written by the digits of `s[a..b)`, the other bytes left out.
pub open spec fn digits_value(s: Seq<u8>, a: int, b: int) -> nat
    decreases b - a,
{
    if b <= a {
        0
    } else if spec_is_digit(s[b - 1]) {
        digits_value(s, a, b - 1) * 10 + (s[b - 1] - 48) as nat
    } else {
        digits_value(s, a, b - 1)
    }
}

/// Some byte of `s[a..b)` is a digit.
pub open spec fn has_digit(s: Seq<u8>, a: int, b: int) -> bool {
    exists|q: int| a <= q < b && spec_is_digit(s[q])
}

/// The argument number of a numbered sequence whose flags and width are
/// `s[a..b)`: its digits read as a number that fits a `usize`.
pub open spec fn numbered_arg(s: Seq<u8>, a: int, b: int) -> Option<usize> {
    if has_digit(s, a, b) && digits_value(s, a, b) <= usize::MAX {
        Some(digits_value(s, a, b) as usize)
    } else {
        None
    }
}

/// What one format sequence contributes.
pub enum SeqKind {
    /// Text that only looked like the start of a sequence.
    NotASequence,
    /// `%{name}` or `%<name>` followed by a type.
    Named,
    /// `%N$...`, with its argument number when it could be read.
    Numbered(Option<usize>),
    /// A plain sequence that consumes this many arguments (1, plus one per `*`).
    Unnumbered(usize),
}

/// The format sequence whose first byte after `%` is at `i` (not `%`):
/// where scanning resumes, and what the sequence is.
pub open spec fn sequence_at(s: Seq<u8>, i: int) -> (int, SeqKind) {
    let len = s.len() as int;
    if s[i] == 123u8 {
        let k = find_byte(s, 125u8, i, len);
        (if k < 0 {
            len
        } else {
            k + 1
        }, SeqKind::Named)
    } else if s[i] == 60u8 {
        let k = find_byte(s, 62u8, i, len);
        if k < 0 {
            (len, SeqKind::NotASequence)
        } else {
            let j1 = skip_digits(s, skip_flags(s, k + 1));
            let j2 = if j1 < len && s[j1] == 46u8 {
                skip_digits(s, j1 + 1)
            } else {
                j1
            };
            if j2 < len && spec_is_format_type(s[j2]) {
                (j2 + 1, SeqKind::Named)
            } else {
                (j2, SeqKind::NotASequence)
            }
        }
    } else {
        let f = skip_flags(s, i);
        let star = f < len && s[f] == 42u8;
        let w = if star {
            f + 1
        } else {
            skip_digits(s, f)
        };
        if w < len && s[w] == 36u8 {
            let num = numbered_arg(s, i, w);
            let g = skip_flags(s, w + 1);
            let h = if g < len && s[g] == 42u8 {
                let d = skip_digits(s, g + 1);
                if d < len && s[d] == 36u8 {
                    d + 1
                } else {
                    g + 1
                }
            } else {
                skip_digits(s, g)
            };
            let p = if h < len && s[h] == 46u8 {
                skip_digits(s, h + 1)
            } else {
                h
            };
            if p < len && spec_is_format_type(s[p]) {
                (p + 1, SeqKind::Numbered(num))
            } else {
                (p, SeqKind::NotASequence)
            }
        } else {
            let prec_star = w < len && s[w] == 46u8 && w + 1 < len && s[w + 1] == 42u8;
            let p = if w < len && s[w] == 46u8 {
                if prec_star {
                    w + 2
                } else {
                    skip_digits(s, w + 1)
                }
            } else {
                w
            };
            if p < len && spec_is_format_type(s[p]) {
                (
                    p + 1,
                    SeqKind::Unnumbered(
                        (1 + (if star {
                            1int
                        } else {
                            0int
                        }) + (if prec_star {
                            1int
                        } else {
                            0int
                        })) as usize,
                    ),
                )
            } else {
                (p, SeqKind::NotASequence)
            }
        }
    }
}

/// What the sequences seen so far add up to.
pub struct FormatSummary {
    pub count: nat,
    pub has_numbered: bool,
    pub has_unnumbered: bool,
    pub has_named: bool,
    pub max_numbered: nat,
}

pub open spec fn add_sequence(a: FormatSummary, k: SeqKind) -> FormatSummary {
    match k {
        SeqKind::NotASequence => a,
        SeqKind::Named => FormatSummary { has_named: true, ..a },
        SeqKind::Numbered(None) => a,
        SeqKind::Numbered(Some(n)) => FormatSummary {
            has_numbered: true,
            max_numbered: if n > a.max_numbered {
                n as nat
            } else {
                a.max_numbered
            },
            ..a
        },
        SeqKind::Unnumbered(n) => FormatSummary { has_unnumbered: true, count: a.count + n as nat, ..a },
    }
}

proof fn lemma_skip_bounds(s: Seq<u8>, i: int)
    requires
        0 <= i <= s.len(),
    ensures
        i <= skip_flags(s, i) <= s.len(),
        i <= skip_digits(s, i) <= s.len(),
    decreases s.len() - i,
{
    if i < s.len() {
        lemma_skip_bounds(s, i + 1);
    }
}

proof fn lemma_find_byte_bounds(s: Seq<u8>, c: u8, a: int, b: int)
    requires
        0 <= a <= b,
    ensures
        find_byte(s, c, a, b) == -1 || (a <= find_byte(s, c, a, b) < b && s[find_byte(
            s,
            c,
            a,
            b,
        )] == c),
    decreases b - a,
{
    if a < b && s[a] != c {
        lemma_find_byte_bounds(s, c, a + 1, b);
    }
}

pub proof fn lemma_sequence_at_progress(s: Seq<u8>, i: int)
    requires
        0 <= i < s.len(),
    ensures
        i < sequence_at(s, i).0 <= s.len() || (sequence_at(s, i).0 == i && !(sequence_at(
            s,
            i,
        ).1 is Named)),
        sequence_at(s, i).1 matches SeqKind::Unnumbered(n) ==> n + i < sequence_at(s, i).0 + 1,
        i <= sequence_at(s, i).0 <= s.len(),
{
    let len = s.len() as int;
    lemma_find_byte_bounds(s, 125u8, i, len);
    lemma_find_byte_bounds(s, 62u8, i, len);
    lemma_skip_bounds(s, i);
    let k = find_byte(s, 62u8, i, len);
    if k >= 0 {
        lemma_skip_bounds(s, k + 1);
        lemma_skip_bounds(s, skip_flags(s, k + 1));
        let j1 = skip_digits(s, skip_flags(s, k + 1));
        if j1 < len {
            lemma_skip_bounds(s, j1 + 1);
        }
    }
    let f = skip_flags(s, i);
    lemma_skip_bounds(s, f);
    let star = f < len && s[f] == 42u8;
    let w = if star {
        f + 1
    } else {
        skip_digits(s, f)
    };
    if w < len {
        lemma_skip_bounds(s, w + 1);
        let g = skip_flags(s, w + 1);
        lemma_skip_bounds(s, g);
        if g < len {
            lemma_skip_bounds(s, g + 1);
            let d = skip_digits(s, g + 1);
        }
        let h = if g < len && s[g] == 42u8 {
            let d = skip_digits(s, g + 1);
            if d < len && s[d] == 36u8 {
                d + 1
            } else {
                g + 1
            }
        } else {
            skip_digits(s, g)
        };
        if h < len {
            lemma_skip_bounds(s, h + 1);
        }
    }
}

/// Summary of the sequences of `s` from `i` on.
pub open spec fn scan_format(s: Seq<u8>, i: int, acc: FormatSummary) -> FormatSummary
    decreases s.len() - i,
{
    if i < 0 || i >= s.len() {
        acc
    } else if s[i] != 37u8 {
        scan_format(s, i + 1, acc)
    } else if i + 1 >= s.len() {
        acc
    } else if s[i + 1] == 37u8 {
        scan_format(s, i + 2, acc)
    } else {
        let (next, kind) = sequence_at(s, i + 1);
        proof {
            lemma_sequence_at_progress(s, i + 1);
        }
        scan_format(s, next, add_sequence(acc, kind))
    }
}

pub open spec fn empty_summary() -> FormatSummary {
    FormatSummary {
        count: 0,
        has_numbered: false,
        has_unnumbered: false,
        has_named: false,
        max_numbered: 0,
    }
}

/// The fields of a format string: how many arguments it takes, and whether
/// it takes them by name (one hash), or `None` when it mixes numbered,
/// named and unnumbered sequences.
pub open spec fn format_fields(s: Seq<u8>) -> Option<(nat, bool)> {
    let a = scan_format(s, 0, empty_summary());
    let kinds = (if a.has_named {
        1int
    } else {
        0int
    }) + (if a.has_numbered {
        1int
    } else {
        0int
    }) + (if a.has_unnumbered {
        1int
    } else {
        0int
    });
    if kinds > 1 {
        None
    } else if a.has_named {
        Some((1, true))
    } else if a.has_numbered {
        Some((a.max_numbered, false))
    } else {
        Some((a.count, false))
    }
}


fn is_flag_exec(b: u8) -> (r: bool)
    ensures
        r == is_flag(b),
{
    b == 45u8 || b == 43u8 || b == 32u8 || b == 48u8 || b == 35u8
}

fn is_format_type(b: u8) -> (r: bool)
    ensures
        r == spec_is_format_type(b),
{
    b == 98u8 || b == 66u8 || b == 100u8 || b == 105u8 || b == 111u8 || b == 117u8 || b == 120u8
        || b == 88u8 || b == 101u8 || b == 69u8 || b == 102u8 || b == 103u8 || b == 71u8 || b
        == 97u8 || b == 65u8 || b == 99u8 || b == 112u8 || b == 115u8
}

fn skip_flags_exec(s: &[u8], i: usize) -> (r: usize)
    requires
        i <= s@.len(),
    ensures
        r == skip_flags(s@, i as int),
        i <= r <= s@.len(),
{
    let mut j = i;
    while j < s.len() && is_flag_exec(s[j])
        invariant
            i <= j <= s@.len(),
            skip_flags(s@, i as int) == skip_flags(s@, j as int),
        decreases s@.len() - j,
    {
        j = j + 1;
    }
    j
}

fn skip_digits_exec(s: &[u8], i: usize) -> (r: usize)
    requires
        i <= s@.len(),
    ensures
        r == skip_digits(s@, i as int),
        i <= r <= s@.len(),
{
    let mut j = i;
    while j < s.len() && is_digit(s[j])
        invariant
            i <= j <= s@.len(),
            skip_digits(s@, i as int) == skip_digits(s@, j as int),
        decreases s@.len() - j,
    {
        j = j + 1;
    }
    j
}

/// The argument number written by the digits of `s[a..b)`.
fn numbered_arg_exec(s: &[u8], a: usize, b: usize) -> (r: Option<usize>)
    requires
        a <= b <= s@.len(),
    ensures
        r == numbered_arg(s@, a as int, b as int),
{
    let mut v: usize = 0;
    let mut fits = true;
    let mut seen = false;
    let mut q = a;
    while q < b
        invariant
            a <= q <= b <= s@.len(),
            seen == has_digit(s@, a as int, q as int),
            fits ==> v == digits_value(s@, a as int, q as int),
            !fits ==> digits_value(s@, a as int, q as int) > usize::MAX,
        decreases b - q,
    {
        let ghost before = digits_value(s@, a as int, q as int);
        if is_digit(s[q]) {
            seen = true;
            if fits {
                let d: usize = (s[q] - 48u8) as usize;
                match v.checked_mul(10) {
                    Some(m) => match m.checked_add(d) {
                        Some(x) => {
                            v = x;
                        },
                        None => {
                            fits = false;
                        },
                    },
                    None => {
                        fits = false;
                    },
                }
            }
            assert(has_digit(s@, a as int, q + 1));
        } else {
            assert forall|p: int| a <= p < q + 1 && spec_is_digit(#[trigger] s@[p]) implies a <= p
                < q by {}
        }
        q = q + 1;
    }
    if seen && fits {
        Some(v)
    } else {
        None
    }
}

fn sequence_at_exec(s: &[u8], i: usize) -> (r: (usize, SeqKind))
    requires
        i < s@.len(),
    ensures
        (r.0 as int, r.1) == sequence_at(s@, i as int),
{
    proof {
        lemma_sequence_at_progress(s@, i as int);
    }
    let len = s.len();
    if s[i] == 123u8 {
        match find_byte_exec(s, 125u8, i, len) {
            Some(k) => (k + 1, SeqKind::Named),
            None => (len, SeqKind::Named),
        }
    } else if s[i] == 60u8 {
        match find_byte_exec(s, 62u8, i, len) {
            None => (len, SeqKind::NotASequence),
            Some(k) => {
                let j0 = skip_flags_exec(s, k + 1);
                let j1 = skip_digits_exec(s, j0);
                let j2 = if j1 < len && s[j1] == 46u8 {
                    skip_digits_exec(s, j1 + 1)
                } else {
                    j1
                };
                if j2 < len && is_format_type(s[j2]) {
                    (j2 + 1, SeqKind::Named)
                } else {
                    (j2, SeqKind::NotASequence)
                }
            },
        }
    } else {
        let f = skip_flags_exec(s, i);
        let star = f < len && s[f] == 42u8;
        let w = if star {
            f + 1
        } else {
            skip_digits_exec(s, f)
        };
        if w < len && s[w] == 36u8 {
            let num = numbered_arg_exec(s, i, w);
            let g = skip_flags_exec(s, w + 1);
            let h = if g < len && s[g] == 42u8 {
                let d = skip_digits_exec(s, g + 1);
                if d < len && s[d] == 36u8 {
                    d + 1
                } else {
                    g + 1
                }
            } else {
                skip_digits_exec(s, g)
            };
            let p = if h < len && s[h] == 46u8 {
                skip_digits_exec(s, h + 1)
            } else {
                h
            };
            if p < len && is_format_type(s[p]) {
                (p + 1, SeqKind::Numbered(num))
            } else {
                (p, SeqKind::NotASequence)
            }
        } else {
            let prec_star = w < len && s[w] == 46u8 && w + 1 < len && s[w + 1] == 42u8;
            let p = if w < len && s[w] == 46u8 {
                if prec_star {
                    w + 2
                } else {
                    skip_digits_exec(s, w + 1)
                }
            } else {
                w
            };
            if p < len && is_format_type(s[p]) {
                let n: usize = 1 + (if star {
                    1usize
                } else {
                    0usize
                }) + (if prec_star {
                    1usize
                } else {
                    0usize
                });
                (p + 1, SeqKind::Unnumbered(n))
            } else {
                (p, SeqKind::NotASequence)
            }
        }
    }
}

/// The fields of the format string `s`: the number of arguments it takes
/// and whether it takes them by name, or `None` when it mixes numbered, named
/// and unnumbered sequences.
pub fn parse_format_string(s: &[u8]) -> (r: Option<(usize, bool)>)
    ensures
        match r {
            Some((n, named)) => format_fields(s@) == Some((n as nat, named)),
            None => format_fields(s@) is None,
        },
{
    let len = s.len();
    let mut i: usize = 0;
    let mut count: usize = 0;
    let mut has_numbered = false;
    let mut has_unnumbered = false;
    let mut has_named = false;
    let mut max_numbered: usize = 0;
    while i < len
        invariant
            len == s@.len(),
            i <= len,
            count <= i,
            scan_format(
                s@,
                i as int,
                FormatSummary {
                    count: count as nat,
                    has_numbered,
                    has_unnumbered,
                    has_named,
                    max_numbered: max_numbered as nat,
                },
            ) == scan_format(s@, 0, empty_summary()),
        decreases len - i,
    {
        if s[i] != 37u8 {
            i = i + 1;
        } else if i + 1 >= len {
            i = len;
        } else if s[i + 1] == 37u8 {
            i = i + 2;
        } else {
            let (next, kind) = sequence_at_exec(s, i + 1);
            proof {
                lemma_sequence_at_progress(s@, i + 1);
            }
            match kind {
                SeqKind::NotASequence => {},
                SeqKind::Named => {
                    has_named = true;
                },
                SeqKind::Numbered(None) => {},
                SeqKind::Numbered(Some(n)) => {
                    has_numbered = true;
                    if n > max_numbered {
                        max_numbered = n;
                    }
                },
                SeqKind::Unnumbered(n) => {
                    has_unnumbered = true;
                    count = count + n;
                },
            }
            i = next;
        }
    }
    let kinds: usize = (if has_named {
        1usize
    } else {
        0usize
    }) + (if has_numbered {
        1usize
    } else {
        0usize
    }) + (if has_unnumbered {
        1usize
    } else {
        0usize
    });
    if kinds > 1 {
        None
    } else if has_named {
        Some((1, true))
    } else if has_numbered {
        Some((max_numbered, false))
    } else {
        Some((count, false))
    }
}


/// A piece of a string literal.
pub enum StrPart {
    /// Literal text, as its unescaped bytes.
    Text(Vec<u8>),
    /// An interpolation, or any other part that is not literal text.
    Interpolation,
}

/// What the cop reads of an expression that is a receiver or an argument.
pub enum FormatOperand {
    /// A string literal without interpolation, with its unescaped bytes.
    Str { heredoc: bool, value: Vec<u8> },
    /// A string literal with interpolation, part by part.
    Interpolated { heredoc: bool, parts: Vec<StrPart> },
    /// An array literal with this many elements.
    Array(usize),
    /// A splat `*x`.
    Splat,
    /// A constant, by its (last) name.
    Constant(String),
    /// Any other expression.
    Other,
}

/// A method call, as far as this cop reads it.
pub struct FormatCall {
    /// The name of the called method.
    pub method: String,
    /// The receiver, if there is one.
    pub receiver: Option<FormatOperand>,
    /// The arguments, in order.
    pub args: Vec<FormatOperand>,
    /// Where the offense is reported: the start of the method name, or of
    /// the call when it has no name.
    pub message_start: usize,
}

/// `v` ends with `%`, or with `%` and a flag or `.`: an interpolation right
/// after it could complete a format sequence.
pub open spec fn ends_with_partial_sequence(v: Seq<u8>) -> bool {
    let n = v.len() as int;
    (n >= 1 && v[n - 1] == 37u8) || (n >= 2 && v[n - 2] == 37u8 && (v[n - 1] == 45u8 || v[n
        - 1] == 43u8 || v[n - 1] == 48u8 || v[n - 1] == 46u8 || v[n - 1] == 35u8 || v[n - 1]
        == 32u8))
}

/// The literal text of `parts` joined, whether an interpolation occurs, and
/// whether one occurs right after a partial format sequence.
pub open spec fn join_parts(parts: Seq<StrPart>) -> (Seq<u8>, bool, bool)
    decreases parts.len(),
{
    if parts.len() == 0 {
        (Seq::empty(), false, false)
    } else {
        let prev = join_parts(parts.drop_last());
        match parts.last() {
            StrPart::Text(t) => (prev.0 + t@, prev.1, prev.2),
            StrPart::Interpolation => (prev.0, true, prev.2 || ends_with_partial_sequence(prev.0)),
        }
    }
}

/// The format string that a string literal gives (text, interpolated,
/// interpolated right after a partial sequence); `None` for other operands.
pub open spec fn format_string_of(o: FormatOperand) -> Option<(Seq<u8>, bool, bool)> {
    match o {
        FormatOperand::Str { value, .. } => Some((value@, false, false)),
        FormatOperand::Interpolated { parts, .. } => Some(join_parts(parts@)),
        _ => None,
    }
}

pub open spec fn is_heredoc(o: FormatOperand) -> bool {
    match o {
        FormatOperand::Str { heredoc, .. } => heredoc,
        FormatOperand::Interpolated { heredoc, .. } => heredoc,
        _ => false,
    }
}

/// `format` and `sprintf` are checked when called bare or on `Kernel`.
pub open spec fn is_format_receiver(r: Option<FormatOperand>) -> bool {
    match r {
        None => true,
        Some(FormatOperand::Constant(n)) => n@ == "Kernel"@,
        Some(_) => false,
    }
}

pub open spec fn count_message(args: nat, method: Seq<char>, fields: nat) -> Seq<char> {
    "Number of arguments ("@ + decimal(args) + ") to `"@ + method
        + "` doesn't match the number of fields ("@ + decimal(fields) + ")."@
}

pub open spec fn mixed_message() -> Seq<char> {
    "Format string is invalid because formatting sequence types (numbered, named or unnumbered) are mixed."@
}

/// The offense message of a call of `format` or `sprintf` (named `name`)
/// with arguments `args`, if any.
pub open spec fn format_sprintf_message(name: Seq<char>, args: Seq<FormatOperand>) -> Option<
    Seq<char>,
> {
    if args.len() <= 1 || is_heredoc(args[0]) {
        None
    } else {
        match format_string_of(args[0]) {
            None => None,
            Some((v, interp, affecting)) => {
                let count = (args.len() - 1) as nat;
                let has_splat = exists|k: int| 1 <= k < args.len() && #[trigger] args[k] is Splat;
                if interp && affecting {
                    None
                } else {
                    match format_fields(v) {
                        None => Some(mixed_message()),
                        Some((n, named)) => {
                            if n == 0 && !named && (interp || args[0] is Array) {
                                None
                            } else if named {
                                if count != 1 {
                                    Some(count_message(count, name, 1))
                                } else {
                                    None
                                }
                            } else if has_splat {
                                None
                            } else if count != n {
                                Some(count_message(count, name, n))
                            } else {
                                None
                            }
                        },
                    }
                }
            },
        }
    }
}

/// The offense message of `recv % args[0]`, if any.
pub open spec fn percent_message(recv: FormatOperand, args: Seq<FormatOperand>) -> Option<
    Seq<char>,
> {
    if is_heredoc(recv) {
        None
    } else {
        match format_string_of(recv) {
            None => None,
            Some((v, interp, affecting)) => {
                if interp && affecting || args.len() == 0 {
                    None
                } else {
                    let rhs = args[0];
                    match format_fields(v) {
                        None => Some(mixed_message()),
                        Some((n, named)) => {
                            if named {
                                None
                            } else if n == 0 && (rhs is Array || rhs is Interpolated) {
                                None
                            } else if n == 0 && interp {
                                None
                            } else {
                                match rhs {
                                    FormatOperand::Array(k) => if k != n {
                                        Some(count_message(k as nat, "String#%"@, n))
                                    } else {
                                        None
                                    },
                                    _ => None,
                                }
                            }
                        },
                    }
                }
            },
        }
    }
}

/// The offense message of `call`, if any.
pub open spec fn format_call_message(call: FormatCall) -> Option<Seq<char>> {
    let m = call.method@;
    if (m == "format"@ || m == "sprintf"@) && is_format_receiver(call.receiver) {
        format_sprintf_message(m, call.args@)
    } else if m == "%"@ && call.receiver is Some {
        percent_message(call.receiver.unwrap(), call.args@)
    } else {
        None
    }
}

fn ends_with_partial_sequence_exec(v: &Vec<u8>) -> (r: bool)
    ensures
        r == ends_with_partial_sequence(v@),
{
    let n = v.len();
    if n >= 1 && v[n - 1] == 37u8 {
        return true;
    }
    if n >= 2 && v[n - 2] == 37u8 {
        let c = v[n - 1];
        return c == 45u8 || c == 43u8 || c == 48u8 || c == 46u8 || c == 35u8 || c == 32u8;
    }
    false
}

fn join_parts_exec(parts: &Vec<StrPart>) -> (r: (Vec<u8>, bool, bool))
    ensures
        (r.0@, r.1, r.2) == join_parts(parts@),
{
    let mut text: Vec<u8> = Vec::new();
    let mut interp = false;
    let mut affecting = false;
    let mut i: usize = 0;
    while i < parts.len()
        invariant
            i <= parts@.len(),
            (text@, interp, affecting) == join_parts(parts@.subrange(0, i as int)),
        decreases parts@.len() - i,
    {
        assert(parts@.subrange(0, i + 1).drop_last() =~= parts@.subrange(0, i as int));
        match &parts[i] {
            StrPart::Text(t) => {
                text.extend_from_slice(t.as_slice());
            },
            StrPart::Interpolation => {
                if ends_with_partial_sequence_exec(&text) {
                    affecting = true;
                }
                interp = true;
            },
        }
        i = i + 1;
    }
    assert(parts@.subrange(0, parts@.len() as int) =~= parts@);
    (text, interp, affecting)
}

fn format_string_exec(o: &FormatOperand) -> (r: Option<(Vec<u8>, bool, bool)>)
    ensures
        match r {
            Some(t) => format_string_of(*o) == Some((t.0@, t.1, t.2)),
            None => format_string_of(*o) is None,
        },
{
    match o {
        FormatOperand::Str { value, .. } => {
            let mut v: Vec<u8> = Vec::new();
            v.extend_from_slice(value.as_slice());
            Some((v, false, false))
        },
        FormatOperand::Interpolated { parts, .. } => Some(join_parts_exec(parts)),
        _ => None,
    }
}

fn is_heredoc_exec(o: &FormatOperand) -> (r: bool)
    ensures
        r == is_heredoc(*o),
{
    match o {
        FormatOperand::Str { heredoc, .. } => *heredoc,
        FormatOperand::Interpolated { heredoc, .. } => *heredoc,
        _ => false,
    }
}

fn count_message_exec(args: usize, method: &str, fields: usize) -> (r: String)
    ensures
        r@ == count_message(args as nat, method@, fields as nat),
{
    let mut m = "Number of arguments (".to_owned();
    push_decimal(&mut m, args);
    m.append(") to `");
    m.append(method);
    m.append("` doesn't match the number of fields (");
    push_decimal(&mut m, fields);
    m.append(").");
    m
}

fn mixed_message_exec() -> (r: String)
    ensures
        r@ == mixed_message(),
{
    "Format string is invalid because formatting sequence types (numbered, named or unnumbered) are mixed.".to_owned()
}

fn format_sprintf_message_exec(name: &str, args: &Vec<FormatOperand>) -> (r: Option<String>)
    ensures
        match r {
            Some(m) => format_sprintf_message(name@, args@) == Some(m@),
            None => format_sprintf_message(name@, args@) is None,
        },
{
    if args.len() <= 1 || is_heredoc_exec(&args[0]) {
        return None;
    }
    let (v, interp, affecting) = match format_string_exec(&args[0]) {
        Some(t) => t,
        None => {
            return None;
        },
    };
    if interp && affecting {
        return None;
    }
    let count = args.len() - 1;
    let mut has_splat = false;
    let mut k: usize = 1;
    while k < args.len()
        invariant
            1 <= k <= args@.len(),
            has_splat == exists|j: int| 1 <= j < k && #[trigger] args@[j] is Splat,
        decreases args@.len() - k,
    {
        if matches!(args[k], FormatOperand::Splat) {
            has_splat = true;
        }
        k = k + 1;
    }
    match parse_format_string(v.as_slice()) {
        None => Some(mixed_message_exec()),
        Some((n, named)) => {
            if n == 0 && !named && (interp || matches!(args[0], FormatOperand::Array(_))) {
                None
            } else if named {
                if count != 1 {
                    Some(count_message_exec(count, name, 1))
                } else {
                    None
                }
            } else if has_splat {
                None
            } else if count != n {
                Some(count_message_exec(count, name, n))
            } else {
                None
            }
        },
    }
}

fn percent_message_exec(recv: &FormatOperand, args: &Vec<FormatOperand>) -> (r: Option<String>)
    ensures
        match r {
            Some(m) => percent_message(*recv, args@) == Some(m@),
            None => percent_message(*recv, args@) is None,
        },
{
    if is_heredoc_exec(recv) {
        return None;
    }
    let (v, interp, affecting) = match format_string_exec(recv) {
        Some(t) => t,
        None => {
            return None;
        },
    };
    if interp && affecting || args.len() == 0 {
        return None;
    }
    let rhs = &args[0];
    match parse_format_string(v.as_slice()) {
        None => Some(mixed_message_exec()),
        Some((n, named)) => {
            if named {
                None
            } else if n == 0 && (matches!(rhs, FormatOperand::Array(_)) || matches!(
                rhs,
                FormatOperand::Interpolated { .. }
            )) {
                None
            } else if n == 0 && interp {
                None
            } else {
                match rhs {
                    FormatOperand::Array(k) => if *k != n {
                        Some(count_message_exec(*k, "String#%", n))
                    } else {
                        None
                    },
                    _ => None,
                }
            }
        },
    }
}

impl FormatParameterMismatch {
    pub fn name(&self) -> (r: &'static str)
        ensures
            r@ == "Lint/FormatParameterMismatch"@,
    {
        "Lint/FormatParameterMismatch"
    }

    pub fn default_severity(&self) -> (r: Severity)
        ensures
            r == Severity::Warning,
    {
        Severity::Warning
    }

    /// The offense message of `call`, if it gives one.
    pub fn call_message(&self, call: &FormatCall) -> (r: Option<String>)
        ensures
            match r {
                Some(m) => format_call_message(*call) == Some(m@),
                None => format_call_message(*call) is None,
            },
    {
        let is_format = string_is(&call.method, "format");
        let is_sprintf = string_is(&call.method, "sprintf");
        let kernel_or_bare = match &call.receiver {
            None => true,
            Some(FormatOperand::Constant(n)) => string_is(n, "Kernel"),
            Some(_) => false,
        };
        if (is_format || is_sprintf) && kernel_or_bare {
            let name = if is_format {
                "format"
            } else {
                "sprintf"
            };
            return format_sprintf_message_exec(name, &call.args);
        }
        if string_is(&call.method, "%") {
            match &call.receiver {
                Some(recv) => percent_message_exec(recv, &call.args),
                None => None,
            }
        } else {
            None
        }
    }

    /// Checks one call of `source`, appending its offense, if any, at the
    /// start of the method name.
    pub fn check_call(&self, source: &SourceFile, call: &FormatCall, diagnostics: &mut Vec<Diagnostic>)
        requires
            call.message_start <= source@.len(),
        ensures
            extends_with_reports(
                old(diagnostics)@,
                final(diagnostics)@,
                source.spec_path(),
                "Lint/FormatParameterMismatch"@,
                Severity::Warning,
                match format_call_message(*call) {
                    Some(m) => seq![
                        (
                            line_of(source@, call.message_start as int) as int,
                            col_of(source@, call.message_start as int) as int,
                            m,
                        ),
                    ],
                    None => Seq::empty(),
                },
                false,
            ),
    {
        match self.call_message(call) {
            Some(m) => {
                let (line, column) = source.offset_to_line_col(call.message_start);
                let ghost old_d = diagnostics@;
                let d = new_diagnostic(source, "Lint/FormatParameterMismatch", Severity::Warning, line, column, m);
                diagnostics.push(d);
                proof {
                    lemma_reports_empty(old_d, source.spec_path(), "Lint/FormatParameterMismatch"@, Severity::Warning, false);
                    assert(diagnostics@.drop_last() =~= old_d);
                    lemma_reports_push(
                        old_d,
                        old_d,
                        diagnostics@,
                        source.spec_path(),
                        "Lint/FormatParameterMismatch"@,
                        Severity::Warning,
                        Seq::empty(),
                        (line as int, column as int, m@),
                        false,
                    );
                    assert(Seq::<(int, int, Seq<char>)>::empty().push((line as int, column as int, m@)) =~= seq![(line as int, column as int, m@)]);
                }
            },
            None => {
                proof {
                    lemma_reports_empty(diagnostics@, source.spec_path(), "Lint/FormatParameterMismatch"@, Severity::Warning, false);
                }
            },
        }
    }
}

} // verus!
