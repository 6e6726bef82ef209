use crate::cop::config::{spec_get_str, spec_get_usize, CopConfig};
use crate::cop::report::{adds_offense, emit_offense};
use crate::cop::util::{
    assignment_base, assignment_base_exec, begins_its_line, decimal, find_line_start,
    is_valid_utf8, line_end_exec, lossy_text, push_decimal, skip_indent, skip_indent_exec,
    spec_begins_its_line, spec_line_indent, starts_with_at, starts_with_at_exec, string_is,
    text_of, utrim_start, utrim_start_exec, ws_len_at, ws_len_at_exec, blank_run_exec,
};
use crate::correction::Correction;
use crate::diagnostic::{new_diagnostic, reports, Diagnostic, Severity};
use crate::parse::source::{col_of, line_end, line_of, line_start, SourceFile};
use vstd::prelude::*;
use vstd::utf8::valid_utf8;

verus! {

/// Layout/MultilineMethodCallIndentation: the indentation of method calls
/// continued on a new line with a leading dot.
pub struct MultilineMethodCallIndentation;

/// What a receiver in a chain is.
pub enum LinkKind {
    /// A method call: where its dot starts (if it has one), whether it has a
    /// block, its name, and where its first argument lies (if it has one).
    Call { dot: Option<usize>, has_block: bool, name: String, first_arg: Option<(usize, usize)> },
    /// Any other expression.
    Other,
}

/// One receiver of a chain, spanning `start..end`.
pub struct Link {
    pub start: usize,
    pub end: usize,
    pub kind: LinkKind,
}

/// A method call with a receiver, as far as the cop reads it.
pub struct ChainCall {
    /// The method's name.
    pub name: String,
    /// Where its dot starts, if it has one.
    pub dot: Option<usize>,
    /// Its receiver, then the receiver's receiver, and so on, down to the root
    /// of the chain.
    pub receivers: Vec<Link>,
    /// The call sits inside the parentheses of a call's arguments or of a
    /// grouping...
    pub in_paren_args: bool,
    /// ... and (if so) inside the value of a hash pair.
    pub in_hash_value: bool,
}

/// Link `i` is a call whose receiver is link `i + 1`.
pub open spec fn has_recv(ls: Seq<Link>, i: int) -> bool {
    0 <= i && i + 1 < ls.len() && ls[i].kind is Call
}

/// The root of the chain from link `i`: the first link that is not a call
/// with a receiver.
pub open spec fn root_index(ls: Seq<Link>, i: int) -> int
    decreases ls.len() - i,
{
    if has_recv(ls, i) {
        root_index(ls, i + 1)
    } else {
        i
    }
}

/// The dot of link `i`, if it is a call with one.
pub open spec fn dot_of(ls: Seq<Link>, i: int) -> Option<int> {
    match ls[i].kind {
        LinkKind::Call { dot: Some(d), .. } => Some(d as int),
        _ => None,
    }
}

/// Where the chain from link `i` starts, as a position on its first line: it
/// goes down through calls whose dot is on another line than their receiver.
pub open spec fn chain_start(s: Seq<u8>, ls: Seq<Link>, i: int) -> int
    decreases ls.len() - i,
{
    if has_recv(ls, i) {
        let recv_line = line_of(s, ls[i + 1].start as int);
        let msg_line = match dot_of(ls, i) {
            Some(d) => line_of(s, d),
            None => recv_line,
        };
        if msg_line != recv_line {
            chain_start(s, ls, i + 1)
        } else {
            ls[i].start as int
        }
    } else {
        ls[i].start as int
    }
}

/// The column of the earliest leading dot of the chain from link `i` that
/// lies on a line before `cur`, through leading dots on earlier lines.
pub open spec fn dot_col(s: Seq<u8>, ls: Seq<Link>, i: int, cur: int) -> Option<int>
    decreases ls.len() - i,
{
    if i < 0 || i >= ls.len() {
        None
    } else {
        match dot_of(ls, i) {
            Some(d) => {
                let dl = line_of(s, d) as int;
                if dl < cur && spec_begins_its_line(s, d) {
                    if has_recv(ls, i) {
                        match dot_col(s, ls, i + 1, dl) {
                            Some(e) => Some(e),
                            None => Some(col_of(s, d) as int),
                        }
                    } else {
                        Some(col_of(s, d) as int)
                    }
                } else if has_recv(ls, i) {
                    dot_col(s, ls, i + 1, cur)
                } else {
                    None
                }
            },
            None => None,
        }
    }
}

/// The receiver is a call with a block whose dot is on the line where the
/// call ends, before line `cur`: the column of that dot.
pub open spec fn block_chain_col(s: Seq<u8>, ls: Seq<Link>, cur: int) -> Option<int> {
    if ls.len() > 0 {
        match ls[0].kind {
            LinkKind::Call { dot: Some(d), has_block: true, .. } => if line_of(s, d as int) == line_of(
                s,
                ls[0].end as int,
            ) && line_of(s, d as int) < cur {
                Some(col_of(s, d as int) as int)
            } else {
                None
            },
            _ => None,
        }
    } else {
        None
    }
}

/// The dot of the deepest call of the chain from link `i` that has one.
pub open spec fn first_call_dot(ls: Seq<Link>, i: int) -> Option<int>
    decreases ls.len() - i,
{
    if i < 0 || i >= ls.len() || !(ls[i].kind is Call) {
        None
    } else {
        let deeper = if has_recv(ls, i) {
            first_call_dot(ls, i + 1)
        } else {
            None
        };
        match deeper {
            Some(x) => Some(x),
            None => dot_of(ls, i),
        }
    }
}

/// The deepest call's dot, when it is not the receiver's own, lies on `line`
/// at column `col`.
pub open spec fn matching_first_dot(s: Seq<u8>, ls: Seq<Link>, line: int, col: int) -> bool {
    match first_call_dot(ls, 0) {
        Some(fc) => if dot_of(ls, 0) == Some(fc) {
            false
        } else {
            line_of(s, fc) == line && col_of(s, fc) == col
        },
        None => false,
    }
}

/// The text of the line of `p` after its indentation starts with `kw`.
pub open spec fn line_text_starts(s: Seq<u8>, p: int, kw: Seq<u8>) -> bool {
    let ls = line_start(s, p);
    let le = line_end(s, ls);
    starts_with_at(s, skip_indent(s, ls, le), le, kw)
}

/// Two more columns when the line of `p` starts with `return`, `if`,
/// `while`, `until`, `for` or `unless` as a keyword.
pub open spec fn keyword_extra(s: Seq<u8>, p: int) -> int {
    if line_text_starts(s, p, seq![114u8, 101u8, 116u8, 117u8, 114u8, 110u8, 32u8]) || line_text_starts(
        s,
        p,
        seq![114u8, 101u8, 116u8, 117u8, 114u8, 110u8, 40u8],
    ) || line_text_starts(s, p, seq![105u8, 102u8, 32u8]) || line_text_starts(
        s,
        p,
        seq![119u8, 104u8, 105u8, 108u8, 101u8, 32u8],
    ) || line_text_starts(s, p, seq![117u8, 110u8, 116u8, 105u8, 108u8, 32u8]) || line_text_starts(
        s,
        p,
        seq![102u8, 111u8, 114u8, 32u8],
    ) || line_text_starts(s, p, seq![117u8, 110u8, 108u8, 101u8, 115u8, 115u8, 32u8]) {
        2
    } else {
        0
    }
}

/// The start of the nearest line at or above that of `p` that does not start
/// (after its indentation) with `.` or `&.`, or of the first line.
pub open spec fn base_line_start(s: Seq<u8>, p: int) -> int
    decreases p,
{
    let ls = line_start(s, p);
    if 0 < ls <= p && (line_text_starts(s, ls, seq![46u8]) || line_text_starts(s, ls, seq![38u8, 46u8])) {
        base_line_start(s, ls - 1)
    } else {
        ls
    }
}


/// The column of the chain's root.
pub open spec fn root_col(s: Seq<u8>, ls: Seq<Link>) -> int {
    col_of(s, ls[root_index(ls, 0)].start as int) as int
}

pub open spec fn is_indented_style(st: Seq<char>) -> bool {
    st == "indented"@ || st == "indented_relative_to_receiver"@
}

/// The column the dot of `c` (at `d`) must start at, or `None` where it is
/// taken as it is. Style `indented` (or `indented_relative_to_receiver`):
/// one step past the indentation of the chain's first line that is not a
/// dot line, and one more after a keyword. Otherwise (`aligned`): inside a
/// hash value, the block call's dot or the root, unless the dot lines up with
/// the first dot of the chain; for the value of an assignment, the root;
/// else the block call's dot or the earliest leading dot above.
pub open spec fn expected_column(s: Seq<u8>, c: ChainCall, d: int, st: Seq<char>, width: int) -> Option<int> {
    let ls = c.receivers@;
    let msg_line = line_of(s, d) as int;
    let msg_col = col_of(s, d) as int;
    if is_indented_style(st) {
        let cs = chain_start(s, ls, 0);
        Some(spec_line_indent(s, base_line_start(s, cs)) + width + keyword_extra(s, cs))
    } else if c.in_hash_value {
        if matching_first_dot(s, ls, line_of(s, chain_start(s, ls, 0)) as int, msg_col) {
            None
        } else {
            match block_chain_col(s, ls, msg_line) {
                Some(x) => Some(x),
                None => Some(root_col(s, ls)),
            }
        }
    } else if assignment_base(s, ls[root_index(ls, 0)].start as int) is Some {
        Some(root_col(s, ls))
    } else {
        match block_chain_col(s, ls, msg_line) {
            Some(x) => Some(x),
            None => dot_col(s, ls, 0, msg_line),
        }
    }
}

/// The first position at or after `p` within `[p, b)` where white space
/// starts, or `b`.
pub open spec fn next_ws(s: Seq<u8>, p: int, b: int) -> int
    decreases b - p,
{
    if p >= b || ws_len_at(s, p, b) > 0 {
        p
    } else {
        next_ws(s, p + 1, b)
    }
}

/// The first word of the text `[a, b)`, or `?` when there is none or the
/// text is not UTF-8.
pub open spec fn first_word(s: Seq<u8>, a: int, b: int) -> Seq<char> {
    if !valid_utf8(s.subrange(a, b)) {
        "?"@
    } else {
        let t = utrim_start(s, a, b);
        if t >= b {
            "?"@
        } else {
            lossy_text(s.subrange(t, next_ws(s, t, b)))
        }
    }
}

/// How the root of the chain reads in a message, and its line.
pub open spec fn root_description(s: Seq<u8>, ls: Seq<Link>) -> (Seq<char>, int) {
    let r = ls[root_index(ls, 0)];
    match r.kind {
        LinkKind::Call { name, first_arg, .. } => (
            match first_arg {
                Some((a, b)) => if valid_utf8(s.subrange(a as int, b as int)) {
                    name@ + "("@ + lossy_text(s.subrange(a as int, b as int)) + ")"@
                } else {
                    name@
                },
                None => name@,
            },
            line_of(s, r.start as int) as int,
        ),
        LinkKind::Other => (first_word(s, r.start as int, r.end as int), line_of(s, r.start as int) as int),
    }
}

/// What the dot is aligned against, as a message names it: the block call's
/// selector when the receiver is a call with a block on one line, else the
/// root.
pub open spec fn base_description(s: Seq<u8>, ls: Seq<Link>) -> (Seq<char>, int) {
    match ls[0].kind {
        LinkKind::Call { dot: Some(d), has_block: true, name, .. } => if line_of(s, d as int) == line_of(
            s,
            ls[0].end as int,
        ) {
            ("."@ + name@, line_of(s, d as int) as int)
        } else {
            root_description(s, ls)
        },
        _ => root_description(s, ls),
    }
}

pub open spec fn chain_message(s: Seq<u8>, c: ChainCall, d: int, st: Seq<char>, width: nat) -> Seq<char> {
    let ls = c.receivers@;
    if st == "aligned"@ {
        let (base, line) = base_description(s, ls);
        "Align `."@ + c.name@ + "` with `"@ + base + "` on line "@ + decimal(line as nat) + "."@
    } else {
        let ci = spec_line_indent(s, base_line_start(s, chain_start(s, ls, 0)));
        let col = col_of(s, d);
        let diff: nat = if col >= ci {
            (col - ci) as nat
        } else {
            0
        };
        "Use "@ + decimal(width) + " (not "@ + decimal(diff)
            + ") spaces for indentation of a chained method call."@
    }
}

/// The call is one the cop checks: its dot starts a line other than the one
/// its receiver ends on, and it is not inside parentheses (unless inside a
/// hash value there).
pub open spec fn checked(s: Seq<u8>, c: ChainCall) -> bool {
    &&& c.receivers@.len() > 0
    &&& c.dot is Some
    &&& line_of(s, c.dot->0 as int) != line_of(s, c.receivers@[0].end as int)
    &&& spec_begins_its_line(s, c.dot->0 as int)
    &&& !(c.in_paren_args && !c.in_hash_value)
}

/// The offense of one call under the options `EnforcedStyle` (default
/// `aligned`) and `IndentationWidth` (default 2).
pub open spec fn chain_offense(s: Seq<u8>, c: ChainCall, config: CopConfig) -> Option<
    (int, int, Seq<char>, Option<(int, int, Seq<char>)>),
> {
    let st = spec_get_str(config.options@, "EnforcedStyle"@, "aligned"@);
    let width = spec_get_usize(config.options@, "IndentationWidth"@, 2);
    if !checked(s, c) {
        None
    } else {
        let d = c.dot->0 as int;
        match expected_column(s, c, d, st, width as int) {
            Some(e) => if col_of(s, d) != e {
                Some((line_of(s, d) as int, col_of(s, d) as int, chain_message(s, c, d, st, width as nat), None))
            } else {
                None
            },
            None => None,
        }
    }
}

pub open spec fn link_in_bounds(s: Seq<u8>, l: Link) -> bool {
    &&& l.start <= l.end <= s.len()
    &&& match l.kind {
        LinkKind::Call { dot, first_arg, .. } => (match dot {
            Some(d) => d <= s.len(),
            None => true,
        }) && match first_arg {
            Some((a, b)) => a <= b <= s.len(),
            None => true,
        },
        LinkKind::Other => true,
    }
}

pub open spec fn chain_in_bounds(s: Seq<u8>, c: ChainCall) -> bool {
    &&& match c.dot {
        Some(d) => d <= s.len(),
        None => true,
    }
    &&& forall|i: int| 0 <= i < c.receivers@.len() ==> link_in_bounds(s, #[trigger] c.receivers@[i])
}


pub open spec fn all_links_in_bounds(s: Seq<u8>, ls: Seq<Link>) -> bool {
    forall|i: int| 0 <= i < ls.len() ==> link_in_bounds(s, #[trigger] ls[i])
}

fn is_call(l: &Link) -> (r: bool)
    ensures
        r == (l.kind is Call),
{
    match l.kind {
        LinkKind::Call { .. } => true,
        LinkKind::Other => false,
    }
}

fn dot_exec(ls: &Vec<Link>, i: usize) -> (r: Option<usize>)
    requires
        i < ls@.len(),
    ensures
        match dot_of(ls@, i as int) {
            Some(d) => r == Some(d as usize) && d == r->0,
            None => r is None,
        },
{
    match &ls[i].kind {
        LinkKind::Call { dot, .. } => *dot,
        LinkKind::Other => None,
    }
}

fn root_index_exec(ls: &Vec<Link>, i: usize) -> (r: usize)
    requires
        i < ls@.len(),
    ensures
        r == root_index(ls@, i as int),
        r < ls@.len(),
    decreases ls@.len() - i,
{
    if ls.len() - i > 1 && is_call(&ls[i]) {
        root_index_exec(ls, i + 1)
    } else {
        i
    }
}

fn chain_start_exec(source: &SourceFile, ls: &Vec<Link>, i: usize) -> (r: usize)
    requires
        i < ls@.len(),
        all_links_in_bounds(source@, ls@),
    ensures
        r == chain_start(source@, ls@, i as int),
        r <= source@.len(),
    decreases ls@.len() - i,
{
    assert(link_in_bounds(source@, ls@[i as int]));
    if ls.len() - i > 1 && is_call(&ls[i]) {
        assert(link_in_bounds(source@, ls@[i + 1]));
        let (recv_line, _) = source.offset_to_line_col(ls[i + 1].start);
        let msg_line = match dot_exec(ls, i) {
            Some(d) => source.offset_to_line_col(d).0,
            None => recv_line,
        };
        if msg_line != recv_line {
            chain_start_exec(source, ls, i + 1)
        } else {
            ls[i].start
        }
    } else {
        ls[i].start
    }
}

fn dot_col_exec(source: &SourceFile, ls: &Vec<Link>, i: usize, cur: usize) -> (r: Option<usize>)
    requires
        all_links_in_bounds(source@, ls@),
    ensures
        match dot_col(source@, ls@, i as int, cur as int) {
            Some(c) => r == Some(c as usize) && c == r->0,
            None => r is None,
        },
    decreases ls@.len() - i,
{
    if i >= ls.len() {
        return None;
    }
    assert(link_in_bounds(source@, ls@[i as int]));
    match dot_exec(ls, i) {
        Some(d) => {
            let (dl, dc) = source.offset_to_line_col(d);
            if dl < cur && begins_its_line(source.as_bytes(), d) {
                if i + 1 < ls.len() && is_call(&ls[i]) {
                    match dot_col_exec(source, ls, i + 1, dl) {
                        Some(e) => Some(e),
                        None => Some(dc),
                    }
                } else {
                    Some(dc)
                }
            } else if i + 1 < ls.len() && is_call(&ls[i]) {
                dot_col_exec(source, ls, i + 1, cur)
            } else {
                None
            }
        },
        None => None,
    }
}

fn block_chain_col_exec(source: &SourceFile, ls: &Vec<Link>, cur: usize) -> (r: Option<usize>)
    requires
        all_links_in_bounds(source@, ls@),
    ensures
        match block_chain_col(source@, ls@, cur as int) {
            Some(c) => r == Some(c as usize) && c == r->0,
            None => r is None,
        },
{
    if ls.len() == 0 {
        return None;
    }
    assert(link_in_bounds(source@, ls@[0]));
    match &ls[0].kind {
        LinkKind::Call { dot: Some(d), has_block, .. } => {
            if *has_block {
                let (dl, dc) = source.offset_to_line_col(*d);
                let (el, _) = source.offset_to_line_col(ls[0].end);
                if dl == el && dl < cur {
                    Some(dc)
                } else {
                    None
                }
            } else {
                None
            }
        },
        _ => None,
    }
}

fn first_call_dot_exec(ls: &Vec<Link>, i: usize) -> (r: Option<usize>)
    ensures
        match first_call_dot(ls@, i as int) {
            Some(d) => r == Some(d as usize) && d == r->0,
            None => r is None,
        },
    decreases ls@.len() - i,
{
    if i >= ls.len() || !is_call(&ls[i]) {
        return None;
    }
    let deeper = if i + 1 < ls.len() {
        first_call_dot_exec(ls, i + 1)
    } else {
        None
    };
    match deeper {
        Some(x) => Some(x),
        None => dot_exec(ls, i),
    }
}

fn line_text_starts_exec(bytes: &[u8], p: usize, kw: &[u8]) -> (r: bool)
    requires
        p <= bytes@.len(),
    ensures
        r == line_text_starts(bytes@, p as int, kw@),
{
    let ls = find_line_start(bytes, p);
    let le = line_end_exec(bytes, ls);
    let t = skip_indent_exec(bytes, ls, le);
    starts_with_at_exec(bytes, t, le, kw)
}

fn keyword_extra_exec(bytes: &[u8], p: usize) -> (r: usize)
    requires
        p <= bytes@.len(),
    ensures
        r == keyword_extra(bytes@, p as int),
{
    let k1 = vec![114u8, 101u8, 116u8, 117u8, 114u8, 110u8, 32u8];
    let k2 = vec![114u8, 101u8, 116u8, 117u8, 114u8, 110u8, 40u8];
    let k3 = vec![105u8, 102u8, 32u8];
    let k4 = vec![119u8, 104u8, 105u8, 108u8, 101u8, 32u8];
    let k5 = vec![117u8, 110u8, 116u8, 105u8, 108u8, 32u8];
    let k6 = vec![102u8, 111u8, 114u8, 32u8];
    let k7 = vec![117u8, 110u8, 108u8, 101u8, 115u8, 115u8, 32u8];
    assert(k1@ =~= seq![114u8, 101u8, 116u8, 117u8, 114u8, 110u8, 32u8]);
    assert(k2@ =~= seq![114u8, 101u8, 116u8, 117u8, 114u8, 110u8, 40u8]);
    assert(k3@ =~= seq![105u8, 102u8, 32u8]);
    assert(k4@ =~= seq![119u8, 104u8, 105u8, 108u8, 101u8, 32u8]);
    assert(k5@ =~= seq![117u8, 110u8, 116u8, 105u8, 108u8, 32u8]);
    assert(k6@ =~= seq![102u8, 111u8, 114u8, 32u8]);
    assert(k7@ =~= seq![117u8, 110u8, 108u8, 101u8, 115u8, 115u8, 32u8]);
    if line_text_starts_exec(bytes, p, k1.as_slice()) || line_text_starts_exec(bytes, p, k2.as_slice())
        || line_text_starts_exec(bytes, p, k3.as_slice()) || line_text_starts_exec(
        bytes,
        p,
        k4.as_slice(),
    ) || line_text_starts_exec(bytes, p, k5.as_slice()) || line_text_starts_exec(
        bytes,
        p,
        k6.as_slice(),
    ) || line_text_starts_exec(bytes, p, k7.as_slice()) {
        2
    } else {
        0
    }
}

fn base_line_start_exec(bytes: &[u8], p: usize) -> (r: usize)
    requires
        p <= bytes@.len(),
    ensures
        r == base_line_start(bytes@, p as int),
        r <= p,
    decreases p,
{
    let ls = find_line_start(bytes, p);
    let dot = vec![46u8];
    let amp_dot = vec![38u8, 46u8];
    assert(dot@ =~= seq![46u8]);
    assert(amp_dot@ =~= seq![38u8, 46u8]);
    if 0 < ls && (line_text_starts_exec(bytes, ls, dot.as_slice()) || line_text_starts_exec(
        bytes,
        ls,
        amp_dot.as_slice(),
    )) {
        base_line_start_exec(bytes, ls - 1)
    } else {
        ls
    }
}

fn next_ws_exec(bytes: &[u8], p: usize, b: usize) -> (r: usize)
    requires
        p <= b <= bytes@.len(),
    ensures
        r == next_ws(bytes@, p as int, b as int),
        p <= r <= b,
{
    let mut q = p;
    while q < b && ws_len_at_exec(bytes, q, b) == 0
        invariant
            p <= q <= b <= bytes@.len(),
            next_ws(bytes@, p as int, b as int) == next_ws(bytes@, q as int, b as int),
        decreases b - q,
    {
        q = q + 1;
    }
    q
}

fn first_word_exec(bytes: &[u8], a: usize, b: usize) -> (r: String)
    requires
        a <= b <= bytes@.len(),
    ensures
        r@ == first_word(bytes@, a as int, b as int),
{
    if !is_valid_utf8(vstd::slice::slice_subrange(bytes, a, b)) {
        return "?".to_owned();
    }
    let t = utrim_start_exec(bytes, a, b);
    if t >= b {
        return "?".to_owned();
    }
    let e = next_ws_exec(bytes, t, b);
    text_of(vstd::slice::slice_subrange(bytes, t, e))
}

fn root_description_exec(source: &SourceFile, ls: &Vec<Link>) -> (r: (String, usize))
    requires
        ls@.len() > 0,
        all_links_in_bounds(source@, ls@),
    ensures
        r.0@ == root_description(source@, ls@).0,
        r.1 == root_description(source@, ls@).1,
{
    let bytes = source.as_bytes();
    let k = root_index_exec(ls, 0);
    let root = &ls[k];
    assert(link_in_bounds(source@, ls@[k as int]));
    let (line, _) = source.offset_to_line_col(root.start);
    match &root.kind {
        LinkKind::Call { name, first_arg, .. } => {
            let text = match first_arg {
                Some((a, b)) => {
                    let arg = vstd::slice::slice_subrange(bytes, *a, *b);
                    if is_valid_utf8(arg) {
                        let mut t = name.clone();
                        t.append("(");
                        let at = text_of(arg);
                        t.append(at.as_str());
                        t.append(")");
                        t
                    } else {
                        name.clone()
                    }
                },
                None => name.clone(),
            };
            (text, line)
        },
        LinkKind::Other => (first_word_exec(bytes, root.start, root.end), line),
    }
}

fn base_description_exec(source: &SourceFile, ls: &Vec<Link>) -> (r: (String, usize))
    requires
        ls@.len() > 0,
        all_links_in_bounds(source@, ls@),
    ensures
        r.0@ == base_description(source@, ls@).0,
        r.1 == base_description(source@, ls@).1,
{
    assert(link_in_bounds(source@, ls@[0]));
    match &ls[0].kind {
        LinkKind::Call { dot: Some(d), has_block, name, .. } => {
            if *has_block {
                let (dl, _) = source.offset_to_line_col(*d);
                let (el, _) = source.offset_to_line_col(ls[0].end);
                if dl == el {
                    let mut t = ".".to_owned();
                    t.append(name.as_str());
                    return (t, dl);
                }
            }
            root_description_exec(source, ls)
        },
        _ => root_description_exec(source, ls),
    }
}


impl MultilineMethodCallIndentation {
    pub fn name(&self) -> (r: &'static str)
        ensures
            r@ == "Layout/MultilineMethodCallIndentation"@,
    {
        "Layout/MultilineMethodCallIndentation"
    }

    /// Checks one method call that has a receiver.
    pub fn check_call(
        &self,
        source: &SourceFile,
        call: &ChainCall,
        config: &CopConfig,
        diagnostics: &mut Vec<Diagnostic>,
    )
        requires
            chain_in_bounds(source@, *call),
        ensures
            match chain_offense(source@, *call, *config) {
                None => final(diagnostics)@ == old(diagnostics)@,
                Some(o) => {
                    &&& final(diagnostics)@.len() == old(diagnostics)@.len() + 1
                    &&& final(diagnostics)@.drop_last() == old(diagnostics)@
                    &&& reports(
                        final(diagnostics)@.last(),
                        source.spec_path(),
                        "Layout/MultilineMethodCallIndentation"@,
                        Severity::Convention,
                        o.0,
                        o.1,
                        o.2,
                        false,
                    )
                },
            },
    {
        let ls = &call.receivers;
        if ls.len() == 0 {
            return;
        }
        let d = match call.dot {
            Some(d) => d,
            None => {
                return;
            },
        };
        let ghost c = *call;
        assert(all_links_in_bounds(source@, ls@));
        assert(link_in_bounds(source@, ls@[0]));
        let bytes = source.as_bytes();
        let (recv_end_line, _) = source.offset_to_line_col(ls[0].end);
        let (msg_line, msg_col) = source.offset_to_line_col(d);
        if msg_line == recv_end_line {
            return;
        }
        if !begins_its_line(bytes, d) {
            return;
        }
        if call.in_paren_args && !call.in_hash_value {
            return;
        }
        let style = config.get_str("EnforcedStyle", "aligned");
        let width = config.get_usize("IndentationWidth", 2);
        let ghost st = spec_get_str(config.options@, "EnforcedStyle"@, "aligned"@);
        let indented = string_is(&style, "indented") || string_is(&style, "indented_relative_to_receiver");
        let expected: Option<u128> = if indented {
            let cs = chain_start_exec(source, ls, 0);
            let base = base_line_start_exec(bytes, cs);
            let ind = blank_run_exec(bytes, base);
            proof {
                lemma_base_line_start(source@, cs as int);
            }
            let extra = keyword_extra_exec(bytes, cs);
            Some(ind as u128 + width as u128 + extra as u128)
        } else if call.in_hash_value {
            let cs = chain_start_exec(source, ls, 0);
            let (cs_line, _) = source.offset_to_line_col(cs);
            let fc = first_call_dot_exec(ls, 0);
            let matching = match fc {
                Some(f) => {
                    let own = dot_exec(ls, 0);
                    if own == Some(f) {
                        false
                    } else {
                        assert(f <= source@.len()) by {
                            lemma_first_call_dot_bounds(source@, ls@, 0);
                        }
                        let (fl, fcol) = source.offset_to_line_col(f);
                        fl == cs_line && fcol == msg_col
                    }
                },
                None => false,
            };
            if matching {
                None
            } else {
                match block_chain_col_exec(source, ls, msg_line) {
                    Some(x) => Some(x as u128),
                    None => {
                        let k = root_index_exec(ls, 0);
                        assert(link_in_bounds(source@, ls@[k as int]));
                        Some(source.offset_to_line_col(ls[k].start).1 as u128)
                    },
                }
            }
        } else {
            let k = root_index_exec(ls, 0);
            assert(link_in_bounds(source@, ls@[k as int]));
            if assignment_base_exec(bytes, ls[k].start).is_some() {
                Some(source.offset_to_line_col(ls[k].start).1 as u128)
            } else {
                match block_chain_col_exec(source, ls, msg_line) {
                    Some(x) => Some(x as u128),
                    None => match dot_col_exec(source, ls, 0, msg_line) {
                        Some(x) => Some(x as u128),
                        None => None,
                    },
                }
            }
        };
        let ghost ex = expected_column(source@, c, d as int, st, width as int);
        assert(match ex {
            Some(e) => expected == Some(e as u128) && e == expected->0,
            None => expected is None,
        });
        let e = match expected {
            Some(e) => e,
            None => {
                return;
            },
        };
        if msg_col as u128 == e {
            return;
        }
        let msg = if string_is(&style, "aligned") {
            let (base, line) = base_description_exec(source, ls);
            let mut m = "Align `.".to_owned();
            m.append(call.name.as_str());
            m.append("` with `");
            m.append(base.as_str());
            m.append("` on line ");
            push_decimal(&mut m, line);
            m.append(".");
            m
        } else {
            let cs = chain_start_exec(source, ls, 0);
            let base = base_line_start_exec(bytes, cs);
            let ci = blank_run_exec(bytes, base);
            proof {
                lemma_base_line_start(source@, cs as int);
            }
            let diff = if msg_col >= ci {
                msg_col - ci
            } else {
                0
            };
            let mut m = "Use ".to_owned();
            push_decimal(&mut m, width);
            m.append(" (not ");
            push_decimal(&mut m, diff);
            m.append(") spaces for indentation of a chained method call.");
            m
        };
        let ghost mm = msg@;
        assert(mm == chain_message(source@, c, d as int, st, width as nat));
        let dg = new_diagnostic(
            source,
            "Layout/MultilineMethodCallIndentation",
            Severity::Convention,
            msg_line,
            msg_col,
            msg,
        );
        diagnostics.push(dg);
        assert(diagnostics@.drop_last() =~= old(diagnostics)@);
    }
}

/// The base line's start is a line start.
proof fn lemma_base_line_start(s: Seq<u8>, p: int)
    requires
        0 <= p <= s.len(),
    ensures
        0 <= base_line_start(s, p) <= p,
        line_start(s, base_line_start(s, p)) == base_line_start(s, p),
    decreases p,
{
    crate::parse::source::lemma_line_start_bounds(s, p);
    let ls = line_start(s, p);
    if 0 < ls <= p && (line_text_starts(s, ls, seq![46u8]) || line_text_starts(s, ls, seq![38u8, 46u8])) {
        lemma_base_line_start(s, ls - 1);
    }
}

proof fn lemma_first_call_dot_bounds(s: Seq<u8>, ls: Seq<Link>, i: int)
    requires
        all_links_in_bounds(s, ls),
    ensures
        first_call_dot(ls, i) matches Some(d) ==> d <= s.len(),
    decreases ls.len() - i,
{
    if 0 <= i < ls.len() && ls[i].kind is Call {
        assert(link_in_bounds(s, ls[i]));
        if has_recv(ls, i) {
            lemma_first_call_dot_bounds(s, ls, i + 1);
        }
    }
}

} // verus!
