use crate::cop::config::{spec_get_str, CopConfig};
use crate::cop::util::{
    begins_its_line, string_is, blank_run, blank_run_exec, find_line_start, is_word, line_indent, spec_begins_its_line,
    spec_is_word, spec_line_indent,
};
use crate::diagnostic::{new_diagnostic, reports, Diagnostic, Severity};
use crate::parse::source::{col_of, line_of, line_start, SourceFile, NEWLINE};
use vstd::prelude::*;

verus! {

/// Checks whether the `end` keywords and closing braces of `do..end` and
/// `{..}` blocks (and of lambdas) are aligned.
pub struct BlockAlignment;

/// What the cop reads of one block: the start of the expression that owns
/// it (the call with its receiver chain, or the `->` of a lambda), the
/// offset of its opener (`do` or `{`) and the byte range of its closer.
#[derive(Clone, Copy, Debug)]
pub struct BlockSite {
    pub is_lambda: bool,
    pub expr_start: usize,
    pub opening_start: usize,
    pub closing_start: usize,
    pub closing_end: usize,
}

pub open spec fn site_in_bounds(s: Seq<u8>, site: BlockSite) -> bool {
    &&& site.expr_start <= s.len()
    &&& site.opening_start <= s.len()
    &&& site.closing_start <= site.closing_end <= s.len()
}

/// Walks back over spaces from `p`, not past `ls`.
pub open spec fn skip_spaces_back(s: Seq<u8>, ls: int, p: int) -> int
    decreases p - ls,
{
    if p > ls && s[p - 1] == 32u8 {
        skip_spaces_back(s, ls, p - 1)
    } else {
        p
    }
}

pub proof fn lemma_skip_spaces_back(s: Seq<u8>, ls: int, p: int)
    requires
        ls <= p,
    ensures
        ls <= skip_spaces_back(s, ls, p) <= p,
    decreases p - ls,
{
    if p > ls && s[p - 1] == 32u8 {
        lemma_skip_spaces_back(s, ls, p - 1);
    }
}

/// Start of the assignment operator whose `=` is at `eq_pos` (`=`, `+=`,
/// `-=`, `*=`, `**=`, `/=`, `%=`, `^=`, `||=`, `&&=`, `<<=`, `>>=`), or `None`
/// when the `=` belongs to a comparison (`==`, `!=`, `<=`, `>=`).
pub open spec fn assign_op_start(s: Seq<u8>, ls: int, eq_pos: int) -> Option<int> {
    if eq_pos > ls {
        let prev = s[eq_pos - 1];
        if prev == 43u8 || prev == 45u8 || prev == 47u8 || prev == 37u8 || prev == 94u8 {
            Some(eq_pos - 1)
        } else if prev == 42u8 {
            if eq_pos - 1 > ls && s[eq_pos - 2] == 42u8 {
                Some(eq_pos - 2)
            } else {
                Some(eq_pos - 1)
            }
        } else if (prev == 124u8 || prev == 38u8 || prev == 60u8 || prev == 62u8) && eq_pos >= 2 + ls
            && s[eq_pos - 2] == prev {
            Some(eq_pos - 2)
        } else if prev == 61u8 || prev == 33u8 || prev == 60u8 || prev == 62u8 {
            None
        } else {
            Some(eq_pos)
        }
    } else {
        Some(eq_pos)
    }
}

/// A byte of an assignment target: identifiers, sigils, `.` and brackets.
pub open spec fn is_lhs_byte(ch: u8) -> bool {
    spec_is_word(ch) || ch == 64u8 || ch == 36u8 || ch == 46u8 || ch == 91u8 || ch == 93u8
}

/// Start of the one assignment target that ends at `p`: its identifier
/// bytes, sigils, `.`, brackets and `::`.
pub open spec fn target_start(s: Seq<u8>, ls: int, p: int) -> int
    decreases p - ls,
{
    if p <= ls {
        p
    } else if is_lhs_byte(s[p - 1]) {
        target_start(s, ls, p - 1)
    } else if s[p - 1] == 58u8 && p >= 2 + ls && s[p - 2] == 58u8 {
        target_start(s, ls, p - 2)
    } else {
        p
    }
}

/// Where the target that ends before the comma in front of the target
/// starting at `t` ends: after the blanks before `t` comes a comma, then
/// blanks, then that earlier target's end. `None` when no comma stands there.
pub open spec fn previous_target_end(s: Seq<u8>, ls: int, t: int) -> Option<int> {
    let b = skip_spaces_back(s, ls, t);
    if b > ls && s[b - 1] == 44u8 {
        Some(skip_spaces_back(s, ls, b - 1))
    } else {
        None
    }
}

/// The start of the first variable of the left-hand side that ends at `p`:
/// the left-hand side is a list of targets separated by commas (blanks
/// allowed on either side of a comma), and its start is that of the first
/// target of the list.
pub open spec fn lhs_start(s: Seq<u8>, ls: int, p: int) -> int
    decreases p - ls,
{
    let t = target_start(s, ls, p);
    if ls <= t < p {
        match previous_target_end(s, ls, t) {
            Some(e) => if ls <= e < t && ls <= target_start(s, ls, e) < e {
                lhs_start(s, ls, e)
            } else {
                t
            },
            None => t,
        }
    } else {
        t
    }
}

/// When an assignment operator stands before `pos` (spaces allowed), the
/// start of its target; otherwise `pos` itself.
pub open spec fn spec_skip_assignment_backward(s: Seq<u8>, ls: int, pos: int) -> int {
    let p = skip_spaces_back(s, ls, pos);
    if p > ls && s[p - 1] == 61u8 {
        match assign_op_start(s, ls, p - 1) {
            None => pos,
            Some(op_start) => {
                let lhs_end = skip_spaces_back(s, ls, op_start);
                let lhs_pos = lhs_start(s, ls, lhs_end);
                if lhs_pos < lhs_end {
                    lhs_pos
                } else {
                    pos
                }
            },
        }
    } else {
        pos
    }
}

/// Column of the assignment target when the expression at `start` is the
/// right-hand side of an assignment on its line.
pub open spec fn spec_find_assignment_lhs_col(s: Seq<u8>, start: int) -> Option<int> {
    let ls = line_start(s, start);
    if start == ls {
        None
    } else {
        let r = spec_skip_assignment_backward(s, ls, start);
        if r != start {
            Some(r - ls)
        } else {
            None
        }
    }
}

/// A byte of a call expression; `amp` also admits `&` (safe navigation).
pub open spec fn is_call_byte(ch: u8, amp: bool) -> bool {
    spec_is_word(ch) || ch == 46u8 || ch == 63u8 || ch == 33u8 || ch == 64u8 || ch == 36u8 || (
    amp && ch == 38u8)
}

/// Walks back from `p` over a call expression: identifiers, `.`, `::`, and
/// balanced parentheses or brackets (whose contents are skipped whole).
pub open spec fn call_walk_back(s: Seq<u8>, ls: int, p: int, depth: int, amp: bool) -> int
    decreases p - ls,
{
    if p <= ls {
        p
    } else {
        let ch = s[p - 1];
        if ch == 41u8 || ch == 93u8 {
            call_walk_back(s, ls, p - 1, depth + 1, amp)
        } else if ch == 40u8 || ch == 91u8 {
            if depth > 0 {
                call_walk_back(s, ls, p - 1, depth - 1, amp)
            } else {
                p
            }
        } else if depth > 0 {
            call_walk_back(s, ls, p - 1, depth, amp)
        } else if is_call_byte(ch, amp) {
            call_walk_back(s, ls, p - 1, depth, amp)
        } else if ch == 58u8 && p >= 2 + ls && s[p - 2] == 58u8 {
            call_walk_back(s, ls, p - 2, depth, amp)
        } else {
            p
        }
    }
}

/// Column where the call expression that owns the opener at `do_off`
/// starts on the opener's line (through an assignment to its target).
pub open spec fn spec_find_call_expression_col(s: Seq<u8>, do_off: int) -> int {
    let ls = line_start(s, do_off);
    let p0 = skip_spaces_back(s, ls, do_off);
    let pos = call_walk_back(s, ls, p0, 0, false);
    if pos > ls {
        let after = spec_skip_assignment_backward(s, ls, pos);
        if after != pos {
            after - ls
        } else {
            pos - ls
        }
    } else {
        pos - ls
    }
}

/// A byte that ends nothing on a line: space, tab or carriage return.
pub open spec fn is_trailing_blank(b: u8) -> bool {
    b == 32u8 || b == 9u8 || b == 13u8
}

/// Last position `q` in `a..b` whose byte is not a space, tab or carriage
/// return, or -1.
pub open spec fn last_non_blank(s: Seq<u8>, a: int, b: int) -> int
    decreases b - a,
{
    if b <= a {
        -1
    } else if !is_trailing_blank(s[b - 1]) {
        b - 1
    } else {
        last_non_blank(s, a, b - 1)
    }
}

/// When the line before the one holding `start` ends with `+`, `||`, `&&`
/// or `<<`, the indentation of that previous line.
pub open spec fn spec_find_operator_continuation_start(s: Seq<u8>, start: int) -> Option<int> {
    let ls = line_start(s, start);
    if ls == 0 {
        None
    } else {
        let prev_end = ls - 1;
        let pls = line_start(s, prev_end);
        let last = last_non_blank(s, pls, prev_end);
        if last < 0 {
            None
        } else {
            let lb = s[last];
            let is_op = lb == 43u8 || ((lb == 124u8 || lb == 38u8 || lb == 60u8) && last > pls && s[last
                - 1] == lb);
            if is_op {
                Some(blank_run(s, pls) as int)
            } else {
                None
            }
        }
    }
}

/// The closer at `off` (of length `len`) is followed by `.` or `&.`.
pub open spec fn spec_is_closer_chained(s: Seq<u8>, off: int, len: int) -> bool {
    let after = off + len;
    if after >= s.len() {
        false
    } else {
        s[after] == 46u8 || (s[after] == 38u8 && after + 1 < s.len() && s[after + 1] == 46u8)
    }
}

/// When `&&` or `||` stands right before the expression at `start` on its
/// line, the column where that operator's left-hand side starts.
pub open spec fn spec_find_same_line_operator_lhs(s: Seq<u8>, start: int) -> Option<int> {
    let ls = line_start(s, start);
    let pos = skip_spaces_back(s, ls, start);
    if pos >= 2 + ls && ((s[pos - 2] == 38u8 && s[pos - 1] == 38u8) || (s[pos - 2] == 124u8 && s[pos
        - 1] == 124u8)) {
        let lhs_end = skip_spaces_back(s, ls, pos - 2);
        let p = call_walk_back(s, ls, lhs_end, 0, true);
        if p < lhs_end {
            Some(p - ls)
        } else {
            None
        }
    } else {
        None
    }
}

/// `s[a..b)` is the keyword `end`.
pub open spec fn is_end_keyword(s: Seq<u8>, a: int, b: int) -> bool {
    b - a == 3 && s[a] == 101u8 && s[a + 1] == 110u8 && s[a + 2] == 100u8
}

/// `s[a..b)` is a closing brace.
pub open spec fn is_close_brace(s: Seq<u8>, a: int, b: int) -> bool {
    b - a == 1 && s[a] == 125u8
}

pub open spec fn opt_differs(o: Option<int>, c: int) -> bool {
    match o {
        Some(v) => c != v,
        None => true,
    }
}

pub open spec fn msg_align_with_opener(is_brace: bool) -> Seq<char> {
    if is_brace {
        "Align `}` with `{`."@
    } else {
        "Align `end` with `do`."@
    }
}

pub open spec fn msg_align_with_line(is_brace: bool) -> Seq<char> {
    if is_brace {
        "Align `}` with the start of the line where the block is defined."@
    } else {
        "Align `end` with the start of the line where the block is defined."@
    }
}

/// The offense (line, column, message) that the block `site` gives under the
/// alignment style `style`, if any.
pub open spec fn block_offense(s: Seq<u8>, style: Seq<char>, site: BlockSite) -> Option<
    (int, int, Seq<char>),
> {
    let cs = site.closing_start as int;
    let ce = site.closing_end as int;
    let is_brace = is_close_brace(s, cs, ce);
    if !is_end_keyword(s, cs, ce) && !is_brace {
        None
    } else if !spec_begins_its_line(s, cs) {
        None
    } else {
        let start = site.expr_start as int;
        let open = site.opening_start as int;
        let sol_indent = spec_line_indent(s, open) as int;
        let start_col = col_of(s, start) as int;
        let assign = spec_find_assignment_lhs_col(s, start);
        let expr_col = match assign {
            Some(c) => c,
            None => start_col,
        };
        let expr_indent = spec_line_indent(s, start) as int;
        let call_col = spec_find_call_expression_col(s, open);
        let end_line = line_of(s, cs) as int;
        let end_col = col_of(s, cs) as int;
        if end_line == line_of(s, open) {
            None
        } else if style == "start_of_block"@ {
            if end_col != sol_indent {
                Some((end_line, end_col, msg_align_with_opener(is_brace)))
            } else {
                None
            }
        } else if style == "start_of_line"@ {
            let cont = if site.is_lambda {
                None
            } else {
                spec_find_operator_continuation_start(s, start)
            };
            if end_col != expr_col && end_col != expr_indent && opt_differs(cont, end_col) {
                Some((end_line, end_col, msg_align_with_line(is_brace)))
            } else {
                None
            }
        } else if site.is_lambda {
            if end_col != sol_indent && end_col != expr_col && end_col != expr_indent && end_col
                != start_col && end_col != call_col {
                Some((end_line, end_col, msg_align_with_line(is_brace)))
            } else {
                None
            }
        } else {
            let cont = spec_find_operator_continuation_start(s, start);
            let same_line = spec_find_same_line_operator_lhs(s, start);
            let accept_call_start = assign is None || spec_is_closer_chained(s, cs, ce - cs);
            if end_col != sol_indent && end_col != expr_col && end_col != expr_indent && (
            !accept_call_start || end_col != start_col) && end_col != call_col && opt_differs(
                cont,
                end_col,
            ) && opt_differs(same_line, end_col) {
                Some((end_line, end_col, msg_align_with_line(is_brace)))
            } else {
                None
            }
        }
    }
}

/// The offenses of the blocks `sites`, in order.
pub open spec fn block_offenses(s: Seq<u8>, style: Seq<char>, sites: Seq<BlockSite>) -> Seq<
    (int, int, Seq<char>),
>
    decreases sites.len(),
{
    if sites.len() == 0 {
        Seq::empty()
    } else {
        let rest = block_offenses(s, style, sites.drop_last());
        match block_offense(s, style, sites.last()) {
            Some(o) => rest.push(o),
            None => rest,
        }
    }
}

fn skip_spaces_back_exec(bytes: &[u8], ls: usize, p: usize) -> (r: usize)
    requires
        ls <= p <= bytes@.len(),
    ensures
        r == skip_spaces_back(bytes@, ls as int, p as int),
        ls <= r <= p,
{
    let mut q = p;
    while q > ls && bytes[q - 1] == 32u8
        invariant
            ls <= q <= p <= bytes@.len(),
            skip_spaces_back(bytes@, ls as int, p as int) == skip_spaces_back(
                bytes@,
                ls as int,
                q as int,
            ),
        decreases q,
    {
        q = q - 1;
    }
    q
}

fn assign_op_start_exec(bytes: &[u8], ls: usize, eq_pos: usize) -> (r: Option<usize>)
    requires
        ls <= eq_pos < bytes@.len(),
    ensures
        r matches Some(v) ==> assign_op_start(bytes@, ls as int, eq_pos as int) == Some(v as int)
            && ls <= v <= eq_pos,
        r is None ==> assign_op_start(bytes@, ls as int, eq_pos as int) is None,
{
    if eq_pos > ls {
        let prev = bytes[eq_pos - 1];
        if prev == 43u8 || prev == 45u8 || prev == 47u8 || prev == 37u8 || prev == 94u8 {
            Some(eq_pos - 1)
        } else if prev == 42u8 {
            if eq_pos - 1 > ls && bytes[eq_pos - 2] == 42u8 {
                Some(eq_pos - 2)
            } else {
                Some(eq_pos - 1)
            }
        } else if (prev == 124u8 || prev == 38u8 || prev == 60u8 || prev == 62u8) && eq_pos >= 2
            + ls && bytes[eq_pos - 2] == prev {
            Some(eq_pos - 2)
        } else if prev == 61u8 || prev == 33u8 || prev == 60u8 || prev == 62u8 {
            None
        } else {
            Some(eq_pos)
        }
    } else {
        Some(eq_pos)
    }
}

fn is_lhs_byte_exec(ch: u8) -> (r: bool)
    ensures
        r == is_lhs_byte(ch),
{
    is_word(ch) || ch == 64u8 || ch == 36u8 || ch == 46u8 || ch == 91u8 || ch == 93u8
}

fn target_start_exec(bytes: &[u8], ls: usize, p: usize) -> (r: usize)
    requires
        ls <= p <= bytes@.len(),
    ensures
        r == target_start(bytes@, ls as int, p as int),
        ls <= r <= p,
{
    let ghost s = bytes@;
    let mut q = p;
    let mut done = false;
    while !done && q > ls
        invariant
            ls <= q <= p <= s.len(),
            s == bytes@,
            target_start(s, ls as int, p as int) == (if done {
                q as int
            } else {
                target_start(s, ls as int, q as int)
            }),
        decreases q, if done { 0int } else { 1int },
    {
        let ch = bytes[q - 1];
        if is_lhs_byte_exec(ch) {
            q = q - 1;
        } else if ch == 58u8 && q - ls >= 2 && bytes[q - 2] == 58u8 {
            q = q - 2;
        } else {
            done = true;
        }
    }
    q
}

/// The start of the first variable of the left-hand side that ends at `p`.
fn lhs_start_exec(bytes: &[u8], ls: usize, p: usize) -> (r: usize)
    requires
        ls <= p <= bytes@.len(),
    ensures
        r == lhs_start(bytes@, ls as int, p as int),
        ls <= r <= p,
{
    let ghost s = bytes@;
    let mut q = p;
    let mut t = target_start_exec(bytes, ls, q);
    let mut done = false;
    while !done
        invariant
            ls <= t <= q <= p <= s.len(),
            s == bytes@,
            t == target_start(s, ls as int, q as int),
            lhs_start(s, ls as int, p as int) == (if done {
                t as int
            } else {
                lhs_start(s, ls as int, q as int)
            }),
        decreases q, if done { 0int } else { 1int },
    {
        if t == q {
            done = true;
        } else {
            let b = skip_spaces_back_exec(bytes, ls, t);
            if b > ls && bytes[b - 1] == 44u8 {
                let e = skip_spaces_back_exec(bytes, ls, b - 1);
                let t2 = target_start_exec(bytes, ls, e);
                if e < t && t2 < e {
                    q = e;
                    t = t2;
                } else {
                    done = true;
                }
            } else {
                done = true;
            }
        }
    }
    t
}

/// When an assignment operator stands before `pos`, the start of its target;
/// otherwise `pos`.
fn skip_assignment_backward(bytes: &[u8], ls: usize, pos: usize) -> (r: usize)
    requires
        ls <= pos <= bytes@.len(),
    ensures
        r == spec_skip_assignment_backward(bytes@, ls as int, pos as int),
        ls <= r <= pos,
{
    let p = skip_spaces_back_exec(bytes, ls, pos);
    if p > ls && bytes[p - 1] == 61u8 {
        match assign_op_start_exec(bytes, ls, p - 1) {
            None => pos,
            Some(op_start) => {
                let lhs_end = skip_spaces_back_exec(bytes, ls, op_start);
                let lhs_pos = lhs_start_exec(bytes, ls, lhs_end);
                if lhs_pos < lhs_end {
                    lhs_pos
                } else {
                    pos
                }
            },
        }
    } else {
        pos
    }
}

/// Column of the assignment target when the expression at `start` is the
/// right-hand side of an assignment on its line.
fn find_assignment_lhs_col(bytes: &[u8], start: usize) -> (r: Option<usize>)
    requires
        start <= bytes@.len(),
    ensures
        r matches Some(c) ==> spec_find_assignment_lhs_col(bytes@, start as int) == Some(c as int),
        r is None ==> spec_find_assignment_lhs_col(bytes@, start as int) is None,
{
    let ls = find_line_start(bytes, start);
    if start == ls {
        return None;
    }
    let r = skip_assignment_backward(bytes, ls, start);
    if r != start {
        Some(r - ls)
    } else {
        None
    }
}

fn is_call_byte_exec(ch: u8, amp: bool) -> (r: bool)
    ensures
        r == is_call_byte(ch, amp),
{
    is_word(ch) || ch == 46u8 || ch == 63u8 || ch == 33u8 || ch == 64u8 || ch == 36u8 || (amp && ch
        == 38u8)
}

fn call_walk_back_exec(bytes: &[u8], ls: usize, p: usize, amp: bool) -> (r: usize)
    requires
        ls <= p <= bytes@.len(),
    ensures
        r == call_walk_back(bytes@, ls as int, p as int, 0, amp),
        ls <= r <= p,
{
    let ghost s = bytes@;
    let mut q = p;
    let mut depth: usize = 0;
    let mut done = false;
    while !done && q > ls
        invariant
            ls <= q <= p <= s.len(),
            depth <= p - q,
            s == bytes@,
            call_walk_back(s, ls as int, p as int, 0, amp) == (if done {
                q as int
            } else {
                call_walk_back(s, ls as int, q as int, depth as int, amp)
            }),
        decreases q, if done { 0int } else { 1int },
    {
        let ch = bytes[q - 1];
        if ch == 41u8 || ch == 93u8 {
            depth = depth + 1;
            q = q - 1;
        } else if ch == 40u8 || ch == 91u8 {
            if depth > 0 {
                depth = depth - 1;
                q = q - 1;
            } else {
                done = true;
            }
        } else if depth > 0 {
            q = q - 1;
        } else if is_call_byte_exec(ch, amp) {
            q = q - 1;
        } else if ch == 58u8 && q - ls >= 2 && bytes[q - 2] == 58u8 {
            q = q - 2;
        } else {
            done = true;
        }
    }
    q
}

/// Column where the call expression that owns the opener at `do_off` starts
/// on the opener's line.
fn find_call_expression_col(bytes: &[u8], do_off: usize) -> (r: usize)
    requires
        do_off <= bytes@.len(),
    ensures
        r == spec_find_call_expression_col(bytes@, do_off as int),
{
    let ls = find_line_start(bytes, do_off);
    let p0 = skip_spaces_back_exec(bytes, ls, do_off);
    let pos = call_walk_back_exec(bytes, ls, p0, false);
    if pos > ls {
        let after = skip_assignment_backward(bytes, ls, pos);
        if after != pos {
            return after - ls;
        }
    }
    pos - ls
}

fn last_non_blank_exec(bytes: &[u8], a: usize, b: usize) -> (r: Option<usize>)
    requires
        a <= b <= bytes@.len(),
    ensures
        r matches Some(q) ==> last_non_blank(bytes@, a as int, b as int) == q as int && a <= q
            < b,
        r is None ==> last_non_blank(bytes@, a as int, b as int) == -1,
{
    let mut q = b;
    while q > a
        invariant
            a <= q <= b <= bytes@.len(),
            last_non_blank(bytes@, a as int, b as int) == last_non_blank(bytes@, a as int, q as int),
        decreases q,
    {
        let c = bytes[q - 1];
        if !(c == 32u8 || c == 9u8 || c == 13u8) {
            return Some(q - 1);
        }
        q = q - 1;
    }
    None
}

/// When the previous line ends with `+`, `||`, `&&` or `<<`, its indentation.
fn find_operator_continuation_start(bytes: &[u8], start: usize) -> (r: Option<usize>)
    requires
        start <= bytes@.len(),
    ensures
        r matches Some(c) ==> spec_find_operator_continuation_start(bytes@, start as int) == Some(
            c as int,
        ),
        r is None ==> spec_find_operator_continuation_start(bytes@, start as int) is None,
{
    let ls = find_line_start(bytes, start);
    if ls == 0 {
        return None;
    }
    let prev_end = ls - 1;
    let pls = find_line_start(bytes, prev_end);
    match last_non_blank_exec(bytes, pls, prev_end) {
        None => None,
        Some(last) => {
            let lb = bytes[last];
            let is_op = lb == 43u8 || ((lb == 124u8 || lb == 38u8 || lb == 60u8) && last > pls
                && bytes[last - 1] == lb);
            if is_op {
                Some(blank_run_exec(bytes, pls))
            } else {
                None
            }
        },
    }
}

/// The closer at `off` is followed by `.` or `&.` on its line.
fn is_closer_chained(bytes: &[u8], off: usize, len: usize) -> (r: bool)
    requires
        off + len <= bytes.len(),
    ensures
        r == spec_is_closer_chained(bytes@, off as int, len as int),
{
    let after = off + len;
    if after >= bytes.len() {
        return false;
    }
    if bytes[after] == 46u8 {
        return true;
    }
    bytes[after] == 38u8 && after + 1 < bytes.len() && bytes[after + 1] == 46u8
}

/// When `&&` or `||` stands right before the expression at `start`, the
/// column where that operator's left-hand side starts.
fn find_same_line_operator_lhs(bytes: &[u8], start: usize) -> (r: Option<usize>)
    requires
        start <= bytes@.len(),
    ensures
        r matches Some(c) ==> spec_find_same_line_operator_lhs(bytes@, start as int) == Some(
            c as int,
        ),
        r is None ==> spec_find_same_line_operator_lhs(bytes@, start as int) is None,
{
    let ls = find_line_start(bytes, start);
    let pos = skip_spaces_back_exec(bytes, ls, start);
    if pos - ls >= 2 && ((bytes[pos - 2] == 38u8 && bytes[pos - 1] == 38u8) || (bytes[pos - 2]
        == 124u8 && bytes[pos - 1] == 124u8)) {
        let lhs_end = skip_spaces_back_exec(bytes, ls, pos - 2);
        let p = call_walk_back_exec(bytes, ls, lhs_end, true);
        if p < lhs_end {
            Some(p - ls)
        } else {
            None
        }
    } else {
        None
    }
}

impl BlockAlignment {
    pub fn name(&self) -> (r: &'static str)
        ensures
            r@ == "Layout/BlockAlignment"@,
    {
        "Layout/BlockAlignment"
    }

    pub fn default_severity(&self) -> (r: Severity)
        ensures
            r == Severity::Convention,
    {
        Severity::Convention
    }

    /// The offense of one block under style `style`, if any.
    pub fn block_offense(&self, source: &SourceFile, style: &String, site: &BlockSite) -> (r:
        Option<(usize, usize, String)>)
        requires
            site_in_bounds(source@, *site),
        ensures
            r matches Some(o) ==> block_offense(source@, style@, *site) == Some(
                (o.0 as int, o.1 as int, o.2@),
            ),
            r is None ==> block_offense(source@, style@, *site) is None,
    {
        let bytes = source.as_bytes();
        let cs = site.closing_start;
        let ce = site.closing_end;
        let is_do_end = ce - cs == 3 && bytes[cs] == 101u8 && bytes[cs + 1] == 110u8 && bytes[cs
            + 2] == 100u8;
        let is_brace = ce - cs == 1 && bytes[cs] == 125u8;
        if !is_do_end && !is_brace {
            return None;
        }
        if !begins_its_line(bytes, cs) {
            return None;
        }
        let open = site.opening_start;
        let start = site.expr_start;
        let (opening_line, _) = source.offset_to_line_col(open);
        let sol_indent = line_indent(bytes, open);
        let (_, start_col) = source.offset_to_line_col(start);
        let assign = find_assignment_lhs_col(bytes, start);
        let expr_col = match assign {
            Some(c) => c,
            None => start_col,
        };
        let expr_indent = line_indent(bytes, start);
        let call_col = find_call_expression_col(bytes, open);
        let (end_line, end_col) = source.offset_to_line_col(cs);
        if end_line == opening_line {
            return None;
        }
        let opener_msg = if is_brace {
            "Align `}` with `{`."
        } else {
            "Align `end` with `do`."
        };
        let line_msg = if is_brace {
            "Align `}` with the start of the line where the block is defined."
        } else {
            "Align `end` with the start of the line where the block is defined."
        };
        if string_is(style, "start_of_block") {
            if end_col != sol_indent {
                return Some((end_line, end_col, opener_msg.to_owned()));
            }
            return None;
        }
        if string_is(style, "start_of_line") {
            let cont = if site.is_lambda {
                None
            } else {
                find_operator_continuation_start(bytes, start)
            };
            let cont_differs = match cont {
                Some(c) => end_col != c,
                None => true,
            };
            if end_col != expr_col && end_col != expr_indent && cont_differs {
                return Some((end_line, end_col, line_msg.to_owned()));
            }
            return None;
        }
        if site.is_lambda {
            if end_col != sol_indent && end_col != expr_col && end_col != expr_indent && end_col
                != start_col && end_col != call_col {
                return Some((end_line, end_col, line_msg.to_owned()));
            }
            return None;
        }
        let cont = find_operator_continuation_start(bytes, start);
        let same_line = find_same_line_operator_lhs(bytes, start);
        let chained = is_closer_chained(bytes, cs, ce - cs);
        let accept_call_start = assign.is_none() || chained;
        let cont_differs = match cont {
            Some(c) => end_col != c,
            None => true,
        };
        let same_differs = match same_line {
            Some(c) => end_col != c,
            None => true,
        };
        if end_col != sol_indent && end_col != expr_col && end_col != expr_indent && (
        !accept_call_start || end_col != start_col) && end_col != call_col && cont_differs
            && same_differs {
            return Some((end_line, end_col, line_msg.to_owned()));
        }
        None
    }

    /// Checks the blocks `sites` of `source` and appends an offense for each
    /// misaligned closer, in order.
    pub fn check_sites(
        &self,
        source: &SourceFile,
        config: &CopConfig,
        sites: &[BlockSite],
        diagnostics: &mut Vec<Diagnostic>,
    )
        requires
            forall|i: int| 0 <= i < sites@.len() ==> site_in_bounds(source@, #[trigger] sites@[i]),
        ensures
            ({
                let offs = block_offenses(
                    source@,
                    spec_get_str(config.options@, "EnforcedStyleAlignWith"@, "either"@),
                    sites@,
                );
                &&& final(diagnostics)@.len() == old(diagnostics)@.len() + offs.len()
                &&& final(diagnostics)@.subrange(0, old(diagnostics)@.len() as int) == old(
                    diagnostics,
                )@
                &&& forall|k: int|
                    0 <= k < offs.len() ==> reports(
                        #[trigger] final(diagnostics)@[old(diagnostics)@.len() + k],
                        source.spec_path(),
                        "Layout/BlockAlignment"@,
                        Severity::Convention,
                        offs[k].0,
                        offs[k].1,
                        offs[k].2,
                        false,
                    )
            }),
    {
        let style = config.get_str("EnforcedStyleAlignWith", "either");
        let ghost offs0 = Seq::<(int, int, Seq<char>)>::empty();
        let ghost start_len = old(diagnostics)@.len();
        let mut i: usize = 0;
        while i < sites.len()
            invariant
                i <= sites@.len(),
                style@ == spec_get_str(config.options@, "EnforcedStyleAlignWith"@, "either"@),
                forall|j: int| 0 <= j < sites@.len() ==> site_in_bounds(source@, #[trigger] sites@[j]),
                start_len == old(diagnostics)@.len(),
                ({
                    let offs = block_offenses(source@, style@, sites@.subrange(0, i as int));
                    &&& diagnostics@.len() == start_len + offs.len()
                    &&& diagnostics@.subrange(0, start_len as int) == old(diagnostics)@
                    &&& forall|k: int|
                        0 <= k < offs.len() ==> reports(
                            #[trigger] diagnostics@[start_len + k],
                            source.spec_path(),
                            "Layout/BlockAlignment"@,
                            Severity::Convention,
                            offs[k].0,
                            offs[k].1,
                            offs[k].2,
                            false,
                        )
                }),
            decreases sites@.len() - i,
        {
            let ghost prev = diagnostics@;
            let ghost pre = sites@.subrange(0, i as int);
            assert(sites@.subrange(0, i + 1).drop_last() =~= pre);
            assert(sites@.subrange(0, i + 1).last() == sites@[i as int]);
            match self.block_offense(source, &style, &sites[i]) {
                Some((line, col, msg)) => {
                    let d = new_diagnostic(source, self.name(), Severity::Convention, line, col, msg);
                    diagnostics.push(d);
                    assert(diagnostics@.subrange(0, start_len as int) =~= prev.subrange(
                        0,
                        start_len as int,
                    ));
                },
                None => {},
            }
            i = i + 1;
        }
        assert(sites@.subrange(0, sites@.len() as int) =~= sites@);
    }
}

} // verus!
