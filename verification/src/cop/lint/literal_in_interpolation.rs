use crate::cop::report::{adds_offense, emit_offense};
use crate::cop::util::{is_valid_utf8, push_char, text_of};
use crate::correction::Correction;
use crate::diagnostic::{Diagnostic, Severity};
use crate::parse::source::{col_of, line_of, SourceFile};
use vstd::prelude::*;
use vstd::utf8::valid_utf8;

verus! {

/// Checks for interpolated literals in strings, symbols, regexps, and heredocs.
pub struct LiteralInInterpolation;

/// What an expression is, as far as the cop reads it; composite values refer
/// to their parts by their index in the list of nodes, which is always after
/// their own.
pub enum LitKind {
    /// An integer, float, rational or imaginary literal.
    Numeric,
    /// A string literal: its opening delimiter (if any), where its content lies,
    /// and its unescaped bytes.
    Str { opening: Option<(usize, usize)>, content: (usize, usize), unescaped: Vec<u8> },
    /// A symbol literal, with its unescaped bytes.
    Sym { unescaped: Vec<u8> },
    Nil,
    True,
    False,
    /// An array literal and its elements.
    Array { elements: Vec<usize> },
    /// A hash (or keyword hash) literal: its key and value for each pair, and
    /// `None` for any other element.
    Hash { pairs: Vec<Option<(usize, usize)>> },
    /// A range and its ends, where present.
    Range { left: Option<usize>, right: Option<usize> },
    /// An interpolated string with its opening delimiter, if any.
    InterpolatedStr { opening: Option<(usize, usize)> },
    Other,
}

/// One expression, spanning `start..end`.
pub struct LitNode {
    pub start: usize,
    pub end: usize,
    pub kind: LitKind,
}

/// Node `i` is a literal: a basic one, or an array, hash or range made of
/// literals only (a range needs both ends).
pub open spec fn is_literal(nodes: Seq<LitNode>, i: int) -> bool
    decreases nodes.len() - i, 1int, 0int,
{
    if i < 0 || i >= nodes.len() {
        false
    } else {
        match nodes[i].kind {
            LitKind::Numeric | LitKind::Str { .. } | LitKind::Sym { .. } | LitKind::Nil | LitKind::True
            | LitKind::False => true,
            LitKind::Array { elements } => all_literal(nodes, i, elements@, 0),
            LitKind::Hash { pairs } => all_pairs_literal(nodes, i, pairs@, 0),
            LitKind::Range { left, right } => match (left, right) {
                (Some(a), Some(b)) => i < a < nodes.len() && i < b < nodes.len() && is_literal(nodes, a as int)
                    && is_literal(nodes, b as int),
                _ => false,
            },
            _ => false,
        }
    }
}

/// The parts `elems[k..]` of node `i` are all literals.
pub open spec fn all_literal(nodes: Seq<LitNode>, i: int, elems: Seq<usize>, k: int) -> bool
    decreases nodes.len() - i, 0int, elems.len() - k,
{
    if k < 0 || k >= elems.len() {
        true
    } else {
        i < elems[k] < nodes.len() && is_literal(nodes, elems[k] as int) && all_literal(nodes, i, elems, k + 1)
    }
}

/// The elements `elems[k..]` of hash node `i` are all pairs of literals.
pub open spec fn all_pairs_literal(nodes: Seq<LitNode>, i: int, elems: Seq<Option<(usize, usize)>>, k: int) -> bool
    decreases nodes.len() - i, 0int, elems.len() - k,
{
    if k < 0 || k >= elems.len() {
        true
    } else {
        match elems[k] {
            Some((a, b)) => i < a < nodes.len() && i < b < nodes.len() && is_literal(nodes, a as int)
                && is_literal(nodes, b as int) && all_pairs_literal(nodes, i, elems, k + 1),
            None => false,
        }
    }
}


/// The delimiter `[a, b)` opens a heredoc.
pub open spec fn is_heredoc_opening(s: Seq<u8>, o: Option<(usize, usize)>) -> bool {
    match o {
        Some((a, b)) => b - a >= 2 && s[a as int] == 60u8 && s[a + 1] == 60u8,
        None => false,
    }
}

/// The delimiter opens a `%W` or `%I` word array.
pub open spec fn is_word_array_opening(s: Seq<u8>, o: Option<(usize, usize)>) -> bool {
    match o {
        Some((a, b)) => b - a >= 2 && s[a as int] == 37u8 && (s[a + 1] == 87u8 || s[a + 1] == 73u8),
        None => false,
    }
}

/// Node `i` is a string whose body is a heredoc.
pub open spec fn is_heredoc_literal(s: Seq<u8>, nodes: Seq<LitNode>, i: int) -> bool {
    match nodes[i].kind {
        LitKind::Str { opening, .. } => is_heredoc_opening(s, opening),
        LitKind::InterpolatedStr { opening } => is_heredoc_opening(s, opening),
        _ => false,
    }
}

pub open spec fn is_space_or_tab(b: u8) -> bool {
    b == 32u8 || b == 9u8
}

/// Node `i` is a string whose content is spaces and tabs only, and not empty.
pub open spec fn is_space_literal(s: Seq<u8>, nodes: Seq<LitNode>, i: int) -> bool {
    match nodes[i].kind {
        LitKind::Str { content, .. } => content.0 < content.1 && forall|q: int|
            content.0 <= q < content.1 ==> is_space_or_tab(#[trigger] s[q]),
        _ => false,
    }
}

/// The bytes are empty or hold a space or tab.
pub open spec fn empty_or_spaced(b: Seq<u8>) -> bool {
    b.len() == 0 || exists|q: int| 0 <= q < b.len() && is_space_or_tab(#[trigger] b[q])
}

/// The value of node `i`, written out in a word array, would be empty or split:
/// a string or symbol that is empty or holds a space or tab, `nil`, or an
/// array that is empty or has such an element.
pub open spec fn expands_to_space_or_empty(s: Seq<u8>, nodes: Seq<LitNode>, i: int) -> bool
    decreases nodes.len() - i, 1int, 0int,
{
    if i < 0 || i >= nodes.len() {
        false
    } else {
        match nodes[i].kind {
            LitKind::Str { content, .. } => empty_or_spaced(s.subrange(content.0 as int, content.1 as int)),
            LitKind::Sym { unescaped } => empty_or_spaced(unescaped@),
            LitKind::Nil => true,
            LitKind::Array { elements } => elements@.len() == 0 || any_expands(s, nodes, i, elements@, 0),
            _ => false,
        }
    }
}

/// Some part `elems[k..]` of node `i` expands to space or nothing.
pub open spec fn any_expands(s: Seq<u8>, nodes: Seq<LitNode>, i: int, elems: Seq<usize>, k: int) -> bool
    decreases nodes.len() - i, 0int, elems.len() - k,
{
    if k < 0 || k >= elems.len() {
        false
    } else {
        (i < elems[k] < nodes.len() && expands_to_space_or_empty(s, nodes, elems[k] as int)) || any_expands(
            s,
            nodes,
            i,
            elems,
            k + 1,
        )
    }
}

/// The bytes escaped for a double-quoted string, each other byte taken as the
/// character of that code.
pub open spec fn escape_double_quoted(b: Seq<u8>) -> Seq<char>
    decreases b.len(),
{
    if b.len() == 0 {
        Seq::empty()
    } else {
        let r = escape_double_quoted(b.drop_last());
        let c = b.last();
        r + (if c == 92u8 {
            "\\\\"@
        } else if c == 34u8 {
            "\\\""@
        } else if c == 10u8 {
            "\\n"@
        } else if c == 13u8 {
            "\\r"@
        } else if c == 9u8 {
            "\\t"@
        } else {
            seq![c as char]
        })
    }
}

/// What the interpolation of node `i` becomes: the text of a string or
/// symbol, `true`, `false`, nothing for `nil`, the source of a number or
/// range; none for arrays and hashes.
pub open spec fn interpolation_replacement(s: Seq<u8>, nodes: Seq<LitNode>, i: int) -> Option<Seq<char>> {
    match nodes[i].kind {
        LitKind::Str { unescaped, .. } => Some(escape_double_quoted(unescaped@)),
        LitKind::Sym { unescaped } => Some(escape_double_quoted(unescaped@)),
        LitKind::True => Some("true"@),
        LitKind::False => Some("false"@),
        LitKind::Nil => Some(Seq::empty()),
        LitKind::Numeric | LitKind::Range { .. } => {
            let t = s.subrange(nodes[i].start as int, nodes[i].end as int);
            Some(
                if valid_utf8(t) {
                    vstd::utf8::decode_utf8(t)
                } else {
                    Seq::empty()
                },
            )
        },
        _ => None,
    }
}

/// One `#{}` interpolation: where it lies, its last statement (as node 0 of
/// `nodes`, which is empty without statements), and what it sits in.
pub struct Interpolation {
    pub start: usize,
    pub end: usize,
    pub nodes: Vec<LitNode>,
    pub in_heredoc: bool,
    pub in_word_array: bool,
    pub in_regexp: bool,
}

/// The offense of an interpolation whose last statement is a literal: none
/// for a heredoc, for spaces ending a heredoc's line, for an array in a
/// regexp, or for what would split or vanish in a `%W`/`%I` array.
pub open spec fn interpolation_offense(s: Seq<u8>, site: Interpolation) -> Option<
    (int, int, Seq<char>, Option<(int, int, Seq<char>)>),
> {
    let nodes = site.nodes@;
    if nodes.len() == 0 || is_heredoc_literal(s, nodes, 0) || !is_literal(nodes, 0) {
        None
    } else if is_space_literal(s, nodes, 0) && site.in_heredoc && (site.end >= s.len() || s[site.end as int]
        == 10u8) {
        None
    } else if site.in_regexp && nodes[0].kind is Array {
        None
    } else if site.in_word_array && expands_to_space_or_empty(s, nodes, 0) {
        None
    } else {
        Some(
            (
                line_of(s, nodes[0].start as int) as int,
                col_of(s, nodes[0].start as int) as int,
                "Literal interpolation detected."@,
                match interpolation_replacement(s, nodes, 0) {
                    Some(r) => Some((site.start as int, site.end as int, r)),
                    None => None,
                },
            ),
        )
    }
}

pub open spec fn node_in_bounds(s: Seq<u8>, n: LitNode) -> bool {
    &&& n.start <= n.end <= s.len()
    &&& match n.kind {
        LitKind::Str { opening, content, .. } => content.0 <= content.1 <= s.len() && match opening {
            Some((a, b)) => a <= b <= s.len(),
            None => true,
        },
        LitKind::InterpolatedStr { opening } => match opening {
            Some((a, b)) => a <= b <= s.len(),
            None => true,
        },
        _ => true,
    }
}

pub open spec fn interpolation_in_bounds(s: Seq<u8>, site: Interpolation) -> bool {
    &&& site.start <= site.end <= s.len()
    &&& forall|i: int| 0 <= i < site.nodes@.len() ==> node_in_bounds(s, #[trigger] site.nodes@[i])
}


fn is_literal_exec(nodes: &Vec<LitNode>, i: usize) -> (r: bool)
    ensures
        r == is_literal(nodes@, i as int),
    decreases nodes@.len() - i, 1int, 0int,
{
    if i >= nodes.len() {
        return false;
    }
    match &nodes[i].kind {
        LitKind::Numeric | LitKind::Str { .. } | LitKind::Sym { .. } | LitKind::Nil | LitKind::True
        | LitKind::False => true,
        LitKind::Array { elements } => all_literal_exec(nodes, i, elements, 0),
        LitKind::Hash { pairs } => all_pairs_literal_exec(nodes, i, pairs, 0),
        LitKind::Range { left, right } => match (left, right) {
            (Some(a), Some(b)) => i < *a && *a < nodes.len() && i < *b && *b < nodes.len() && is_literal_exec(
                nodes,
                *a,
            ) && is_literal_exec(nodes, *b),
            _ => false,
        },
        _ => false,
    }
}

fn all_literal_exec(nodes: &Vec<LitNode>, i: usize, elems: &Vec<usize>, k: usize) -> (r: bool)
    requires
        i < nodes@.len(),
    ensures
        r == all_literal(nodes@, i as int, elems@, k as int),
    decreases nodes@.len() - i, 0int, elems@.len() - k,
{
    if k >= elems.len() {
        return true;
    }
    let c = elems[k];
    i < c && c < nodes.len() && is_literal_exec(nodes, c) && all_literal_exec(nodes, i, elems, k + 1)
}

fn all_pairs_literal_exec(nodes: &Vec<LitNode>, i: usize, elems: &Vec<Option<(usize, usize)>>, k: usize) -> (r: bool)
    requires
        i < nodes@.len(),
    ensures
        r == all_pairs_literal(nodes@, i as int, elems@, k as int),
    decreases nodes@.len() - i, 0int, elems@.len() - k,
{
    if k >= elems.len() {
        return true;
    }
    match elems[k] {
        Some((a, b)) => i < a && a < nodes.len() && i < b && b < nodes.len() && is_literal_exec(nodes, a)
            && is_literal_exec(nodes, b) && all_pairs_literal_exec(nodes, i, elems, k + 1),
        None => false,
    }
}

fn empty_or_spaced_exec(b: &[u8]) -> (r: bool)
    ensures
        r == empty_or_spaced(b@),
{
    if b.len() == 0 {
        return true;
    }
    let mut q: usize = 0;
    while q < b.len()
        invariant
            q <= b@.len(),
            forall|j: int| 0 <= j < q ==> !is_space_or_tab(#[trigger] b@[j]),
        decreases b@.len() - q,
    {
        if b[q] == 32u8 || b[q] == 9u8 {
            assert(is_space_or_tab(b@[q as int]));
            return true;
        }
        q = q + 1;
    }
    false
}

fn expands_exec(bytes: &[u8], nodes: &Vec<LitNode>, i: usize) -> (r: bool)
    requires
        forall|j: int| 0 <= j < nodes@.len() ==> node_in_bounds(bytes@, #[trigger] nodes@[j]),
    ensures
        r == expands_to_space_or_empty(bytes@, nodes@, i as int),
    decreases nodes@.len() - i, 1int, 0int,
{
    if i >= nodes.len() {
        return false;
    }
    assert(node_in_bounds(bytes@, nodes@[i as int]));
    match &nodes[i].kind {
        LitKind::Str { content, .. } => empty_or_spaced_exec(vstd::slice::slice_subrange(bytes, content.0, content.1)),
        LitKind::Sym { unescaped } => empty_or_spaced_exec(unescaped.as_slice()),
        LitKind::Nil => true,
        LitKind::Array { elements } => elements.len() == 0 || any_expands_exec(bytes, nodes, i, elements, 0),
        _ => false,
    }
}

fn any_expands_exec(bytes: &[u8], nodes: &Vec<LitNode>, i: usize, elems: &Vec<usize>, k: usize) -> (r: bool)
    requires
        i < nodes@.len(),
        forall|j: int| 0 <= j < nodes@.len() ==> node_in_bounds(bytes@, #[trigger] nodes@[j]),
    ensures
        r == any_expands(bytes@, nodes@, i as int, elems@, k as int),
    decreases nodes@.len() - i, 0int, elems@.len() - k,
{
    if k >= elems.len() {
        return false;
    }
    let c = elems[k];
    (i < c && c < nodes.len() && expands_exec(bytes, nodes, c)) || any_expands_exec(bytes, nodes, i, elems, k + 1)
}

fn escape_double_quoted_exec(b: &[u8]) -> (r: String)
    ensures
        r@ == escape_double_quoted(b@),
{
    let mut out = String::new();
    assert(out@ =~= Seq::<char>::empty());
    let mut k: usize = 0;
    while k < b.len()
        invariant
            k <= b@.len(),
            out@ == escape_double_quoted(b@.subrange(0, k as int)),
        decreases b@.len() - k,
    {
        let c = b[k];
        let ghost sub = b@.subrange(0, k + 1);
        assert(sub.drop_last() =~= b@.subrange(0, k as int));
        if c == 92u8 {
            out.append("\\\\");
        } else if c == 34u8 {
            out.append("\\\"");
        } else if c == 10u8 {
            out.append("\\n");
        } else if c == 13u8 {
            out.append("\\r");
        } else if c == 9u8 {
            out.append("\\t");
        } else {
            let ghost before = out@;
            push_char(&mut out, c as char);
            assert(out@ =~= before + seq![c as char]);
        }
        k = k + 1;
    }
    assert(b@.subrange(0, b@.len() as int) =~= b@);
    out
}

fn replacement_exec(bytes: &[u8], nodes: &Vec<LitNode>) -> (r: Option<String>)
    requires
        nodes@.len() > 0,
        node_in_bounds(bytes@, nodes@[0]),
    ensures
        match interpolation_replacement(bytes@, nodes@, 0) {
            Some(t) => r matches Some(x) && x@ == t,
            None => r is None,
        },
{
    let n = &nodes[0];
    match &n.kind {
        LitKind::Str { unescaped, .. } => Some(escape_double_quoted_exec(unescaped.as_slice())),
        LitKind::Sym { unescaped } => Some(escape_double_quoted_exec(unescaped.as_slice())),
        LitKind::True => Some("true".to_owned()),
        LitKind::False => Some("false".to_owned()),
        LitKind::Nil => {
            let e = String::new();
            assert(e@ =~= Seq::<char>::empty());
            Some(e)
        },
        LitKind::Numeric | LitKind::Range { .. } => {
            let t = vstd::slice::slice_subrange(bytes, n.start, n.end);
            if is_valid_utf8(t) {
                Some(text_of(t))
            } else {
                let e = String::new();
                assert(e@ =~= Seq::<char>::empty());
                Some(e)
            }
        },
        _ => None,
    }
}

impl LiteralInInterpolation {
    pub fn name(&self) -> (r: &'static str)
        ensures
            r@ == "Lint/LiteralInInterpolation"@,
    {
        "Lint/LiteralInInterpolation"
    }

    pub fn default_severity(&self) -> (r: Severity)
        ensures
            r == Severity::Warning,
    {
        Severity::Warning
    }

    pub fn supports_autocorrect(&self) -> (r: bool)
        ensures
            r == true,
    {
        true
    }

    /// Whether an opening delimiter opens a heredoc, for the walk that tells
    /// interpolations where they sit.
    pub fn opens_heredoc(source: &SourceFile, opening: Option<(usize, usize)>) -> (r: bool)
        requires
            opening matches Some((a, b)) ==> a <= b <= source@.len(),
        ensures
            r == is_heredoc_opening(source@, opening),
    {
        let bytes = source.as_bytes();
        match opening {
            Some((a, b)) => b - a >= 2 && bytes[a] == 60u8 && bytes[a + 1] == 60u8,
            None => false,
        }
    }

    /// Whether an opening delimiter opens a `%W` or `%I` word array.
    pub fn opens_word_array(source: &SourceFile, opening: Option<(usize, usize)>) -> (r: bool)
        requires
            opening matches Some((a, b)) ==> a <= b <= source@.len(),
        ensures
            r == is_word_array_opening(source@, opening),
    {
        let bytes = source.as_bytes();
        match opening {
            Some((a, b)) => b - a >= 2 && bytes[a] == 37u8 && (bytes[a + 1] == 87u8 || bytes[a + 1] == 73u8),
            None => false,
        }
    }

    /// Checks one interpolation.
    pub fn check_interpolation(
        &self,
        source: &SourceFile,
        site: &Interpolation,
        diagnostics: &mut Vec<Diagnostic>,
        corrections: &mut Vec<Correction>,
        autocorrect: bool,
    )
        requires
            interpolation_in_bounds(source@, *site),
        ensures
            adds_offense(
                old(diagnostics)@,
                final(diagnostics)@,
                old(corrections)@,
                final(corrections)@,
                source.spec_path(),
                "Lint/LiteralInInterpolation"@,
                Severity::Warning,
                interpolation_offense(source@, *site),
                autocorrect,
            ),
    {
        let bytes = source.as_bytes();
        let nodes = &site.nodes;
        if nodes.len() == 0 {
            return;
        }
        assert(node_in_bounds(source@, nodes@[0]));
        let heredoc = match &nodes[0].kind {
            LitKind::Str { opening, .. } => Self::opens_heredoc(source, *opening),
            LitKind::InterpolatedStr { opening } => Self::opens_heredoc(source, *opening),
            _ => false,
        };
        if heredoc || !is_literal_exec(nodes, 0) {
            return;
        }
        let space = match &nodes[0].kind {
            LitKind::Str { content, .. } => {
                let (a, b) = *content;
                if a < b {
                    let mut q = a;
                    let mut all = true;
                    while q < b
                        invariant
                            a <= q <= b <= bytes@.len(),
                            all == forall|j: int| a <= j < q ==> is_space_or_tab(#[trigger] bytes@[j]),
                        decreases b - q,
                    {
                        if !(bytes[q] == 32u8 || bytes[q] == 9u8) {
                            all = false;
                        }
                        q = q + 1;
                    }
                    all
                } else {
                    false
                }
            },
            _ => false,
        };
        if space && site.in_heredoc && (site.end >= bytes.len() || bytes[site.end] == 10u8) {
            return;
        }
        if site.in_regexp && matches!(nodes[0].kind, LitKind::Array { .. }) {
            return;
        }
        if site.in_word_array {
            proof {
                assert forall|j: int| 0 <= j < nodes@.len() implies node_in_bounds(bytes@, #[trigger] nodes@[j]) by {
                    assert(node_in_bounds(source@, site.nodes@[j]));
                }
            }
            if expands_exec(bytes, nodes, 0) {
                return;
            }
        }
        let edit = match replacement_exec(bytes, nodes) {
            Some(r) => Some((site.start, site.end, r)),
            None => None,
        };
        let (line, col) = source.offset_to_line_col(nodes[0].start);
        emit_offense(
            diagnostics,
            corrections,
            autocorrect,
            source,
            "Lint/LiteralInInterpolation",
            Severity::Warning,
            line,
            col,
            "Literal interpolation detected.".to_owned(),
            edit,
        );
    }
}

} // verus!
