use crate::cop::config::{spec_get_str, CopConfig};
use crate::cop::report::{
    extends_with_edits, extends_with_reports, lemma_edits_concat, lemma_edits_empty,
    lemma_edits_push, lemma_reports_empty, lemma_reports_push,
};
use crate::cop::util::{
    find_line_start, is_blank_ws_line, is_blank_ws_line_exec, is_word, line_end_exec, skip_indent,
    skip_indent_exec, spec_is_word, starts_with_at, starts_with_at_exec, string_is, trim_back,
    trim_back_exec,
};
use crate::cop::node::ConstantReceiver;
use crate::correction::Correction;
use crate::diagnostic::{new_diagnostic, reports, Diagnostic, Severity};
use crate::parse::source::{
    col_of, lemma_line_end_bounds, lemma_line_has_start, lemma_line_start_bounds,
    lemma_newline_count_flat, lemma_newline_count_le, line_end, line_of, line_start, newline_count,
    spec_line_col_to_offset, SourceFile, NEWLINE,
};
use vstd::prelude::*;

verus! {

/// Layout/EmptyLinesAroundAccessModifier: an access modifier (`private`,
/// `protected`, `public`, `module_function`) standing alone on its line is
/// surrounded by blank lines (style `around`) or preceded by one (style
/// `only_before`), except at the start or end of its class body.
pub struct EmptyLinesAroundAccessModifier;

/// An access modifier call found in a class, module or macro-block body.
#[derive(Clone, Copy, Debug)]
pub struct ModifierInfo {
    /// Byte offset of the call.
    pub offset: usize,
    /// Byte offset of the body opening of the enclosing scope (for
    /// `class Foo < Bar`, where `Bar` starts); 0 with `body_closing` 0 at the
    /// top level.
    pub body_opening: usize,
    /// Byte offset just after the `end` of the enclosing scope; 0 at the top
    /// level.
    pub body_closing: usize,
}

/// The bytes of access modifier number `k`.
pub open spec fn modifier_bytes(k: int) -> Seq<u8> {
    if k == 0 {
        seq![112u8, 114u8, 105u8, 118u8, 97u8, 116u8, 101u8]
    } else if k == 1 {
        seq![112u8, 114u8, 111u8, 116u8, 101u8, 99u8, 116u8, 101u8, 100u8]
    } else if k == 2 {
        seq![112u8, 117u8, 98u8, 108u8, 105u8, 99u8]
    } else {
        seq![
            109u8, 111u8, 100u8, 117u8, 108u8, 101u8, 95u8, 102u8, 117u8, 110u8, 99u8, 116u8, 105u8,
            111u8, 110u8,
        ]
    }
}

/// The name of access modifier number `k`.
pub open spec fn modifier_str(k: int) -> Seq<char> {
    if k == 0 {
        "private"@
    } else if k == 1 {
        "protected"@
    } else if k == 2 {
        "public"@
    } else {
        "module_function"@
    }
}

/// The first access modifier, in the order `private`, `protected`, `public`,
/// `module_function`, whose name is written at `off`.
pub open spec fn modifier_at(s: Seq<u8>, off: int) -> Option<int> {
    let n = s.len() as int;
    if starts_with_at(s, off, n, modifier_bytes(0)) {
        Some(0)
    } else if starts_with_at(s, off, n, modifier_bytes(1)) {
        Some(1)
    } else if starts_with_at(s, off, n, modifier_bytes(2)) {
        Some(2)
    } else if starts_with_at(s, off, n, modifier_bytes(3)) {
        Some(3)
    } else {
        None
    }
}

/// The line `s[a..b)` holds, after its indentation, a `#`.
pub open spec fn is_comment_line(s: Seq<u8>, a: int, b: int) -> bool {
    let t = skip_indent(s, a, b);
    t < b && s[t] == 35u8
}

/// Some window of `s[t..e)` reads `do ` or `do|`.
pub open spec fn has_do_window(s: Seq<u8>, t: int, e: int) -> bool {
    exists|q: int|
        t <= q && q + 3 <= e && s[q] == 100u8 && s[q + 1] == 111u8 && (#[trigger] s[q + 2] == 32u8
            || s[q + 2] == 124u8)
}

pub open spec fn class_bytes() -> Seq<u8> {
    seq![99u8, 108u8, 97u8, 115u8, 115u8]
}

pub open spec fn module_bytes() -> Seq<u8> {
    seq![109u8, 111u8, 100u8, 117u8, 108u8, 101u8]
}

/// `s[t..b)` begins with the word `kw`, followed by a space, a line feed or
/// nothing.
pub open spec fn begins_with_keyword(s: Seq<u8>, t: int, b: int, kw: Seq<u8>) -> bool {
    starts_with_at(s, t, b, kw) && (b - t == kw.len() || s[t + kw.len()] == 32u8 || s[t
        + kw.len()] == 10u8)
}

/// The line `s[a..b)` opens a class or module body, or a block.
pub open spec fn is_body_opening(s: Seq<u8>, a: int, b: int) -> bool {
    let t = skip_indent(s, a, b);
    if t == b {
        false
    } else if begins_with_keyword(s, t, b, class_bytes()) || begins_with_keyword(
        s,
        t,
        b,
        module_bytes(),
    ) {
        true
    } else {
        let e = trim_back(s, t, b, false);
        (e - t >= 2 && s[e - 2] == 100u8 && s[e - 1] == 111u8 && (e - 2 == t || !spec_is_word(
            s[e - 3],
        ))) || (e - t >= 1 && s[e - 1] == 124u8 && has_do_window(s, t, e)) || (e - t >= 1 && s[e
            - 1] == 123u8)
    }
}

/// The line `s[a..b)` holds only the modifier `m`, possibly followed by a
/// comment.
pub open spec fn is_bare_modifier_line(s: Seq<u8>, a: int, b: int, m: Seq<u8>) -> bool {
    let t = skip_indent(s, a, b);
    let e = trim_back(s, t, b, true);
    (e - t == m.len() && starts_with_at(s, t, e, m)) || (starts_with_at(s, t, e, m) && {
        let r = skip_indent(s, t + m.len(), e);
        r < e && s[r] == 35u8
    })
}

/// Looking back from the line that starts at `p`, past comment lines: the
/// first other line is blank or opens a body (true when there is none).
pub open spec fn blank_or_boundary_before(s: Seq<u8>, p: int) -> bool
    decreases p,
{
    if p <= 0 || p > s.len() {
        true
    } else {
        let ps = line_start(s, p - 1);
        if 0 <= ps < p && is_comment_line(s, ps, p - 1) {
            blank_or_boundary_before(s, ps)
        } else {
            is_blank_ws_line(s, ps, p - 1) || is_body_opening(s, ps, p - 1)
        }
    }
}

/// What the modifier `m` calls for under style `style`: (line, column,
/// message, a blank line is inserted before it, one is inserted after it).
pub open spec fn modifier_offense(s: Seq<u8>, style: Seq<char>, m: ModifierInfo) -> Option<
    (int, int, Seq<char>, bool, bool),
> {
    let off = m.offset as int;
    let n = s.len() as int;
    let ls = line_start(s, off);
    let le = line_end(s, ls);
    let line = line_of(s, off) as int;
    let at_root = m.body_opening == 0 && m.body_closing == 0;
    match modifier_at(s, off) {
        None => None,
        Some(k) => {
            if !is_bare_modifier_line(s, ls, le, modifier_bytes(k)) {
                None
            } else {
                let at_opening = if at_root {
                    line == 1
                } else {
                    line == line_of(s, m.body_opening as int) + 1
                };
                let at_end = if at_root {
                    line == line_of(s, n)
                } else {
                    line + 1 == line_of(s, m.body_closing - 1)
                };
                let before = at_opening || blank_or_boundary_before(s, ls);
                let after = at_end || le >= n || is_blank_ws_line(s, le + 1, line_end(s, le + 1));
                let name = modifier_str(k);
                let col = col_of(s, off) as int;
                if style == "around"@ && (!before || !after) {
                    let msg = if !after && before {
                        "Keep a blank line after `"@ + name + "`."@
                    } else {
                        "Keep a blank line before and after `"@ + name + "`."@
                    };
                    Some((line, col, msg, !before, !after))
                } else if style == "only_before"@ && !before {
                    Some((line, col, "Keep a blank line before `"@ + name + "`."@, true, false))
                } else {
                    None
                }
            }
        },
    }
}

/// The offenses of the modifiers `ms`, in order.
pub open spec fn modifier_offenses(s: Seq<u8>, style: Seq<char>, ms: Seq<ModifierInfo>) -> Seq<
    (int, int, Seq<char>),
>
    decreases ms.len(),
{
    if ms.len() == 0 {
        Seq::empty()
    } else {
        let rest = modifier_offenses(s, style, ms.drop_last());
        match modifier_offense(s, style, ms.last()) {
            Some(o) => rest.push((o.0, o.1, o.2)),
            None => rest,
        }
    }
}

/// The insertions of a blank line that one offense makes: at the start of
/// its line, then at the start of the next line.
pub open spec fn offense_edits(s: Seq<u8>, o: (int, int, Seq<char>, bool, bool)) -> Seq<
    (int, int, Seq<char>),
> {
    let b = if o.3 {
        match spec_line_col_to_offset(s, o.0, 0) {
            Some(p) => seq![(p, p, "\n"@)],
            None => Seq::empty(),
        }
    } else {
        Seq::empty()
    };
    let a = if o.4 {
        match spec_line_col_to_offset(s, o.0 + 1, 0) {
            Some(p) => seq![(p, p, "\n"@)],
            None => Seq::empty(),
        }
    } else {
        Seq::empty()
    };
    b + a
}

/// The corrections of the modifiers `ms`, in order.
pub open spec fn modifier_edits(s: Seq<u8>, style: Seq<char>, ms: Seq<ModifierInfo>) -> Seq<
    (int, int, Seq<char>),
>
    decreases ms.len(),
{
    if ms.len() == 0 {
        Seq::empty()
    } else {
        let rest = modifier_edits(s, style, ms.drop_last());
        match modifier_offense(s, style, ms.last()) {
            Some(o) => rest + offense_edits(s, o),
            None => rest,
        }
    }
}

/// The offsets of a modifier lie within the source, and a scope that is
/// not the top level ends after offset 0.
pub open spec fn modifier_in_bounds(s: Seq<u8>, m: ModifierInfo) -> bool {
    &&& m.offset <= s.len()
    &&& m.body_opening <= s.len()
    &&& m.body_closing <= s.len() + 1
    &&& (m.body_closing == 0 ==> m.body_opening == 0)
}


fn modifier_bytes_exec(k: usize) -> (r: Vec<u8>)
    requires
        k < 4,
    ensures
        r@ == modifier_bytes(k as int),
{
    if k == 0 {
        vec![112u8, 114u8, 105u8, 118u8, 97u8, 116u8, 101u8]
    } else if k == 1 {
        vec![112u8, 114u8, 111u8, 116u8, 101u8, 99u8, 116u8, 101u8, 100u8]
    } else if k == 2 {
        vec![112u8, 117u8, 98u8, 108u8, 105u8, 99u8]
    } else {
        vec![
            109u8, 111u8, 100u8, 117u8, 108u8, 101u8, 95u8, 102u8, 117u8, 110u8, 99u8, 116u8, 105u8,
            111u8, 110u8,
        ]
    }
}

fn modifier_str_exec(k: usize) -> (r: &'static str)
    requires
        k < 4,
    ensures
        r@ == modifier_str(k as int),
{
    if k == 0 {
        "private"
    } else if k == 1 {
        "protected"
    } else if k == 2 {
        "public"
    } else {
        "module_function"
    }
}

fn modifier_at_exec(bytes: &[u8], off: usize) -> (r: Option<usize>)
    requires
        off <= bytes@.len(),
    ensures
        match r {
            Some(k) => k < 4 && modifier_at(bytes@, off as int) == Some(k as int),
            None => modifier_at(bytes@, off as int) is None,
        },
{
    let n = bytes.len();
    let mut k: usize = 0;
    while k < 4
        invariant
            k <= 4,
            n == bytes@.len(),
            off <= n,
            forall|j: int|
                0 <= j < k ==> !starts_with_at(bytes@, off as int, n as int, modifier_bytes(j)),
        decreases 4 - k,
    {
        let m = modifier_bytes_exec(k);
        if starts_with_at_exec(bytes, off, n, m.as_slice()) {
            return Some(k);
        }
        k = k + 1;
    }
    None
}

fn is_comment_line_exec(bytes: &[u8], a: usize, b: usize) -> (r: bool)
    requires
        a <= b <= bytes@.len(),
    ensures
        r == is_comment_line(bytes@, a as int, b as int),
{
    let t = skip_indent_exec(bytes, a, b);
    t < b && bytes[t] == 35u8
}

fn has_do_window_exec(bytes: &[u8], t: usize, e: usize) -> (r: bool)
    requires
        t <= e <= bytes@.len(),
    ensures
        r == has_do_window(bytes@, t as int, e as int),
{
    let mut q = t;
    while e - q >= 3
        invariant
            t <= q <= e <= bytes@.len(),
            forall|j: int|
                t <= j < q ==> !(j + 3 <= e && bytes@[j] == 100u8 && bytes@[j + 1] == 111u8 && (
                #[trigger] bytes@[j + 2] == 32u8 || bytes@[j + 2] == 124u8)),
        decreases e - q,
    {
        if bytes[q] == 100u8 && bytes[q + 1] == 111u8 && (bytes[q + 2] == 32u8 || bytes[q + 2]
            == 124u8) {
            return true;
        }
        q = q + 1;
    }
    false
}

fn begins_with_keyword_exec(bytes: &[u8], t: usize, b: usize, kw: &[u8]) -> (r: bool)
    requires
        t <= b <= bytes@.len(),
    ensures
        r == begins_with_keyword(bytes@, t as int, b as int, kw@),
{
    if !starts_with_at_exec(bytes, t, b, kw) {
        return false;
    }
    let k = kw.len();
    b - t == k || bytes[t + k] == 32u8 || bytes[t + k] == 10u8
}

fn is_body_opening_exec(bytes: &[u8], a: usize, b: usize) -> (r: bool)
    requires
        a <= b <= bytes@.len(),
    ensures
        r == is_body_opening(bytes@, a as int, b as int),
{
    let t = skip_indent_exec(bytes, a, b);
    if t == b {
        return false;
    }
    let cls: Vec<u8> = vec![99u8, 108u8, 97u8, 115u8, 115u8];
    let module: Vec<u8> = vec![109u8, 111u8, 100u8, 117u8, 108u8, 101u8];
    assert(cls@ == class_bytes());
    assert(module@ == module_bytes());
    if begins_with_keyword_exec(bytes, t, b, cls.as_slice()) || begins_with_keyword_exec(
        bytes,
        t,
        b,
        module.as_slice(),
    ) {
        return true;
    }
    let e = trim_back_exec(bytes, t, b, false);
    (e - t >= 2 && bytes[e - 2] == 100u8 && bytes[e - 1] == 111u8 && (e - 2 == t || !is_word(
        bytes[e - 3],
    ))) || (e - t >= 1 && bytes[e - 1] == 124u8 && has_do_window_exec(bytes, t, e)) || (e - t
        >= 1 && bytes[e - 1] == 123u8)
}

fn is_bare_modifier_line_exec(bytes: &[u8], a: usize, b: usize, m: &[u8]) -> (r: bool)
    requires
        a <= b <= bytes@.len(),
    ensures
        r == is_bare_modifier_line(bytes@, a as int, b as int, m@),
{
    let t = skip_indent_exec(bytes, a, b);
    let e = trim_back_exec(bytes, t, b, true);
    if !starts_with_at_exec(bytes, t, e, m) {
        return false;
    }
    if e - t == m.len() {
        return true;
    }
    let r = skip_indent_exec(bytes, t + m.len(), e);
    r < e && bytes[r] == 35u8
}

fn blank_or_boundary_before_exec(bytes: &[u8], p: usize) -> (r: bool)
    requires
        p <= bytes@.len(),
    ensures
        r == blank_or_boundary_before(bytes@, p as int),
    decreases p,
{
    if p == 0 {
        return true;
    }
    let ps = find_line_start(bytes, p - 1);
    if is_comment_line_exec(bytes, ps, p - 1) {
        blank_or_boundary_before_exec(bytes, ps)
    } else {
        is_blank_ws_line_exec(bytes, ps, p - 1) || is_body_opening_exec(bytes, ps, p - 1)
    }
}



/// The kind of scope that a class body, a block or a method body opens.
#[derive(Clone, Copy, Debug, PartialEq, Eq, Structural)]
pub enum ScopeKind {
    /// A class, module or singleton class body, or a `Class.new` style block.
    ClassLike,
    /// A block of a receiverless call made in an access-modifier scope.
    DslBlock,
    /// A method body, a lambda, or any other block.
    NonClass,
}

/// Collects the access modifier calls of a tree walked in order: the walk
/// reports each scope it enters and leaves, and each call it meets.
pub struct AccessModifierCollector {
    /// The modifiers found so far, in order.
    pub modifiers: Vec<ModifierInfo>,
    /// The enclosing scopes, innermost last: kind, body opening, body closing.
    pub scope_stack: Vec<(ScopeKind, usize, usize)>,
}

/// Access modifiers may stand at the top level and directly in class-like
/// bodies and macro blocks.
pub open spec fn in_modifier_scope(stack: Seq<(ScopeKind, usize, usize)>) -> bool {
    stack.len() == 0 || stack.last().0 != ScopeKind::NonClass
}

/// The body opening and closing of the innermost scope, (0, 0) at the top
/// level.
pub open spec fn current_scope(stack: Seq<(ScopeKind, usize, usize)>) -> (usize, usize) {
    if stack.len() == 0 {
        (0, 0)
    } else {
        (stack.last().1, stack.last().2)
    }
}

pub open spec fn is_modifier_name(name: Seq<char>) -> bool {
    name == "private"@ || name == "protected"@ || name == "public"@ || name == "module_function"@
}

pub open spec fn is_constructor_class(n: Seq<char>) -> bool {
    n == "Class"@ || n == "Module"@ || n == "Struct"@ || n == "Data"@
}

/// `Class.new`, `Module.new`, `Struct.new` or `Data.new` (also with `::`).
pub open spec fn spec_is_class_constructor_call(name: Seq<char>, receiver: Option<ConstantReceiver>) -> bool {
    name == "new"@ && match receiver {
        Some(ConstantReceiver::Read(n)) => is_constructor_class(n@),
        Some(ConstantReceiver::Path { has_parent, name }) => !has_parent && match name {
            Some(n) => is_constructor_class(n@),
            None => false,
        },
        _ => false,
    }
}

fn is_constructor_class_exec(n: &String) -> (r: bool)
    ensures
        r == is_constructor_class(n@),
{
    string_is(n, "Class") || string_is(n, "Module") || string_is(n, "Struct") || string_is(n, "Data")
}

/// Whether a call named `name` on `receiver` builds a class or module.
pub fn is_class_constructor_call(name: &String, receiver: &Option<ConstantReceiver>) -> (r: bool)
    ensures
        r == spec_is_class_constructor_call(name@, *receiver),
{
    if !string_is(name, "new") {
        return false;
    }
    match receiver {
        Some(ConstantReceiver::Read(n)) => is_constructor_class_exec(n),
        Some(ConstantReceiver::Path { has_parent, name }) => {
            if *has_parent {
                false
            } else {
                match name {
                    Some(n) => is_constructor_class_exec(n),
                    None => false,
                }
            }
        },
        _ => false,
    }
}

impl AccessModifierCollector {
    pub fn new() -> (r: AccessModifierCollector)
        ensures
            r.modifiers@.len() == 0,
            r.scope_stack@.len() == 0,
    {
        AccessModifierCollector { modifiers: Vec::new(), scope_stack: Vec::new() }
    }

    pub fn in_access_modifier_scope(&self) -> (r: bool)
        ensures
            r == in_modifier_scope(self.scope_stack@),
    {
        let n = self.scope_stack.len();
        n == 0 || self.scope_stack[n - 1].0 != ScopeKind::NonClass
    }

    /// Records the call at `offset` when it is a bare access modifier in an
    /// access-modifier scope: no receiver, no arguments, no block.
    pub fn check_call(
        &mut self,
        has_receiver: bool,
        name: &String,
        has_arguments: bool,
        has_block: bool,
        offset: usize,
    )
        ensures
            final(self).scope_stack@ == old(self).scope_stack@,
            ({
                let (o, c) = current_scope(old(self).scope_stack@);
                if in_modifier_scope(old(self).scope_stack@) && !has_receiver && is_modifier_name(
                    name@,
                ) && !has_arguments && !has_block {
                    final(self).modifiers@ == old(self).modifiers@.push(
                        ModifierInfo { offset, body_opening: o, body_closing: c },
                    )
                } else {
                    final(self).modifiers@ == old(self).modifiers@
                }
            }),
    {
        if !self.in_access_modifier_scope() || has_receiver {
            return;
        }
        if !(string_is(name, "private") || string_is(name, "protected") || string_is(name, "public")
            || string_is(name, "module_function")) {
            return;
        }
        if has_arguments || has_block {
            return;
        }
        let n = self.scope_stack.len();
        let (o, c) = if n == 0 {
            (0, 0)
        } else {
            (self.scope_stack[n - 1].1, self.scope_stack[n - 1].2)
        };
        self.modifiers.push(ModifierInfo { offset, body_opening: o, body_closing: c });
    }

    /// Enters a class-like body.
    pub fn push_class_scope(&mut self, opening: usize, closing: usize)
        ensures
            final(self).modifiers@ == old(self).modifiers@,
            final(self).scope_stack@ == old(self).scope_stack@.push(
                (ScopeKind::ClassLike, opening, closing),
            ),
    {
        self.scope_stack.push((ScopeKind::ClassLike, opening, closing));
    }

    /// Enters a macro block.
    pub fn push_dsl_block_scope(&mut self, opening: usize, closing: usize)
        ensures
            final(self).modifiers@ == old(self).modifiers@,
            final(self).scope_stack@ == old(self).scope_stack@.push(
                (ScopeKind::DslBlock, opening, closing),
            ),
    {
        self.scope_stack.push((ScopeKind::DslBlock, opening, closing));
    }

    /// Enters a method body, a lambda or another block.
    pub fn push_non_class_scope(&mut self)
        ensures
            final(self).modifiers@ == old(self).modifiers@,
            final(self).scope_stack@ == old(self).scope_stack@.push((ScopeKind::NonClass, 0, 0)),
    {
        self.scope_stack.push((ScopeKind::NonClass, 0, 0));
    }

    /// Leaves the innermost scope.
    pub fn pop_scope(&mut self)
        ensures
            final(self).modifiers@ == old(self).modifiers@,
            old(self).scope_stack@.len() == 0 ==> final(self).scope_stack@.len() == 0,
            old(self).scope_stack@.len() > 0 ==> final(self).scope_stack@
                == old(self).scope_stack@.drop_last(),
    {
        let _ = self.scope_stack.pop();
    }
}

/// An offense always comes with a blank line to insert, at a line start
/// that exists.
proof fn lemma_offense_edits(s: Seq<u8>, style: Seq<char>, m: ModifierInfo)
    requires
        modifier_in_bounds(s, m),
        modifier_offense(s, style, m) is Some,
    ensures
        ({
            let o = modifier_offense(s, style, m).unwrap();
            &&& o.3 || o.4
            &&& o.3 ==> spec_line_col_to_offset(s, o.0, 0) is Some
            &&& o.4 ==> spec_line_col_to_offset(s, o.0 + 1, 0) is Some
            &&& o.4 ==> o.0 + 1 <= s.len() + 1
            &&& 1 <= o.0 <= s.len() + 1
        }),
{
    let off = m.offset as int;
    let ls = line_start(s, off);
    let le = line_end(s, ls);
    let o = modifier_offense(s, style, m).unwrap();
    lemma_line_start_bounds(s, off);
    lemma_line_end_bounds(s, ls);
    lemma_newline_count_le(s, off);
    lemma_line_has_start(s, off);
    if o.4 {
        assert(le < s.len());
        if le < off {
            assert(s[le] == NEWLINE);
        }
        lemma_newline_count_flat(s, off, le);
        assert(newline_count(s, le + 1) == newline_count(s, le) + 1);
        lemma_line_has_start(s, le + 1);
        lemma_newline_count_le(s, le + 1);
    }
}

/// Appends the report of one offense and, with `autocorrect`, its blank
/// line insertions.
fn push_modifier_offense(
    source: &SourceFile,
    o: (usize, usize, String, bool, bool),
    diagnostics: &mut Vec<Diagnostic>,
    corrections: &mut Vec<Correction>,
    autocorrect: bool,
)
    requires
        o.3 || o.4,
        1 <= o.0,
        o.3 ==> spec_line_col_to_offset(source@, o.0 as int, 0) is Some,
        o.4 ==> spec_line_col_to_offset(source@, o.0 + 1, 0) is Some,
        o.4 ==> o.0 + 1 <= usize::MAX,
    ensures
        final(diagnostics)@.len() == old(diagnostics)@.len() + 1,
        final(diagnostics)@.drop_last() == old(diagnostics)@,
        reports(
            final(diagnostics)@.last(),
            source.spec_path(),
            "Layout/EmptyLinesAroundAccessModifier"@,
            Severity::Convention,
            o.0 as int,
            o.1 as int,
            o.2@,
            autocorrect,
        ),
        autocorrect ==> extends_with_edits(
            old(corrections)@,
            final(corrections)@,
            "Layout/EmptyLinesAroundAccessModifier"@,
            offense_edits(source@, (o.0 as int, o.1 as int, o.2@, o.3, o.4)),
        ),
        !autocorrect ==> final(corrections)@ == old(corrections)@,
{
    let cop = "Layout/EmptyLinesAroundAccessModifier";
    let (line, col, msg, miss_before, miss_after) = o;
    let ghost og = (line as int, col as int, msg@, miss_before, miss_after);
    let mut d = new_diagnostic(source, cop, Severity::Convention, line, col, msg);
    let ghost c0 = corrections@;
    proof {
        lemma_edits_empty(c0, cop@);
    }
    if autocorrect {
        let ghost mid = corrections@;
        let ghost b_eds = Seq::<(int, int, Seq<char>)>::empty();
        if miss_before {
            match source.line_col_to_offset(line, 0) {
                Some(off) => {
                    corrections.push(
                        Correction {
                            start: off,
                            end: off,
                            replacement: "\n".to_owned(),
                            cop_name: cop.to_owned(),
                            cop_index: 0,
                        },
                    );
                    proof {
                        assert(corrections@.drop_last() =~= mid);
                        lemma_edits_push(c0, mid, corrections@, cop@, b_eds, (off as int, off as int, "\n"@));
                        b_eds = b_eds.push((off as int, off as int, "\n"@));
                    }
                    d.corrected = true;
                },
                None => {},
            }
        }
        proof {
            assert(b_eds =~= (if miss_before {
                match spec_line_col_to_offset(source@, line as int, 0) {
                    Some(p) => seq![(p, p, "\n"@)],
                    None => Seq::empty(),
                }
            } else {
                Seq::empty()
            }));
        }
        let ghost mid2 = corrections@;
        let ghost eds = b_eds;
        if miss_after {
            match source.line_col_to_offset(line + 1, 0) {
                Some(off) => {
                    corrections.push(
                        Correction {
                            start: off,
                            end: off,
                            replacement: "\n".to_owned(),
                            cop_name: cop.to_owned(),
                            cop_index: 0,
                        },
                    );
                    proof {
                        assert(corrections@.drop_last() =~= mid2);
                        lemma_edits_push(c0, mid2, corrections@, cop@, b_eds, (off as int, off as int, "\n"@));
                        eds = b_eds.push((off as int, off as int, "\n"@));
                    }
                    d.corrected = true;
                },
                None => {},
            }
        }
        proof {
            assert(eds =~= offense_edits(source@, og));
        }
    }
    diagnostics.push(d);
    assert(diagnostics@.drop_last() =~= old(diagnostics)@);
}

impl EmptyLinesAroundAccessModifier {
    pub fn name(&self) -> (r: &'static str)
        ensures
            r@ == "Layout/EmptyLinesAroundAccessModifier"@,
    {
        "Layout/EmptyLinesAroundAccessModifier"
    }

    pub fn default_severity(&self) -> (r: Severity)
        ensures
            r == Severity::Convention,
    {
        Severity::Convention
    }

    pub fn supports_autocorrect(&self) -> (r: bool)
        ensures
            r == true,
    {
        true
    }

    /// What the modifier `m` of `source` calls for under style `style`:
    /// (line, column, message, blank line missing before, blank line missing
    /// after), or `None` when it is fine.
    pub fn modifier_offense(&self, source: &SourceFile, style: &String, m: &ModifierInfo) -> (r:
        Option<(usize, usize, String, bool, bool)>)
        requires
            modifier_in_bounds(source@, *m),
        ensures
            match r {
                Some(o) => modifier_offense(source@, style@, *m) == Some(
                    (o.0 as int, o.1 as int, o.2@, o.3, o.4),
                ),
                None => modifier_offense(source@, style@, *m) is None,
            },
    {
        let bytes = source.as_bytes();
        let n = bytes.len();
        let off = m.offset;
        let k = match modifier_at_exec(bytes, off) {
            Some(k) => k,
            None => {
                return None;
            },
        };
        let ls = find_line_start(bytes, off);
        let le = line_end_exec(bytes, ls);
        let name_bytes = modifier_bytes_exec(k);
        if !is_bare_modifier_line_exec(bytes, ls, le, name_bytes.as_slice()) {
            return None;
        }
        let (line, col) = source.offset_to_line_col(off);
        let at_root = m.body_opening == 0 && m.body_closing == 0;
        let at_opening = if at_root {
            line == 1
        } else {
            let (open_line, _) = source.offset_to_line_col(m.body_opening);
            line - 1 == open_line
        };
        let at_end = if at_root {
            let (last_line, _) = source.offset_to_line_col(n);
            line == last_line
        } else {
            let (close_line, _) = source.offset_to_line_col(m.body_closing - 1);
            close_line >= 1 && line == close_line - 1
        };
        let before = at_opening || blank_or_boundary_before_exec(bytes, ls);
        let after = at_end || le >= n || is_blank_ws_line_exec(
            bytes,
            le + 1,
            line_end_exec(bytes, le + 1),
        );
        let name = modifier_str_exec(k);
        if string_is(style, "around") && (!before || !after) {
            let mut msg = if !after && before {
                "Keep a blank line after `".to_owned()
            } else {
                "Keep a blank line before and after `".to_owned()
            };
            msg.append(name);
            msg.append("`.");
            Some((line, col, msg, !before, !after))
        } else if string_is(style, "only_before") && !before {
            let mut msg = "Keep a blank line before `".to_owned();
            msg.append(name);
            msg.append("`.");
            Some((line, col, msg, true, false))
        } else {
            None
        }
    }

    /// Checks the access modifiers `modifiers` of `source`, in order: one
    /// report per offense and, with `autocorrect`, the blank lines to insert.
    pub fn check_source(
        &self,
        source: &SourceFile,
        config: &CopConfig,
        modifiers: &[ModifierInfo],
        diagnostics: &mut Vec<Diagnostic>,
        corrections: &mut Vec<Correction>,
        autocorrect: bool,
    )
        requires
            forall|i: int| 0 <= i < modifiers@.len() ==> modifier_in_bounds(source@, #[trigger] modifiers@[i]),
        ensures
            extends_with_reports(
                old(diagnostics)@,
                final(diagnostics)@,
                source.spec_path(),
                "Layout/EmptyLinesAroundAccessModifier"@,
                Severity::Convention,
                modifier_offenses(
                    source@,
                    spec_get_str(config.options@, "EnforcedStyle"@, "around"@),
                    modifiers@,
                ),
                autocorrect,
            ),
            autocorrect ==> extends_with_edits(
                old(corrections)@,
                final(corrections)@,
                "Layout/EmptyLinesAroundAccessModifier"@,
                modifier_edits(
                    source@,
                    spec_get_str(config.options@, "EnforcedStyle"@, "around"@),
                    modifiers@,
                ),
            ),
            !autocorrect ==> final(corrections)@ == old(corrections)@,
    {
        let cop = "Layout/EmptyLinesAroundAccessModifier";
        let style = config.get_str("EnforcedStyle", "around");
        let ghost path = source.spec_path();
        let bytes = source.as_bytes();
        proof {
            lemma_reports_empty(diagnostics@, path, cop@, Severity::Convention, autocorrect);
            lemma_edits_empty(corrections@, cop@);
        }
        let mut i: usize = 0;
        while i < modifiers.len()
            invariant
                i <= modifiers@.len(),
                style@ == spec_get_str(config.options@, "EnforcedStyle"@, "around"@),
                path == source.spec_path(),
                cop@ == "Layout/EmptyLinesAroundAccessModifier"@,
                bytes@ == source@,
                bytes@.len() < usize::MAX,
                forall|j: int| 0 <= j < modifiers@.len() ==> modifier_in_bounds(source@, #[trigger] modifiers@[j]),
                extends_with_reports(
                    old(diagnostics)@,
                    diagnostics@,
                    path,
                    cop@,
                    Severity::Convention,
                    modifier_offenses(source@, style@, modifiers@.subrange(0, i as int)),
                    autocorrect,
                ),
                autocorrect ==> extends_with_edits(
                    old(corrections)@,
                    corrections@,
                    cop@,
                    modifier_edits(source@, style@, modifiers@.subrange(0, i as int)),
                ),
                !autocorrect ==> corrections@ == old(corrections)@,
            decreases modifiers@.len() - i,
        {
            let ghost pre = modifiers@.subrange(0, i as int);
            assert(modifiers@.subrange(0, i + 1).drop_last() =~= pre);
            let m = &modifiers[i];
            match self.modifier_offense(source, &style, m) {
                Some(o) => {
                    proof {
                        lemma_offense_edits(source@, style@, *m);
                    }
                    let ghost og = (o.0 as int, o.1 as int, o.2@, o.3, o.4);
                    let ghost d0 = diagnostics@;
                    let ghost c0 = corrections@;
                    push_modifier_offense(source, o, diagnostics, corrections, autocorrect);
                    proof {
                        lemma_reports_push(
                            old(diagnostics)@,
                            d0,
                            diagnostics@,
                            path,
                            cop@,
                            Severity::Convention,
                            modifier_offenses(source@, style@, pre),
                            (og.0, og.1, og.2),
                            autocorrect,
                        );
                        if autocorrect {
                            lemma_edits_concat(
                                old(corrections)@,
                                c0,
                                corrections@,
                                cop@,
                                modifier_edits(source@, style@, pre),
                                offense_edits(source@, og),
                            );
                        }
                    }
                },
                None => {},
            }
            i = i + 1;
        }
        assert(modifiers@.subrange(0, modifiers@.len() as int) =~= modifiers@);
    }
}

} // verus!
