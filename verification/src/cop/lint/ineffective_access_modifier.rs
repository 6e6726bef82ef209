use crate::cop::report::{
    extends_with_edits, extends_with_flagged_reports, lemma_edits_empty, lemma_edits_push,
    lemma_flagged_reports_push,
};
use crate::cop::util::{decimal, push_decimal, range_eq, string_is};
use crate::correction::Correction;
use crate::diagnostic::{new_diagnostic, reports, Diagnostic, Severity};
use crate::parse::source::{col_of, line_of, SourceFile};
use vstd::prelude::*;

verus! {

/// `Lint/IneffectiveAccessModifier`: `private` and `protected` do not apply
/// to singleton methods (`def self.x`) defined after them in a class or
/// module body.
pub struct IneffectiveAccessModifier;

/// A statement of a class or module body, as far as the cop reads it.
pub enum BodyStmt {
    /// A method call.
    Call {
        has_receiver: bool,
        has_arguments: bool,
        name: String,
        start: usize,
        end: usize,
        /// The unescaped texts of its symbol arguments, in order.
        symbol_args: Vec<Vec<u8>>,
    },
    /// A method definition: `singleton` for `def self.x`, the method name,
    /// and where its `def` keyword starts.
    Def { singleton: bool, method: Vec<u8>, keyword_start: usize },
    /// Any other statement.
    Other,
}

/// The visibility a bare modifier call named `name` sets: 0 `private`,
/// 1 `protected`, 2 `public`.
pub open spec fn modifier_kind(name: Seq<char>) -> Option<int> {
    if name == "private"@ {
        Some(0)
    } else if name == "protected"@ {
        Some(1)
    } else if name == "public"@ {
        Some(2)
    } else {
        None
    }
}

/// A receiverless `private_class_method` or `protected_class_method` call.
pub open spec fn is_override_call(st: BodyStmt) -> bool {
    match st {
        BodyStmt::Call { has_receiver, name, .. } => !has_receiver && (name@
            == "private_class_method"@ || name@ == "protected_class_method"@),
        _ => false,
    }
}

pub open spec fn symbol_args_of(st: BodyStmt) -> Seq<Vec<u8>> {
    match st {
        BodyStmt::Call { symbol_args, .. } => symbol_args@,
        _ => Seq::empty(),
    }
}

/// The statement `st` sets the visibility of the singleton method `name`.
pub open spec fn overrides(st: BodyStmt, name: Seq<u8>) -> bool {
    is_override_call(st) && exists|j: int|
        0 <= j < symbol_args_of(st).len() && #[trigger] symbol_args_of(st)[j]@ == name
}

/// One of the first `n` statements sets the visibility of `name`.
pub open spec fn overridden_before(stmts: Seq<BodyStmt>, n: int, name: Seq<u8>) -> bool {
    exists|i: int| 0 <= i < n && overrides(#[trigger] stmts[i], name)
}

/// The singleton method `name` gets its visibility from a
/// `private_class_method` or `protected_class_method` call of the body.
pub open spec fn is_overridden(stmts: Seq<BodyStmt>, name: Seq<u8>) -> bool {
    overridden_before(stmts, stmts.len() as int, name)
}

/// Some element of `r` reads `name`.
pub open spec fn has_name(r: Seq<Vec<u8>>, name: Seq<u8>) -> bool {
    exists|q: int| 0 <= q < r.len() && #[trigger] r[q]@ == name
}

/// The modifier in force after the first `k` statements: (kind, line, start,
/// end).
pub open spec fn modifier_after(s: Seq<u8>, stmts: Seq<BodyStmt>, k: int) -> Option<(int, int, int, int)>
    decreases k,
{
    if k <= 0 {
        None
    } else {
        let prev = modifier_after(s, stmts, k - 1);
        match stmts[k - 1] {
            BodyStmt::Call { has_receiver, has_arguments, name, start, end, .. } => {
                if !has_receiver && !has_arguments && modifier_kind(name@) is Some {
                    Some(
                        (
                            modifier_kind(name@).unwrap(),
                            line_of(s, start as int) as int,
                            start as int,
                            end as int,
                        ),
                    )
                } else {
                    prev
                }
            },
            _ => prev,
        }
    }
}

pub open spec fn ineffective_message(kind: int, line: int) -> Seq<char> {
    if kind == 0 {
        "`private` (on line "@ + decimal(line as nat)
            + ") does not make singleton methods private. Use `private_class_method` or `private` inside a `class << self` block instead."@
    } else {
        "`protected` (on line "@ + decimal(line as nat)
            + ") does not make singleton methods protected. Use `protected` inside a `class << self` block instead."@
    }
}

/// The offense of statement `k`: (line, column, message, modifier start,
/// modifier end, modifier line).
pub open spec fn stmt_offense(s: Seq<u8>, stmts: Seq<BodyStmt>, k: int) -> Option<
    (int, int, Seq<char>, int, int, int),
> {
    match stmts[k] {
        BodyStmt::Def { singleton, method, keyword_start } => {
            if !singleton || is_overridden(stmts, method@) {
                None
            } else {
                match modifier_after(s, stmts, k) {
                    Some((kind, line, start, end)) => if kind == 2 {
                        None
                    } else {
                        Some(
                            (
                                line_of(s, keyword_start as int) as int,
                                col_of(s, keyword_start as int) as int,
                                ineffective_message(kind, line),
                                start,
                                end,
                                line,
                            ),
                        )
                    },
                    None => None,
                }
            }
        },
        _ => None,
    }
}

/// The modifier lines whose modifier was already rewritten, after the first
/// `k` statements.
pub open spec fn corrected_lines(s: Seq<u8>, stmts: Seq<BodyStmt>, k: int) -> Set<int>
    decreases k,
{
    if k <= 0 {
        Set::empty()
    } else {
        let prev = corrected_lines(s, stmts, k - 1);
        match stmt_offense(s, stmts, k - 1) {
            Some(o) => prev.insert(o.5),
            None => prev,
        }
    }
}

/// The offenses of the first `k` statements: (line, column, message, the
/// first one for its modifier).
pub open spec fn body_offenses(s: Seq<u8>, stmts: Seq<BodyStmt>, k: int) -> Seq<
    (int, int, Seq<char>, bool),
>
    decreases k,
{
    if k <= 0 {
        Seq::empty()
    } else {
        let prev = body_offenses(s, stmts, k - 1);
        match stmt_offense(s, stmts, k - 1) {
            Some(o) => prev.push((o.0, o.1, o.2, !corrected_lines(s, stmts, k - 1).contains(o.5))),
            None => prev,
        }
    }
}

/// The corrections of the first `k` statements: each ineffective modifier
/// is rewritten to `public`, once.
pub open spec fn body_edits(s: Seq<u8>, stmts: Seq<BodyStmt>, k: int) -> Seq<(int, int, Seq<char>)>
    decreases k,
{
    if k <= 0 {
        Seq::empty()
    } else {
        let prev = body_edits(s, stmts, k - 1);
        match stmt_offense(s, stmts, k - 1) {
            Some(o) => if !corrected_lines(s, stmts, k - 1).contains(o.5) {
                prev.push((o.3, o.4, "public"@))
            } else {
                prev
            },
            None => prev,
        }
    }
}

pub open spec fn stmts_in_bounds(s: Seq<u8>, stmts: Seq<BodyStmt>) -> bool {
    forall|k: int|
        0 <= k < stmts.len() ==> match #[trigger] stmts[k] {
            BodyStmt::Call { start, end, .. } => start <= end <= s.len(),
            BodyStmt::Def { keyword_start, .. } => keyword_start <= s.len(),
            BodyStmt::Other => true,
        }
}

fn modifier_kind_exec(name: &String) -> (r: Option<usize>)
    ensures
        match r {
            Some(k) => modifier_kind(name@) == Some(k as int),
            None => modifier_kind(name@) is None,
        },
{
    if string_is(name, "private") {
        Some(0)
    } else if string_is(name, "protected") {
        Some(1)
    } else if string_is(name, "public") {
        Some(2)
    } else {
        None
    }
}

/// The names whose visibility a `private_class_method` or
/// `protected_class_method` call of `stmts` sets.
fn overridden_names(stmts: &Vec<BodyStmt>) -> (r: Vec<Vec<u8>>)
    ensures
        forall|name: Seq<u8>|
            #![trigger is_overridden(stmts@, name)]
            #![trigger has_name(r@, name)]
            is_overridden(stmts@, name) <==> has_name(r@, name),
{
    let mut r: Vec<Vec<u8>> = Vec::new();
    let mut i: usize = 0;
    while i < stmts.len()
        invariant
            i <= stmts@.len(),
            forall|name: Seq<u8>|
                #![trigger overridden_before(stmts@, i as int, name)]
                #![trigger has_name(r@, name)]
                overridden_before(stmts@, i as int, name) <==> has_name(r@, name),
        decreases stmts@.len() - i,
    {
        let ghost r0 = r@;
        match &stmts[i] {
            BodyStmt::Call { has_receiver, name, symbol_args, .. } => {
                if !*has_receiver && (string_is(name, "private_class_method") || string_is(
                    name,
                    "protected_class_method",
                )) {
                    let mut j: usize = 0;
                    while j < symbol_args.len()
                        invariant
                            j <= symbol_args@.len(),
                            r@.len() == r0.len() + j,
                            forall|q: int| 0 <= q < r0.len() ==> r@[q] == r0[q],
                            forall|q: int| 0 <= q < j ==> r@[r0.len() + q]@ == symbol_args@[q]@,
                        decreases symbol_args@.len() - j,
                    {
                        let mut copy: Vec<u8> = Vec::new();
                        copy.extend_from_slice(symbol_args[j].as_slice());
                        r.push(copy);
                        j = j + 1;
                    }
                }
            },
            _ => {},
        }
        assert forall|nm: Seq<u8>|
            #![trigger overridden_before(stmts@, i + 1, nm)]
            #![trigger has_name(r@, nm)]
            overridden_before(stmts@, i + 1, nm) <==> has_name(r@, nm) by {
            let st = stmts@[i as int];
            if has_name(r@, nm) {
                let q = choose|q: int| 0 <= q < r@.len() && #[trigger] r@[q]@ == nm;
                if q >= r0.len() {
                    assert(symbol_args_of(st)[q - r0.len()]@ == nm);
                    assert(overrides(st, nm));
                } else {
                    assert(r0[q]@ == nm);
                }
            }
            if overrides(st, nm) {
                let j2 = choose|j2: int|
                    0 <= j2 < symbol_args_of(st).len() && #[trigger] symbol_args_of(st)[j2]@ == nm;
                assert(r@[r0.len() + j2]@ == nm);
            }
            if overridden_before(stmts@, i as int, nm) {
                assert(has_name(r0, nm));
                let q0 = choose|q: int| 0 <= q < r0.len() && #[trigger] r0[q]@ == nm;
                assert(r@[q0] == r0[q0]);
            }
            if overridden_before(stmts@, i + 1, nm) && !overrides(st, nm) {
                let a = choose|a: int| 0 <= a < i + 1 && overrides(#[trigger] stmts@[a], nm);
                assert(a != i);
                assert(overridden_before(stmts@, i as int, nm));
            }
            if has_name(r@, nm) && !overrides(st, nm) {
                let q = choose|q: int| 0 <= q < r@.len() && #[trigger] r@[q]@ == nm;
                assert(q < r0.len());
                assert(has_name(r0, nm));
            }
        }
        i = i + 1;
    }
    r
}


proof fn lemma_push_contains(s: Seq<usize>, v: usize)
    ensures
        forall|x: usize| #[trigger] s.push(v).contains(x) <==> (s.contains(x) || x == v),
{
    assert forall|x: usize| #[trigger] s.push(v).contains(x) <==> (s.contains(x) || x == v) by {
        if s.contains(x) {
            let q = choose|q: int| 0 <= q < s.len() && s[q] == x;
            assert(s.push(v)[q] == x);
        }
        if x == v {
            assert(s.push(v)[s.len() as int] == x);
        }
        if s.push(v).contains(x) {
            let q = choose|q: int| 0 <= q < s.push(v).len() && s.push(v)[q] == x;
            if q < s.len() {
                assert(s[q] == x);
            }
        }
    }
}

fn has_name_exec(names: &Vec<Vec<u8>>, name: &Vec<u8>) -> (r: bool)
    ensures
        r == has_name(names@, name@),
{
    let mut q: usize = 0;
    while q < names.len()
        invariant
            q <= names@.len(),
            forall|j: int| 0 <= j < q ==> names@[j]@ != name@,
        decreases names@.len() - q,
    {
        let cand = names[q].as_slice();
        if range_eq(cand, 0, cand.len(), name.as_slice()) {
            assert(cand@.subrange(0, cand@.len() as int) =~= cand@);
            return true;
        }
        assert(cand@.subrange(0, cand@.len() as int) =~= cand@);
        q = q + 1;
    }
    false
}

fn contains_line(lines: &Vec<usize>, l: usize) -> (r: bool)
    ensures
        r == lines@.contains(l),
{
    let mut q: usize = 0;
    while q < lines.len()
        invariant
            q <= lines@.len(),
            forall|j: int| 0 <= j < q ==> lines@[j] != l,
        decreases lines@.len() - q,
    {
        if lines[q] == l {
            assert(lines@[q as int] == l);
            return true;
        }
        q = q + 1;
    }
    false
}

fn ineffective_message_exec(kind: usize, line: usize) -> (r: String)
    ensures
        r@ == ineffective_message(kind as int, line as int),
{
    if kind == 0 {
        let mut m = "`private` (on line ".to_owned();
        push_decimal(&mut m, line);
        m.append(") does not make singleton methods private. Use `private_class_method` or `private` inside a `class << self` block instead.");
        m
    } else {
        let mut m = "`protected` (on line ".to_owned();
        push_decimal(&mut m, line);
        m.append(") does not make singleton methods protected. Use `protected` inside a `class << self` block instead.");
        m
    }
}

impl IneffectiveAccessModifier {
    pub fn name(&self) -> (r: &'static str)
        ensures
            r@ == "Lint/IneffectiveAccessModifier"@,
    {
        "Lint/IneffectiveAccessModifier"
    }

    pub fn default_severity(&self) -> (r: Severity)
        ensures
            r == Severity::Warning,
    {
        Severity::Warning
    }

    pub fn supports_autocorrect(&self) -> (r: bool)
        ensures
            r == true,
    {
        true
    }

    /// Checks the statements of one class or module body: a report at each
    /// singleton method defined under `private` or `protected`, and, with
    /// `autocorrect`, each such modifier rewritten to `public` once.
    pub fn check_class_body(
        &self,
        source: &SourceFile,
        stmts: &Vec<BodyStmt>,
        diagnostics: &mut Vec<Diagnostic>,
        corrections: &mut Vec<Correction>,
        autocorrect: bool,
    )
        requires
            stmts_in_bounds(source@, stmts@),
        ensures
            extends_with_flagged_reports(
                old(diagnostics)@,
                final(diagnostics)@,
                source.spec_path(),
                "Lint/IneffectiveAccessModifier"@,
                Severity::Warning,
                body_offenses(source@, stmts@, stmts@.len() as int),
                autocorrect,
            ),
            autocorrect ==> extends_with_edits(
                old(corrections)@,
                final(corrections)@,
                "Lint/IneffectiveAccessModifier"@,
                body_edits(source@, stmts@, stmts@.len() as int),
            ),
            !autocorrect ==> final(corrections)@ == old(corrections)@,
    {
        let cop = "Lint/IneffectiveAccessModifier";
        let ghost s = source@;
        let ghost path = source.spec_path();
        let names = overridden_names(stmts);
        let mut cur: Option<(usize, usize, usize, usize)> = None;
        let mut corrected: Vec<usize> = Vec::new();
        proof {
            lemma_edits_empty(corrections@, cop@);
            assert(diagnostics@.subrange(0, diagnostics@.len() as int) =~= diagnostics@);
        }
        let mut k: usize = 0;
        while k < stmts.len()
            invariant
                k <= stmts@.len(),
                s == source@,
                path == source.spec_path(),
                cop@ == "Lint/IneffectiveAccessModifier"@,
                stmts_in_bounds(s, stmts@),
                forall|name: Seq<u8>|
                    #![trigger is_overridden(stmts@, name)]
                    #![trigger has_name(names@, name)]
                    is_overridden(stmts@, name) <==> has_name(names@, name),
                match cur {
                    Some(c) => modifier_after(s, stmts@, k as int) == Some(
                        (c.0 as int, c.1 as int, c.2 as int, c.3 as int),
                    ) && c.0 < 3,
                    None => modifier_after(s, stmts@, k as int) is None,
                },
                forall|l: int|
                    #[trigger] corrected_lines(s, stmts@, k as int).contains(l) <==> (0 <= l
                        <= usize::MAX && corrected@.contains(l as usize)),
                extends_with_flagged_reports(
                    old(diagnostics)@,
                    diagnostics@,
                    path,
                    cop@,
                    Severity::Warning,
                    body_offenses(s, stmts@, k as int),
                    autocorrect,
                ),
                autocorrect ==> extends_with_edits(
                    old(corrections)@,
                    corrections@,
                    cop@,
                    body_edits(s, stmts@, k as int),
                ),
                !autocorrect ==> corrections@ == old(corrections)@,
            decreases stmts@.len() - k,
        {
            let ghost kk = k as int;
            let ghost c_before = corrected@;
            match &stmts[k] {
                BodyStmt::Call { has_receiver, has_arguments, name, start, end, .. } => {
                    if !*has_receiver && !*has_arguments {
                        match modifier_kind_exec(name) {
                            Some(kd) => {
                                let (l, _) = source.offset_to_line_col(*start);
                                cur = Some((kd, l, *start, *end));
                            },
                            None => {},
                        }
                    }
                    assert(stmt_offense(s, stmts@, kk) is None);
                },
                BodyStmt::Def { singleton, method, keyword_start } => {
                    let overridden = has_name_exec(&names, method);
                    if *singleton && !overridden {
                        match cur {
                            Some((kind, line, st, en)) => {
                                if kind != 2 {
                                    let (dl, dc) = source.offset_to_line_col(*keyword_start);
                                    let msg = ineffective_message_exec(kind, line);
                                    let first = !contains_line(&corrected, line);
                                    let ghost o = (dl as int, dc as int, msg@, first);
                                    let mut d = new_diagnostic(source, cop, Severity::Warning, dl, dc, msg);
                                    if first {
                                        corrected.push(line);
                                        proof {
                                            lemma_push_contains(c_before, line);
                                        }
                                        if autocorrect {
                                            let ghost c0 = corrections@;
                                            corrections.push(
                                                Correction {
                                                    start: st,
                                                    end: en,
                                                    replacement: "public".to_owned(),
                                                    cop_name: cop.to_owned(),
                                                    cop_index: 0,
                                                },
                                            );
                                            proof {
                                                assert(corrections@.drop_last() =~= c0);
                                                lemma_edits_push(
                                                    old(corrections)@,
                                                    c0,
                                                    corrections@,
                                                    cop@,
                                                    body_edits(s, stmts@, kk),
                                                    (st as int, en as int, "public"@),
                                                );
                                            }
                                            d.corrected = true;
                                        }
                                    }
                                    assert(forall|x: usize|
                                        #[trigger] corrected@.contains(x) <==> (c_before.contains(x)
                                            || x == line));
                                    assert(stmt_offense(s, stmts@, kk).unwrap().5 == line);
                                    let ghost d0 = diagnostics@;
                                    diagnostics.push(d);
                                    proof {
                                        assert(diagnostics@.drop_last() =~= d0);
                                        lemma_flagged_reports_push(
                                            old(diagnostics)@,
                                            d0,
                                            diagnostics@,
                                            path,
                                            cop@,
                                            Severity::Warning,
                                            body_offenses(s, stmts@, kk),
                                            o,
                                            autocorrect,
                                        );
                                    }
                                } else {
                                    assert(stmt_offense(s, stmts@, kk) is None);
                                }
                            },
                            None => {
                                assert(stmt_offense(s, stmts@, kk) is None);
                            },
                        }
                    } else {
                        assert(stmt_offense(s, stmts@, kk) is None);
                    }
                },
                BodyStmt::Other => {
                    assert(stmt_offense(s, stmts@, kk) is None);
                },
            }
            proof {
                assert forall|l: int|
                    #[trigger] corrected_lines(s, stmts@, kk + 1).contains(l) <==> (0 <= l
                        <= usize::MAX && corrected@.contains(l as usize)) by {
                    match stmt_offense(s, stmts@, kk) {
                        Some(o) => {
                            assert(corrected_lines(s, stmts@, kk + 1) == corrected_lines(
                                s,
                                stmts@,
                                kk,
                            ).insert(o.5));
                            assert(corrected_lines(s, stmts@, kk).contains(l) <==> (0 <= l
                                <= usize::MAX && c_before.contains(l as usize)));
                        },
                        None => {
                            assert(corrected_lines(s, stmts@, kk + 1) == corrected_lines(
                                s,
                                stmts@,
                                kk,
                            ));
                        },
                    }
                }
            }
            k = k + 1;
        }
    }
}

} // verus!
