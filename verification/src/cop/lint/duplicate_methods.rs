use crate::cop::report::{extends_with_reports, lemma_reports_concat, lemma_reports_empty};
use crate::cop::util::{decimal, is_valid_utf8, push_decimal, string_is, text_of};
use crate::diagnostic::{new_diagnostic, reports, Diagnostic, Severity};
use crate::parse::source::{col_of, line_of, SourceFile};
use vstd::prelude::*;
use vstd::utf8::valid_utf8;

verus! {

/// Checks for duplicated instance (or singleton) method definitions.
pub struct DuplicateMethods;

impl DuplicateMethods {
    pub fn name(&self) -> (r: &'static str)
        ensures
            r@ == "Lint/DuplicateMethods"@,
    {
        "Lint/DuplicateMethods"
    }

    pub fn default_severity(&self) -> (r: Severity)
        ensures
            r == Severity::Warning,
    {
        Severity::Warning
    }
}

/// One scope that methods are defined in: a class or module name, and
/// whether definitions there are singleton ones (`class << self`).
#[derive(Clone, Debug)]
pub struct ScopeEntry {
    pub name: String,
    pub is_singleton: bool,
}

/// What the walk over a file knows when it meets a definition.
pub struct MethodTracker {
    /// Each definition recorded, as its key and the line it starts on; a later
    /// entry for a key replaces an earlier one.
    pub definitions: Vec<(String, usize)>,
    /// The scopes around, outermost first.
    pub scopes: Vec<ScopeEntry>,
    /// The names of the methods around, outermost first.
    pub defs: Vec<String>,
    /// How many `if`, `unless` and `case` are around.
    pub if_depth: usize,
    /// How many blocks that open no scope are around.
    pub plain_block_depth: usize,
    /// For each `rescue` or `ensure` around, the keys already redefined in it.
    pub rescues: Vec<Vec<String>>,
}

/// What recording definitions changes: the log of definitions and the keys of
/// the innermost `rescue` or `ensure`.
pub struct DefState {
    pub log: Seq<(Seq<char>, usize)>,
    pub rescues: Seq<Seq<Seq<char>>>,
}

pub open spec fn string_views(v: Seq<String>) -> Seq<Seq<char>> {
    v.map_values(|x: String| x@)
}

impl MethodTracker {
    pub open spec fn def_state(&self) -> DefState {
        DefState {
            log: self.definitions@.map_values(|e: (String, usize)| (e.0@, e.1)),
            rescues: self.rescues@.map_values(|v: Vec<String>| string_views(v@)),
        }
    }

    /// Definitions are recorded here: outside conditionals and plain blocks.
    pub open spec fn records(&self) -> bool {
        self.if_depth == 0 && self.plain_block_depth == 0
    }

    /// The innermost scope is a singleton one.
    pub open spec fn in_singleton(&self) -> bool {
        self.scopes@.len() > 0 && self.scopes@.last().is_singleton
    }
}

/// The names of the scopes joined by `::`.
pub open spec fn joined_names(scopes: Seq<ScopeEntry>) -> Seq<char>
    decreases scopes.len(),
{
    if scopes.len() == 0 {
        Seq::empty()
    } else if scopes.len() == 1 {
        scopes[0].name@
    } else {
        joined_names(scopes.drop_last()) + "::"@ + scopes.last().name@
    }
}

/// The name of the current scope: `Object` at the top level.
pub open spec fn scope_name(scopes: Seq<ScopeEntry>) -> Seq<char> {
    if scopes.len() == 0 {
        "Object"@
    } else {
        joined_names(scopes)
    }
}

/// `Scope#name` for an instance method, `Scope.name` for a singleton one.
pub open spec fn qualified_name(scopes: Seq<ScopeEntry>, name: Seq<char>, singleton: bool) -> Seq<char> {
    scope_name(scopes) + (if singleton {
        "."@
    } else {
        "#"@
    }) + name
}

/// The key of a definition: the qualified name, prefixed by the enclosing
/// method's name for a method defined inside another.
pub open spec fn method_key(defs: Seq<String>, q: Seq<char>) -> Seq<char> {
    if defs.len() > 0 {
        defs.last()@ + "."@ + q
    } else {
        q
    }
}

/// The line recorded for `key`, by its latest entry.
pub open spec fn recorded_line(log: Seq<(Seq<char>, usize)>, key: Seq<char>) -> Option<usize>
    decreases log.len(),
{
    if log.len() == 0 {
        None
    } else if log.last().0 == key {
        Some(log.last().1)
    } else {
        recorded_line(log.drop_last(), key)
    }
}

/// Recording a definition of `name` that starts on `def_line`, reported (if
/// a duplicate) at `off`: inside a `rescue` or `ensure`, the first
/// redefinition of a key there replaces the earlier one; else a key already
/// recorded is a duplicate, and a new key is recorded.
pub open spec fn found(
    ds: DefState,
    scopes: Seq<ScopeEntry>,
    defs: Seq<String>,
    s: Seq<u8>,
    path: Seq<char>,
    name: Seq<char>,
    singleton: bool,
    def_line: usize,
    off: int,
) -> (DefState, Seq<(int, int, Seq<char>)>) {
    let q = qualified_name(scopes, name, singleton);
    let key = method_key(defs, q);
    match recorded_line(ds.log, key) {
        Some(first) => if ds.rescues.len() > 0 && !ds.rescues.last().contains(key) {
            (
                DefState {
                    log: ds.log.push((key, def_line)),
                    rescues: ds.rescues.update(ds.rescues.len() - 1, ds.rescues.last().push(key)),
                },
                Seq::empty(),
            )
        } else {
            (
                ds,
                seq![
                    (
                        line_of(s, off) as int,
                        col_of(s, off) as int,
                        "Method `"@ + q + "` is defined at both "@ + path + ":"@ + decimal(first as nat)
                            + " and "@ + path + ":"@ + decimal(line_of(s, off)) + "."@,
                    ),
                ],
            )
        },
        None => (DefState { log: ds.log.push((key, def_line)), rescues: ds.rescues }, Seq::empty()),
    }
}

/// Recording the definitions of `names` in order.
pub open spec fn found_all(
    ds: DefState,
    scopes: Seq<ScopeEntry>,
    defs: Seq<String>,
    s: Seq<u8>,
    path: Seq<char>,
    names: Seq<Seq<char>>,
    singleton: bool,
    def_line: usize,
    off: int,
) -> (DefState, Seq<(int, int, Seq<char>)>)
    decreases names.len(),
{
    if names.len() == 0 {
        (ds, Seq::empty())
    } else {
        let (d1, o1) = found_all(ds, scopes, defs, s, path, names.drop_last(), singleton, def_line, off);
        let (d2, o2) = found(d1, scopes, defs, s, path, names.last(), singleton, def_line, off);
        (d2, o1 + o2)
    }
}

/// The receiver of a `def`.
pub enum DefReceiver {
    /// `def name`.
    Bare,
    /// `def self.name`.
    SelfNode,
    /// `def Const.name`.
    Const(String),
    Other,
}

/// An argument of `alias_method`, `attr_*` or `def_delegator*`.
pub enum DupArg {
    /// A symbol or string, with its unescaped bytes.
    Name(Vec<u8>),
    /// `true`.
    True,
    Other,
}

/// The text of unescaped bytes, or nothing when they are not UTF-8.
pub open spec fn name_text(b: Seq<u8>) -> Seq<char> {
    if valid_utf8(b) {
        vstd::utf8::decode_utf8(b)
    } else {
        Seq::empty()
    }
}

pub open spec fn arg_name(a: DupArg) -> Option<Seq<char>> {
    match a {
        DupArg::Name(b) => Some(name_text(b@)),
        _ => None,
    }
}

/// The names each argument defines with `attr_reader` (`reader`),
/// `attr_writer` (`writer`, with `=`) or `attr_accessor` (both), in order.
pub open spec fn attr_names(args: Seq<DupArg>, reader: bool, writer: bool) -> Seq<Seq<char>>
    decreases args.len(),
{
    if args.len() == 0 {
        Seq::empty()
    } else {
        let r = attr_names(args.drop_last(), reader, writer);
        match arg_name(args.last()) {
            Some(n) => r + (if reader {
                seq![n]
            } else {
                Seq::empty()
            }) + (if writer {
                seq![n + "="@]
            } else {
                Seq::empty()
            }),
            None => r,
        }
    }
}

/// The names among the arguments from `from` on, in order.
pub open spec fn names_from(args: Seq<DupArg>, from: int) -> Seq<Seq<char>>
    decreases args.len() - from,
{
    if from >= args.len() || from < 0 {
        Seq::empty()
    } else {
        (match arg_name(args[from]) {
            Some(n) => seq![n],
            None => Seq::empty(),
        }) + names_from(args, from + 1)
    }
}

/// The methods that a call defines: `alias_method new, old` (unless the same),
/// the `attr_*` family, `def_delegator(s)` and `def_instance_delegator(s)`.
pub open spec fn call_names(method: Seq<char>, args: Seq<DupArg>) -> Seq<Seq<char>> {
    if method == "alias_method"@ {
        if args.len() >= 2 && arg_name(args[0]) is Some && arg_name(args[1]) is Some && arg_name(args[0])
            != arg_name(args[1]) {
            seq![arg_name(args[0])->0]
        } else {
            Seq::empty()
        }
    } else if method == "attr_reader"@ {
        attr_names(args, true, false)
    } else if method == "attr_writer"@ {
        attr_names(args, false, true)
    } else if method == "attr_accessor"@ {
        attr_names(args, true, true)
    } else if method == "attr"@ {
        if args.len() > 0 && arg_name(args[0]) is Some {
            let n = arg_name(args[0])->0;
            if args.len() == 2 && args[1] is True {
                seq![n, n + "="@]
            } else {
                seq![n]
            }
        } else {
            Seq::empty()
        }
    } else if method == "def_delegator"@ || method == "def_instance_delegator"@ {
        if args.len() >= 3 {
            match arg_name(args[2]) {
                Some(n) => seq![n],
                None => Seq::empty(),
            }
        } else if args.len() == 2 {
            match arg_name(args[1]) {
                Some(n) => seq![n],
                None => Seq::empty(),
            }
        } else {
            Seq::empty()
        }
    } else if method == "def_delegators"@ || method == "def_instance_delegators"@ {
        if args.len() >= 2 {
            names_from(args, 1)
        } else {
            Seq::empty()
        }
    } else {
        Seq::empty()
    }
}

/// The names a `def` records, and whether as singleton methods: `def
/// self.x` and `def Const.x` (in the scope named `Const`) as singleton ones,
/// `def x` as the scope's kind.
pub open spec fn def_names(t: MethodTracker, name: Seq<char>, receiver: DefReceiver) -> (Seq<Seq<char>>, bool) {
    match receiver {
        DefReceiver::Bare => (seq![name], t.in_singleton()),
        DefReceiver::SelfNode => (seq![name], true),
        DefReceiver::Const(c) => if t.scopes@.len() > 0 && t.scopes@.last().name@ == c@ {
            (seq![name], true)
        } else {
            (Seq::empty(), true)
        },
        DefReceiver::Other => (Seq::empty(), true),
    }
}

/// The names an `alias new old` records: `new`, unless it is `old`.
pub open spec fn alias_names(new_name: Option<Vec<u8>>, old_name: Option<Vec<u8>>) -> Seq<Seq<char>> {
    match new_name {
        Some(n) => match old_name {
            Some(o) => if o@ == n@ {
                Seq::empty()
            } else {
                seq![name_text(n@)]
            },
            None => seq![name_text(n@)],
        },
        None => Seq::empty(),
    }
}

/// What a scope-opening call opens.
pub enum ScopeKind {
    /// A named scope (`Const.class_eval do`).
    Named(String),
    /// `class_eval do` without a receiver: the current scope again.
    ImplicitClassEval,
    /// `Class.new do` or `Module.new do`: an anonymous scope of its own.
    DynamicClassNew,
}

/// The receiver of a call that may open a scope.
pub enum ScopeReceiver {
    /// No receiver.
    Implicit,
    /// A constant, with its name: the names of a constant path joined by `::`.
    Const(String),
    /// A bare constant read, with its name (`Class`, `Module`, ...).
    ConstRead(String),
    Other,
}

/// Which calls open a scope: `class_eval`/`module_eval` with a block (on a
/// constant, or without receiver), and `Class.new`/`Module.new` with a block.
pub open spec fn scope_kind(method: Seq<char>, receiver: ScopeReceiver, has_block: bool) -> Option<ScopeKind> {
    if (method == "class_eval"@ || method == "module_eval"@) && has_block {
        match receiver {
            ScopeReceiver::Const(n) => Some(ScopeKind::Named(n)),
            ScopeReceiver::ConstRead(n) => Some(ScopeKind::Named(n)),
            ScopeReceiver::Implicit => Some(ScopeKind::ImplicitClassEval),
            ScopeReceiver::Other => None,
        }
    } else if method == "new"@ && has_block {
        match receiver {
            ScopeReceiver::ConstRead(n) => if n@ == "Class"@ || n@ == "Module"@ {
                Some(ScopeKind::DynamicClassNew)
            } else {
                None
            },
            _ => None,
        }
    } else {
        None
    }
}


fn joined_names_exec(scopes: &Vec<ScopeEntry>) -> (r: String)
    ensures
        r@ == joined_names(scopes@),
{
    let mut out = String::new();
    let mut k: usize = 0;
    assert(out@ =~= Seq::<char>::empty());
    assert(scopes@.subrange(0, 0) =~= Seq::<ScopeEntry>::empty());
    while k < scopes.len()
        invariant
            k <= scopes@.len(),
            out@ == joined_names(scopes@.subrange(0, k as int)),
        decreases scopes@.len() - k,
    {
        let ghost sub = scopes@.subrange(0, k + 1);
        assert(sub.drop_last() =~= scopes@.subrange(0, k as int));
        if k > 0 {
            out.append("::");
        } else {
            assert(out@ =~= Seq::<char>::empty());
        }
        out.append(scopes[k].name.as_str());
        if k == 0 {
            assert(out@ =~= sub[0].name@);
        }
        k = k + 1;
    }
    assert(scopes@.subrange(0, scopes@.len() as int) =~= scopes@);
    out
}

fn scope_name_exec(scopes: &Vec<ScopeEntry>) -> (r: String)
    ensures
        r@ == scope_name(scopes@),
{
    if scopes.len() == 0 {
        "Object".to_owned()
    } else {
        joined_names_exec(scopes)
    }
}

fn recorded_line_exec(log: &Vec<(String, usize)>, key: &String) -> (r: Option<usize>)
    ensures
        r == recorded_line(log@.map_values(|e: (String, usize)| (e.0@, e.1)), key@),
{
    let ghost lv = log@.map_values(|e: (String, usize)| (e.0@, e.1));
    let mut k: usize = log.len();
    assert(lv.subrange(0, k as int) =~= lv);
    while k > 0
        invariant
            k <= log@.len(),
            lv == log@.map_values(|e: (String, usize)| (e.0@, e.1)),
            recorded_line(lv, key@) == recorded_line(lv.subrange(0, k as int), key@),
        decreases k,
    {
        let ghost sub = lv.subrange(0, k as int);
        assert(sub.drop_last() =~= lv.subrange(0, k - 1));
        assert(sub.last() == (log@[k - 1].0@, log@[k - 1].1));
        if log[k - 1].0.eq(key) {
            return Some(log[k - 1].1);
        }
        k = k - 1;
    }
    None
}

fn contains_string(v: &Vec<String>, key: &String) -> (r: bool)
    ensures
        r == string_views(v@).contains(key@),
{
    let mut k: usize = 0;
    while k < v.len()
        invariant
            k <= v@.len(),
            forall|j: int| 0 <= j < k ==> v@[j]@ != key@,
        decreases v@.len() - k,
    {
        if v[k].eq(key) {
            assert(string_views(v@)[k as int] == key@);
            return true;
        }
        k = k + 1;
    }
    assert forall|j: int| 0 <= j < string_views(v@).len() implies string_views(v@)[j] != key@ by {
        assert(string_views(v@)[j] == v@[j]@);
    }
    false
}

fn utf8_name(b: &Vec<u8>) -> (r: String)
    ensures
        r@ == name_text(b@),
{
    if is_valid_utf8(b.as_slice()) {
        text_of(b.as_slice())
    } else {
        let e = String::new();
        assert(e@ =~= Seq::<char>::empty());
        e
    }
}

fn arg_name_exec(a: &DupArg) -> (r: Option<String>)
    ensures
        match arg_name(*a) {
            Some(n) => r matches Some(x) && x@ == n,
            None => r is None,
        },
{
    match a {
        DupArg::Name(b) => Some(utf8_name(b)),
        _ => None,
    }
}

fn with_setter(n: &String) -> (r: String)
    ensures
        r@ == n@ + "="@,
{
    let mut t = n.clone();
    t.append("=");
    t
}

fn call_names_exec(method: &String, args: &Vec<DupArg>) -> (r: Vec<String>)
    ensures
        string_views(r@) == call_names(method@, args@),
{
    let mut out: Vec<String> = Vec::new();
    assert(string_views(out@) =~= Seq::<Seq<char>>::empty());
    proof {
        reveal_strlit("alias_method");
        reveal_strlit("attr_reader");
        reveal_strlit("attr_writer");
        reveal_strlit("attr_accessor");
        reveal_strlit("attr");
        reveal_strlit("def_delegator");
        reveal_strlit("def_instance_delegator");
        reveal_strlit("def_delegators");
        reveal_strlit("def_instance_delegators");
    }
    if string_is(method, "alias_method") {
        if args.len() >= 2 {
            let a = arg_name_exec(&args[0]);
            let b = arg_name_exec(&args[1]);
            match (a, b) {
                (Some(x), Some(y)) => {
                    if !x.eq(&y) {
                        out.push(x);
                        assert(string_views(out@) =~= call_names(method@, args@));
                    }
                },
                _ => {},
            }
        }
        return out;
    }
    let reader = string_is(method, "attr_reader") || string_is(method, "attr_accessor");
    let writer = string_is(method, "attr_writer") || string_is(method, "attr_accessor");
    if reader || writer {
        let mut k: usize = 0;
        while k < args.len()
            invariant
                k <= args@.len(),
                reader == (method@ == "attr_reader"@ || method@ == "attr_accessor"@),
                writer == (method@ == "attr_writer"@ || method@ == "attr_accessor"@),
                method@ != "alias_method"@,
                string_views(out@) == attr_names(args@.subrange(0, k as int), reader, writer),
            decreases args@.len() - k,
        {
            let ghost sub = args@.subrange(0, k + 1);
            assert(sub.drop_last() =~= args@.subrange(0, k as int));
            let ghost before = string_views(out@);
            match arg_name_exec(&args[k]) {
                Some(n) => {
                    let w = with_setter(&n);
                    if reader {
                        out.push(n);
                    }
                    if writer {
                        out.push(w);
                    }
                    assert(string_views(out@) =~= before + (if reader {
                        seq![args@[k as int]].map_values(|a: DupArg| arg_name(a)->0)
                    } else {
                        Seq::empty()
                    }) + (if writer {
                        seq![arg_name(args@[k as int])->0 + "="@]
                    } else {
                        Seq::empty()
                    }));
                },
                None => {},
            }
            k = k + 1;
        }
        assert(args@.subrange(0, args@.len() as int) =~= args@);
        assert(string_views(out@) == attr_names(args@, reader, writer));
        proof {
            assert(method@ != "alias_method"@);
            reveal_strlit("attr_reader");
            reveal_strlit("attr_writer");
            reveal_strlit("attr_accessor");
            assert("attr_reader"@.len() == 11);
            assert("attr_accessor"@.len() == 13);
            assert("attr_writer"@[5] == 'w');
            assert("attr_reader"@[5] == 'r');
            if method@ == "attr_reader"@ {
                assert(reader && !writer);
            } else if method@ == "attr_writer"@ {
                assert(!reader && writer);
            } else {
                assert(method@ == "attr_accessor"@);
            }
        }
        return out;
    }
    if string_is(method, "attr") {
        if args.len() > 0 {
            match arg_name_exec(&args[0]) {
                Some(n) => {
                    let w = with_setter(&n);
                    out.push(n);
                    if args.len() == 2 && matches!(args[1], DupArg::True) {
                        out.push(w);
                    }
                    assert(string_views(out@) =~= call_names(method@, args@));
                },
                None => {},
            }
        }
        return out;
    }
    if string_is(method, "def_delegator") || string_is(method, "def_instance_delegator") {
        let pick: usize = if args.len() >= 3 {
            2
        } else if args.len() == 2 {
            1
        } else {
            return out;
        };
        match arg_name_exec(&args[pick]) {
            Some(n) => {
                out.push(n);
                assert(string_views(out@) =~= call_names(method@, args@));
            },
            None => {},
        }
        return out;
    }
    if string_is(method, "def_delegators") || string_is(method, "def_instance_delegators") {
        if args.len() >= 2 {
            let mut k: usize = args.len();
            let mut rev: Vec<String> = Vec::new();
            assert(string_views(rev@) =~= Seq::<Seq<char>>::empty());
            while k > 1
                invariant
                    1 <= k <= args@.len(),
                    string_views(rev@).len() == rev@.len(),
                    names_from(args@, k as int) == string_views(rev@).reverse(),
                decreases k,
            {
                k = k - 1;
                match arg_name_exec(&args[k]) {
                    Some(n) => {
                        let ghost before = string_views(rev@);
                        rev.push(n);
                        assert(string_views(rev@).reverse() =~= seq![arg_name(args@[k as int])->0] + before.reverse());
                    },
                    None => {},
                }
            }
            let ghost target = names_from(args@, 1);
            assert(string_views(out@) + string_views(rev@).reverse() =~= target);
            while rev.len() > 0
                invariant
                    string_views(out@) + string_views(rev@).reverse() == target,
                decreases rev@.len(),
            {
                let ghost before_out = string_views(out@);
                let ghost before_rev = string_views(rev@);
                let x = rev.pop().unwrap();
                assert(before_rev.reverse() =~= seq![x@] + string_views(rev@).reverse());
                out.push(x);
                assert(string_views(out@) =~= before_out.push(x@));
                assert(string_views(out@) + string_views(rev@).reverse() =~= before_out + before_rev.reverse());
            }
            assert(string_views(rev@).reverse() =~= Seq::<Seq<char>>::empty());
            assert(string_views(out@) =~= target);
        }
        return out;
    }
    out
}


impl MethodTracker {
    /// Nothing recorded, at the top level.
    pub fn new() -> (r: MethodTracker)
        ensures
            r.definitions@.len() == 0,
            r.scopes@.len() == 0,
            r.defs@.len() == 0,
            r.if_depth == 0,
            r.plain_block_depth == 0,
            r.rescues@.len() == 0,
    {
        MethodTracker {
            definitions: Vec::new(),
            scopes: Vec::new(),
            defs: Vec::new(),
            if_depth: 0,
            plain_block_depth: 0,
            rescues: Vec::new(),
        }
    }

    /// The name of the current scope.
    pub fn current_scope_name(&self) -> (r: String)
        ensures
            r@ == scope_name(self.scopes@),
    {
        scope_name_exec(&self.scopes)
    }

    /// Records one definition.
    fn found_one(
        &mut self,
        source: &SourceFile,
        name: &String,
        singleton: bool,
        def_line: usize,
        off: usize,
        diagnostics: &mut Vec<Diagnostic>,
    )
        requires
            off <= source@.len(),
        ensures
            final(self).def_state() == found(
                old(self).def_state(),
                old(self).scopes@,
                old(self).defs@,
                source@,
                source.spec_path(),
                name@,
                singleton,
                def_line,
                off as int,
            ).0,
            final(self).scopes == old(self).scopes,
            final(self).defs == old(self).defs,
            final(self).if_depth == old(self).if_depth,
            final(self).plain_block_depth == old(self).plain_block_depth,
            extends_with_reports(
                old(diagnostics)@,
                final(diagnostics)@,
                source.spec_path(),
                "Lint/DuplicateMethods"@,
                Severity::Warning,
                found(
                    old(self).def_state(),
                    old(self).scopes@,
                    old(self).defs@,
                    source@,
                    source.spec_path(),
                    name@,
                    singleton,
                    def_line,
                    off as int,
                ).1,
                false,
            ),
    {
        proof {
            lemma_reports_empty(diagnostics@, source.spec_path(), "Lint/DuplicateMethods"@, Severity::Warning, false);
        }
        let mut q = scope_name_exec(&self.scopes);
        if singleton {
            q.append(".");
        } else {
            q.append("#");
        }
        q.append(name.as_str());
        let key = if self.defs.len() > 0 {
            let mut k = self.defs[self.defs.len() - 1].clone();
            k.append(".");
            k.append(q.as_str());
            k
        } else {
            q.clone()
        };
        let ghost ds = old(self).def_state();
        assert(key@ == method_key(self.defs@, q@));
        match recorded_line_exec(&self.definitions, &key) {
            Some(first) => {
                let n = self.rescues.len();
                if n > 0 && !contains_string(&self.rescues[n - 1], &key) {
                    self.definitions.push((key.clone(), def_line));
                    let mut top = self.rescues.pop().unwrap();
                    let ghost top_before = string_views(top@);
                    top.push(key);
                    self.rescues.push(top);
                    proof {
                        let nd = found(ds, old(self).scopes@, old(self).defs@, source@, source.spec_path(), name@, singleton, def_line, off as int).0;
                        assert(self.def_state().log =~= nd.log);
                        assert(string_views(top@) =~= top_before.push(key@));
                        assert(self.def_state().rescues =~= nd.rescues);
                    }
                } else {
                    let path = source.path_str();
                    let (line, col) = source.offset_to_line_col(off);
                    let mut msg = "Method `".to_owned();
                    msg.append(q.as_str());
                    msg.append("` is defined at both ");
                    msg.append(path);
                    msg.append(":");
                    push_decimal(&mut msg, first);
                    msg.append(" and ");
                    msg.append(path);
                    msg.append(":");
                    push_decimal(&mut msg, line);
                    msg.append(".");
                    let d = new_diagnostic(source, "Lint/DuplicateMethods", Severity::Warning, line, col, msg);
                    let ghost m = d.message@;
                    diagnostics.push(d);
                    proof {
                        assert(diagnostics@.subrange(0, old(diagnostics)@.len() as int) =~= old(diagnostics)@);
                        let offs = found(ds, old(self).scopes@, old(self).defs@, source@, source.spec_path(), name@, singleton, def_line, off as int).1;
                        assert(offs[0] == (line as int, col as int, m));
                        assert(diagnostics@[old(diagnostics)@.len() as int] == diagnostics@.last());
                    }
                }
            },
            None => {
                self.definitions.push((key, def_line));
                proof {
                    let nd = found(ds, old(self).scopes@, old(self).defs@, source@, source.spec_path(), name@, singleton, def_line, off as int).0;
                    assert(self.def_state().log =~= nd.log);
                    assert(self.def_state().rescues =~= nd.rescues);
                }
            },
        }
    }

    /// Records definitions of `names`, in order.
    fn found_names(
        &mut self,
        source: &SourceFile,
        names: &Vec<String>,
        singleton: bool,
        def_line: usize,
        off: usize,
        diagnostics: &mut Vec<Diagnostic>,
    )
        requires
            off <= source@.len(),
        ensures
            final(self).def_state() == found_all(
                old(self).def_state(),
                old(self).scopes@,
                old(self).defs@,
                source@,
                source.spec_path(),
                string_views(names@),
                singleton,
                def_line,
                off as int,
            ).0,
            final(self).scopes == old(self).scopes,
            final(self).defs == old(self).defs,
            final(self).if_depth == old(self).if_depth,
            final(self).plain_block_depth == old(self).plain_block_depth,
            extends_with_reports(
                old(diagnostics)@,
                final(diagnostics)@,
                source.spec_path(),
                "Lint/DuplicateMethods"@,
                Severity::Warning,
                found_all(
                    old(self).def_state(),
                    old(self).scopes@,
                    old(self).defs@,
                    source@,
                    source.spec_path(),
                    string_views(names@),
                    singleton,
                    def_line,
                    off as int,
                ).1,
                false,
            ),
    {
        proof {
            lemma_reports_empty(diagnostics@, source.spec_path(), "Lint/DuplicateMethods"@, Severity::Warning, false);
            assert(string_views(names@.subrange(0, 0)) =~= Seq::<Seq<char>>::empty());
        }
        let mut k: usize = 0;
        while k < names.len()
            invariant
                k <= names@.len(),
                off <= source@.len(),
                self.scopes == old(self).scopes,
                self.defs == old(self).defs,
                self.if_depth == old(self).if_depth,
                self.plain_block_depth == old(self).plain_block_depth,
                self.def_state() == found_all(
                    old(self).def_state(),
                    old(self).scopes@,
                    old(self).defs@,
                    source@,
                    source.spec_path(),
                    string_views(names@.subrange(0, k as int)),
                    singleton,
                    def_line,
                    off as int,
                ).0,
                extends_with_reports(
                    old(diagnostics)@,
                    diagnostics@,
                    source.spec_path(),
                    "Lint/DuplicateMethods"@,
                    Severity::Warning,
                    found_all(
                        old(self).def_state(),
                        old(self).scopes@,
                        old(self).defs@,
                        source@,
                        source.spec_path(),
                        string_views(names@.subrange(0, k as int)),
                        singleton,
                        def_line,
                        off as int,
                    ).1,
                    false,
                ),
            decreases names@.len() - k,
        {
            let ghost mid = diagnostics@;
            let ghost prev = found_all(
                old(self).def_state(),
                old(self).scopes@,
                old(self).defs@,
                source@,
                source.spec_path(),
                string_views(names@.subrange(0, k as int)),
                singleton,
                def_line,
                off as int,
            );
            self.found_one(source, &names[k], singleton, def_line, off, diagnostics);
            proof {
                let sub = string_views(names@.subrange(0, k + 1));
                assert(sub.drop_last() =~= string_views(names@.subrange(0, k as int)));
                assert(sub.last() == names@[k as int]@);
                let step = found(prev.0, old(self).scopes@, old(self).defs@, source@, source.spec_path(), names@[k as int]@, singleton, def_line, off as int);
                lemma_reports_concat(
                    old(diagnostics)@,
                    mid,
                    diagnostics@,
                    source.spec_path(),
                    "Lint/DuplicateMethods"@,
                    Severity::Warning,
                    prev.1,
                    step.1,
                    false,
                );
            }
            k = k + 1;
        }
        assert(names@.subrange(0, names@.len() as int) =~= names@);
    }
}


/// What checking one definition does: where definitions are recorded, the
/// names are recorded in order (and duplicates reported); elsewhere nothing
/// changes. The scopes and the enclosing methods stay as they were.
pub open spec fn records_names(
    old_t: MethodTracker,
    new_t: MethodTracker,
    old_d: Seq<Diagnostic>,
    new_d: Seq<Diagnostic>,
    s: Seq<u8>,
    path: Seq<char>,
    names: Seq<Seq<char>>,
    singleton: bool,
    start: int,
    off: int,
) -> bool {
    &&& new_t.scopes == old_t.scopes
    &&& new_t.defs == old_t.defs
    &&& new_t.if_depth == old_t.if_depth
    &&& new_t.plain_block_depth == old_t.plain_block_depth
    &&& if old_t.records() {
        let r = found_all(
            old_t.def_state(),
            old_t.scopes@,
            old_t.defs@,
            s,
            path,
            names,
            singleton,
            line_of(s, start) as usize,
            off,
        );
        &&& new_t.def_state() == r.0
        &&& extends_with_reports(old_d, new_d, path, "Lint/DuplicateMethods"@, Severity::Warning, r.1, false)
    } else {
        &&& new_t.def_state() == old_t.def_state()
        &&& new_d == old_d
    }
}

impl MethodTracker {
    /// Checks a `def` that starts at `start`, its keyword at `keyword`.
    pub fn check_def(
        &mut self,
        source: &SourceFile,
        name: &String,
        receiver: &DefReceiver,
        start: usize,
        keyword: usize,
        diagnostics: &mut Vec<Diagnostic>,
    )
        requires
            start <= source@.len(),
            keyword <= source@.len(),
        ensures
            records_names(
                *old(self),
                *final(self),
                old(diagnostics)@,
                final(diagnostics)@,
                source@,
                source.spec_path(),
                def_names(*old(self), name@, *receiver).0,
                def_names(*old(self), name@, *receiver).1,
                start as int,
                keyword as int,
            ),
    {
        if self.if_depth > 0 || self.plain_block_depth > 0 {
            return;
        }
        let (line, _) = source.offset_to_line_col(start);
        let singleton = match receiver {
            DefReceiver::Bare => self.scopes.len() > 0 && self.scopes[self.scopes.len() - 1].is_singleton,
            _ => true,
        };
        let mut names: Vec<String> = Vec::new();
        match receiver {
            DefReceiver::Bare | DefReceiver::SelfNode => {
                names.push(name.clone());
            },
            DefReceiver::Const(c) => {
                if self.scopes.len() > 0 && self.scopes[self.scopes.len() - 1].name.eq(c) {
                    names.push(name.clone());
                }
            },
            DefReceiver::Other => {},
        }
        assert(string_views(names@) =~= def_names(*old(self), name@, *receiver).0);
        self.found_names(source, &names, singleton, line, keyword, diagnostics);
    }

    /// Checks an `alias new old` that starts at `start`.
    pub fn check_alias(
        &mut self,
        source: &SourceFile,
        new_name: &Option<Vec<u8>>,
        old_name: &Option<Vec<u8>>,
        start: usize,
        diagnostics: &mut Vec<Diagnostic>,
    )
        requires
            start <= source@.len(),
        ensures
            records_names(
                *old(self),
                *final(self),
                old(diagnostics)@,
                final(diagnostics)@,
                source@,
                source.spec_path(),
                alias_names(*new_name, *old_name),
                old(self).in_singleton(),
                start as int,
                start as int,
            ),
    {
        if self.if_depth > 0 || self.plain_block_depth > 0 {
            return;
        }
        let (line, _) = source.offset_to_line_col(start);
        let singleton = self.scopes.len() > 0 && self.scopes[self.scopes.len() - 1].is_singleton;
        let mut names: Vec<String> = Vec::new();
        match new_name {
            Some(n) => {
                let same = match old_name {
                    Some(o) => crate::cop::lint::duplicates::bytes_eq(o.as_slice(), n.as_slice()),
                    None => false,
                };
                if !same {
                    names.push(utf8_name(n));
                }
            },
            None => {},
        }
        assert(string_views(names@) =~= alias_names(*new_name, *old_name));
        self.found_names(source, &names, singleton, line, start, diagnostics);
    }

    /// Checks a call that starts at `start` and may define methods
    /// (`alias_method`, `attr_*`, `def_delegator*`).
    pub fn check_call(
        &mut self,
        source: &SourceFile,
        method: &String,
        args: &Vec<DupArg>,
        start: usize,
        diagnostics: &mut Vec<Diagnostic>,
    )
        requires
            start <= source@.len(),
        ensures
            records_names(
                *old(self),
                *final(self),
                old(diagnostics)@,
                final(diagnostics)@,
                source@,
                source.spec_path(),
                call_names(method@, args@),
                old(self).in_singleton(),
                start as int,
                start as int,
            ),
    {
        if self.if_depth > 0 || self.plain_block_depth > 0 {
            return;
        }
        let (line, _) = source.offset_to_line_col(start);
        let singleton = self.scopes.len() > 0 && self.scopes[self.scopes.len() - 1].is_singleton;
        let names = call_names_exec(method, args);
        self.found_names(source, &names, singleton, line, start, diagnostics);
    }

    /// Which scope a call opens, if it opens one.
    pub fn scope_kind(method: &String, receiver: &ScopeReceiver, has_block: bool) -> (r: Option<ScopeKind>)
        ensures
            match scope_kind(method@, *receiver, has_block) {
                Some(ScopeKind::Named(n)) => r matches Some(ScopeKind::Named(m)) && m@ == n@,
                Some(ScopeKind::ImplicitClassEval) => r matches Some(ScopeKind::ImplicitClassEval),
                Some(ScopeKind::DynamicClassNew) => r matches Some(ScopeKind::DynamicClassNew),
                None => r is None,
            },
    {
        if (string_is(method, "class_eval") || string_is(method, "module_eval")) && has_block {
            match receiver {
                ScopeReceiver::Const(n) => Some(ScopeKind::Named(n.clone())),
                ScopeReceiver::ConstRead(n) => Some(ScopeKind::Named(n.clone())),
                ScopeReceiver::Implicit => Some(ScopeKind::ImplicitClassEval),
                ScopeReceiver::Other => None,
            }
        } else if string_is(method, "new") && has_block {
            match receiver {
                ScopeReceiver::ConstRead(n) => if string_is(n, "Class") || string_is(n, "Module") {
                    Some(ScopeKind::DynamicClassNew)
                } else {
                    None
                },
                _ => None,
            }
        } else {
            None
        }
    }

    /// Enters a class, module or other named scope.
    pub fn enter_scope(&mut self, name: String)
        ensures
            final(self).scopes@ == old(self).scopes@.push(ScopeEntry { name, is_singleton: false }),
            final(self).definitions == old(self).definitions,
            final(self).defs == old(self).defs,
            final(self).if_depth == old(self).if_depth,
            final(self).plain_block_depth == old(self).plain_block_depth,
            final(self).rescues == old(self).rescues,
    {
        self.scopes.push(ScopeEntry { name, is_singleton: false });
    }

    /// Leaves the innermost scope.
    pub fn leave_scope(&mut self)
        requires
            old(self).scopes@.len() > 0,
        ensures
            final(self).scopes@ == old(self).scopes@.drop_last(),
            final(self).definitions == old(self).definitions,
            final(self).defs == old(self).defs,
            final(self).if_depth == old(self).if_depth,
            final(self).plain_block_depth == old(self).plain_block_depth,
            final(self).rescues == old(self).rescues,
    {
        self.scopes.pop();
    }

    /// Enters `class << self`: the innermost scope becomes a singleton one
    /// (at the top level, a singleton `Object` scope is opened). Gives what
    /// leaving needs.
    pub fn enter_singleton_self(&mut self) -> (token: Option<bool>)
        ensures
            match token {
                Some(was) => old(self).scopes@.len() > 0 && was == old(self).scopes@.last().is_singleton
                    && final(self).scopes@ == old(self).scopes@.update(
                    old(self).scopes@.len() - 1,
                    ScopeEntry { name: old(self).scopes@.last().name, is_singleton: true },
                ),
                None => old(self).scopes@.len() == 0 && final(self).scopes@ == seq![
                    ScopeEntry { name: final(self).scopes@[0].name, is_singleton: true },
                ] && final(self).scopes@[0].name@ == "Object"@,
            },
            final(self).definitions == old(self).definitions,
            final(self).defs == old(self).defs,
            final(self).if_depth == old(self).if_depth,
            final(self).plain_block_depth == old(self).plain_block_depth,
            final(self).rescues == old(self).rescues,
    {
        let n = self.scopes.len();
        if n > 0 {
            let last = self.scopes.pop().unwrap();
            let was = last.is_singleton;
            self.scopes.push(ScopeEntry { name: last.name, is_singleton: true });
            assert(self.scopes@ =~= old(self).scopes@.update(n - 1, ScopeEntry { name: old(self).scopes@.last().name, is_singleton: true }));
            Some(was)
        } else {
            self.scopes.push(ScopeEntry { name: "Object".to_owned(), is_singleton: true });
            None
        }
    }

    /// Leaves `class << self`, given what entering gave.
    pub fn leave_singleton_self(&mut self, token: Option<bool>)
        requires
            old(self).scopes@.len() > 0,
        ensures
            match token {
                Some(was) => final(self).scopes@ == old(self).scopes@.update(
                    old(self).scopes@.len() - 1,
                    ScopeEntry { name: old(self).scopes@.last().name, is_singleton: was },
                ),
                None => final(self).scopes@ == old(self).scopes@.drop_last(),
            },
            final(self).definitions == old(self).definitions,
            final(self).defs == old(self).defs,
            final(self).if_depth == old(self).if_depth,
            final(self).plain_block_depth == old(self).plain_block_depth,
            final(self).rescues == old(self).rescues,
    {
        let last = self.scopes.pop().unwrap();
        match token {
            Some(was) => {
                self.scopes.push(ScopeEntry { name: last.name, is_singleton: was });
                assert(self.scopes@ =~= old(self).scopes@.update(
                    old(self).scopes@.len() - 1,
                    ScopeEntry { name: old(self).scopes@.last().name, is_singleton: was },
                ));
            },
            None => {},
        }
    }

    /// Replaces the scopes by one singleton scope named `name` (`class <<
    /// Const`), giving back the scopes it replaced.
    pub fn enter_foreign_singleton(&mut self, name: String) -> (saved: Vec<ScopeEntry>)
        ensures
            saved@ == old(self).scopes@,
            final(self).scopes@ == seq![ScopeEntry { name, is_singleton: true }],
            final(self).definitions == old(self).definitions,
            final(self).defs == old(self).defs,
            final(self).if_depth == old(self).if_depth,
            final(self).plain_block_depth == old(self).plain_block_depth,
            final(self).rescues == old(self).rescues,
    {
        let mut fresh: Vec<ScopeEntry> = Vec::new();
        fresh.push(ScopeEntry { name, is_singleton: true });
        std::mem::swap(&mut self.scopes, &mut fresh);
        assert(self.scopes@ =~= seq![ScopeEntry { name, is_singleton: true }]);
        fresh
    }

    /// Puts back scopes that were replaced.
    pub fn restore_scopes(&mut self, saved: Vec<ScopeEntry>)
        ensures
            final(self).scopes == saved,
            final(self).definitions == old(self).definitions,
            final(self).defs == old(self).defs,
            final(self).if_depth == old(self).if_depth,
            final(self).plain_block_depth == old(self).plain_block_depth,
            final(self).rescues == old(self).rescues,
    {
        self.scopes = saved;
    }

    /// Enters an anonymous class (`Class.new do`): nothing recorded so far
    /// counts there, and its one scope is anonymous. Gives back the records
    /// and scopes it put aside.
    pub fn enter_anonymous(&mut self) -> (saved: (Vec<(String, usize)>, Vec<ScopeEntry>))
        ensures
            saved.0 == old(self).definitions,
            saved.1 == old(self).scopes,
            final(self).definitions@.len() == 0,
            final(self).scopes@.len() == 1,
            final(self).scopes@[0].name@ == "__anonymous__"@,
            !final(self).scopes@[0].is_singleton,
            final(self).defs == old(self).defs,
            final(self).if_depth == old(self).if_depth,
            final(self).plain_block_depth == old(self).plain_block_depth,
            final(self).rescues == old(self).rescues,
    {
        let mut defs: Vec<(String, usize)> = Vec::new();
        std::mem::swap(&mut self.definitions, &mut defs);
        let mut scopes: Vec<ScopeEntry> = Vec::new();
        scopes.push(ScopeEntry { name: "__anonymous__".to_owned(), is_singleton: false });
        std::mem::swap(&mut self.scopes, &mut scopes);
        (defs, scopes)
    }

    /// Leaves an anonymous class: its records are dropped and what was put
    /// aside comes back.
    pub fn leave_anonymous(&mut self, saved: (Vec<(String, usize)>, Vec<ScopeEntry>))
        ensures
            final(self).definitions == saved.0,
            final(self).scopes == saved.1,
            final(self).defs == old(self).defs,
            final(self).if_depth == old(self).if_depth,
            final(self).plain_block_depth == old(self).plain_block_depth,
            final(self).rescues == old(self).rescues,
    {
        let (d, sc) = saved;
        self.definitions = d;
        self.scopes = sc;
    }

    /// Enters the body of a method named `name`.
    pub fn enter_def(&mut self, name: String)
        ensures
            final(self).defs@ == old(self).defs@.push(name),
            final(self).definitions == old(self).definitions,
            final(self).scopes == old(self).scopes,
            final(self).if_depth == old(self).if_depth,
            final(self).plain_block_depth == old(self).plain_block_depth,
            final(self).rescues == old(self).rescues,
    {
        self.defs.push(name);
    }

    pub fn leave_def(&mut self)
        requires
            old(self).defs@.len() > 0,
        ensures
            final(self).defs@ == old(self).defs@.drop_last(),
            final(self).definitions == old(self).definitions,
            final(self).scopes == old(self).scopes,
            final(self).if_depth == old(self).if_depth,
            final(self).plain_block_depth == old(self).plain_block_depth,
            final(self).rescues == old(self).rescues,
    {
        self.defs.pop();
    }

    /// Enters an `if`, `unless` or `case`.
    pub fn enter_conditional(&mut self)
        requires
            old(self).if_depth < usize::MAX,
        ensures
            final(self).if_depth == old(self).if_depth + 1,
            final(self).definitions == old(self).definitions,
            final(self).scopes == old(self).scopes,
            final(self).defs == old(self).defs,
            final(self).plain_block_depth == old(self).plain_block_depth,
            final(self).rescues == old(self).rescues,
    {
        self.if_depth = self.if_depth + 1;
    }

    pub fn leave_conditional(&mut self)
        requires
            old(self).if_depth > 0,
        ensures
            final(self).if_depth == old(self).if_depth - 1,
            final(self).definitions == old(self).definitions,
            final(self).scopes == old(self).scopes,
            final(self).defs == old(self).defs,
            final(self).plain_block_depth == old(self).plain_block_depth,
            final(self).rescues == old(self).rescues,
    {
        self.if_depth = self.if_depth - 1;
    }

    /// Enters a block that opens no scope.
    pub fn enter_plain_block(&mut self)
        requires
            old(self).plain_block_depth < usize::MAX,
        ensures
            final(self).plain_block_depth == old(self).plain_block_depth + 1,
            final(self).definitions == old(self).definitions,
            final(self).scopes == old(self).scopes,
            final(self).defs == old(self).defs,
            final(self).if_depth == old(self).if_depth,
            final(self).rescues == old(self).rescues,
    {
        self.plain_block_depth = self.plain_block_depth + 1;
    }

    pub fn leave_plain_block(&mut self)
        requires
            old(self).plain_block_depth > 0,
        ensures
            final(self).plain_block_depth == old(self).plain_block_depth - 1,
            final(self).definitions == old(self).definitions,
            final(self).scopes == old(self).scopes,
            final(self).defs == old(self).defs,
            final(self).if_depth == old(self).if_depth,
            final(self).rescues == old(self).rescues,
    {
        self.plain_block_depth = self.plain_block_depth - 1;
    }

    /// Enters a `rescue` or `ensure`.
    pub fn enter_rescue(&mut self)
        ensures
            final(self).rescues@.len() == old(self).rescues@.len() + 1,
            final(self).rescues@.drop_last() == old(self).rescues@,
            final(self).rescues@.last()@.len() == 0,
            final(self).definitions == old(self).definitions,
            final(self).scopes == old(self).scopes,
            final(self).defs == old(self).defs,
            final(self).if_depth == old(self).if_depth,
            final(self).plain_block_depth == old(self).plain_block_depth,
    {
        self.rescues.push(Vec::new());
        assert(self.rescues@.drop_last() =~= old(self).rescues@);
    }

    pub fn leave_rescue(&mut self)
        requires
            old(self).rescues@.len() > 0,
        ensures
            final(self).rescues@ == old(self).rescues@.drop_last(),
            final(self).definitions == old(self).definitions,
            final(self).scopes == old(self).scopes,
            final(self).defs == old(self).defs,
            final(self).if_depth == old(self).if_depth,
            final(self).plain_block_depth == old(self).plain_block_depth,
    {
        self.rescues.pop();
    }
}

} // verus!
