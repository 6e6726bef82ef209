use crate::cop::report::{adds_offenses, emit_offense, lemma_offenses_empty, lemma_offenses_push};
use crate::cop::util::string_is;
use crate::correction::Correction;
use crate::diagnostic::{Diagnostic, Severity};
use crate::parse::source::{col_of, line_of, SourceFile};
use vstd::prelude::*;

verus! {

/// Checks for the use of `return` with a value in a context where the value
/// will be ignored (`initialize` and setter methods like `foo=`).
pub struct ReturnInVoidContext;

/// What a node is, as far as the cop reads it.
pub enum VoidKind {
    /// A method definition; its children are its body.
    Def { name: String, has_receiver: bool },
    /// A class, module or lambda: a `return` inside does not leave the
    /// enclosing method.
    Scope,
    /// A method call, and whether it has a block.
    Call { name: String, has_block: bool },
    /// A `return`, and where its arguments end when it has any.
    Return { args_end: Option<usize> },
    Other,
}

/// One node of the tree; its children come after it in the list.
pub struct VoidNode {
    pub start: usize,
    pub kind: VoidKind,
    pub children: Vec<usize>,
}

/// Calls whose block is a scope of its own for `return`.
pub open spec fn is_scope_changing(name: Seq<char>) -> bool {
    name == "lambda"@ || name == "define_method"@ || name == "define_singleton_method"@
}

/// A method whose return value is ignored: `initialize`, `[]=`, or a setter
/// ending in `=` that is not a comparison or match operator.
pub open spec fn is_void_method(name: Seq<char>) -> bool {
    if name == "initialize"@ || name == "[]="@ {
        true
    } else {
        name.len() > 0 && name.last() == '=' && !(name == "=="@ || name == "==="@ || name == "!="@
            || name == "<="@ || name == ">="@ || name == "<=>"@ || name == "=~"@)
    }
}

/// The `return`s with a value in node `i` that leave the enclosing method:
/// (start, end of arguments), in source order.
pub open spec fn value_returns(nodes: Seq<VoidNode>, i: int) -> Seq<(usize, usize)>
    decreases nodes.len() - i, 1int, 0int,
{
    if i < 0 || i >= nodes.len() {
        Seq::empty()
    } else {
        match nodes[i].kind {
            VoidKind::Def { .. } | VoidKind::Scope => Seq::empty(),
            VoidKind::Call { name, has_block } => if has_block && is_scope_changing(name@) {
                Seq::empty()
            } else {
                child_returns(nodes, i, nodes[i].children@, 0)
            },
            VoidKind::Return { args_end: Some(e) } => seq![(nodes[i].start, e)] + child_returns(
                nodes,
                i,
                nodes[i].children@,
                0,
            ),
            _ => child_returns(nodes, i, nodes[i].children@, 0),
        }
    }
}

/// The `return`s with a value in the children `kids[k..]` of node `i`.
pub open spec fn child_returns(nodes: Seq<VoidNode>, i: int, kids: Seq<usize>, k: int) -> Seq<(usize, usize)>
    decreases nodes.len() - i, 0int, kids.len() - k,
{
    if k < 0 || k >= kids.len() {
        Seq::empty()
    } else {
        (if i < kids[k] < nodes.len() {
            value_returns(nodes, kids[k] as int)
        } else {
            Seq::empty()
        }) + child_returns(nodes, i, kids, k + 1)
    }
}

/// Each return tagged with the definition `d` it leaves.
pub open spec fn tag_returns(rets: Seq<(usize, usize)>, d: usize) -> Seq<(usize, usize, usize)> {
    Seq::new(rets.len(), |j: int| (d, rets[j].0, rets[j].1))
}

/// The returns with a value of the void methods in node `i`, each with its
/// method: a void method is not searched for further definitions, a class
/// method `initialize` is not void.
pub open spec fn void_returns(nodes: Seq<VoidNode>, i: int) -> Seq<(usize, usize, usize)>
    decreases nodes.len() - i, 1int, 0int,
{
    if i < 0 || i >= nodes.len() {
        Seq::empty()
    } else {
        match nodes[i].kind {
            VoidKind::Def { name, has_receiver } => if (has_receiver && name@ == "initialize"@)
                || !is_void_method(name@) {
                child_void_returns(nodes, i, nodes[i].children@, 0)
            } else {
                tag_returns(child_returns(nodes, i, nodes[i].children@, 0), i as usize)
            },
            _ => child_void_returns(nodes, i, nodes[i].children@, 0),
        }
    }
}

pub open spec fn child_void_returns(nodes: Seq<VoidNode>, i: int, kids: Seq<usize>, k: int) -> Seq<
    (usize, usize, usize),
>
    decreases nodes.len() - i, 0int, kids.len() - k,
{
    if k < 0 || k >= kids.len() {
        Seq::empty()
    } else {
        (if i < kids[k] < nodes.len() {
            void_returns(nodes, kids[k] as int)
        } else {
            Seq::empty()
        }) + child_void_returns(nodes, i, kids, k + 1)
    }
}

/// The name of definition `d`.
pub open spec fn def_name(nodes: Seq<VoidNode>, d: int) -> Seq<char> {
    match nodes[d].kind {
        VoidKind::Def { name, .. } => name@,
        _ => Seq::empty(),
    }
}

/// Where the keyword `return` that starts at `a` ends.
pub open spec fn keyword_end(a: usize) -> int {
    if a + 6 <= usize::MAX {
        a + 6
    } else {
        usize::MAX as int
    }
}

/// The offense of one return: the value and what precedes it after the
/// keyword go away.
pub open spec fn return_offense(s: Seq<u8>, nodes: Seq<VoidNode>, r: (usize, usize, usize)) -> (
    int,
    int,
    Seq<char>,
    Option<(int, int, Seq<char>)>,
) {
    (
        line_of(s, r.1 as int) as int,
        col_of(s, r.1 as int) as int,
        "Do not return a value in `"@ + def_name(nodes, r.0 as int) + "`."@,
        Some((keyword_end(r.1), r.2 as int, Seq::empty())),
    )
}

pub open spec fn return_offenses(s: Seq<u8>, nodes: Seq<VoidNode>, rs: Seq<(usize, usize, usize)>) -> Seq<
    (int, int, Seq<char>, Option<(int, int, Seq<char>)>),
> {
    Seq::new(rs.len(), |j: int| return_offense(s, nodes, rs[j]))
}

/// The offenses of the tree rooted at the first node.
pub open spec fn void_offenses(s: Seq<u8>, nodes: Seq<VoidNode>) -> Seq<
    (int, int, Seq<char>, Option<(int, int, Seq<char>)>),
> {
    return_offenses(s, nodes, void_returns(nodes, 0))
}

fn is_scope_changing_exec(name: &String) -> (r: bool)
    ensures
        r == is_scope_changing(name@),
{
    string_is(name, "lambda") || string_is(name, "define_method") || string_is(name, "define_singleton_method")
}

/// Whether a method's return value is ignored.
pub fn is_void_method_exec(name: &String) -> (r: bool)
    ensures
        r == is_void_method(name@),
{
    if string_is(name, "initialize") || string_is(name, "[]=") {
        return true;
    }
    let n = name.as_str().unicode_len();
    n > 0 && name.as_str().get_char(n - 1) == '=' && !(string_is(name, "==") || string_is(name, "===")
        || string_is(name, "!=") || string_is(name, "<=") || string_is(name, ">=") || string_is(name, "<=>")
        || string_is(name, "=~"))
}

fn collect_returns(nodes: &Vec<VoidNode>, i: usize, out: &mut Vec<(usize, usize)>)
    requires
        i < nodes@.len(),
    ensures
        final(out)@ == old(out)@ + value_returns(nodes@, i as int),
    decreases nodes@.len() - i, 1int, 0int,
{
    let n = &nodes[i];
    match &n.kind {
        VoidKind::Def { .. } | VoidKind::Scope => {
            assert(old(out)@ + Seq::<(usize, usize)>::empty() =~= old(out)@);
        },
        VoidKind::Call { name, has_block } => {
            if *has_block && is_scope_changing_exec(name) {
                assert(old(out)@ + Seq::<(usize, usize)>::empty() =~= old(out)@);
            } else {
                collect_child_returns(nodes, i, &n.children, 0, out);
            }
        },
        VoidKind::Return { args_end: Some(e) } => {
            out.push((n.start, *e));
            collect_child_returns(nodes, i, &n.children, 0, out);
            assert(old(out)@.push((n.start, *e)) + child_returns(nodes@, i as int, n.children@, 0)
                =~= old(out)@ + (seq![(n.start, *e)] + child_returns(nodes@, i as int, n.children@, 0)));
        },
        _ => {
            collect_child_returns(nodes, i, &n.children, 0, out);
        },
    }
}

fn collect_child_returns(nodes: &Vec<VoidNode>, i: usize, kids: &Vec<usize>, k: usize, out: &mut Vec<(usize, usize)>)
    requires
        i < nodes@.len(),
    ensures
        final(out)@ == old(out)@ + child_returns(nodes@, i as int, kids@, k as int),
    decreases nodes@.len() - i, 0int, kids@.len() - k,
{
    if k >= kids.len() {
        assert(old(out)@ + Seq::<(usize, usize)>::empty() =~= old(out)@);
        return;
    }
    let c = kids[k];
    let ghost before = out@;
    if i < c && c < nodes.len() {
        collect_returns(nodes, c, out);
    } else {
        assert(before + Seq::<(usize, usize)>::empty() =~= before);
    }
    let ghost mid = out@;
    collect_child_returns(nodes, i, kids, k + 1, out);
    let ghost here = if i < c && c < nodes.len() {
        value_returns(nodes@, c as int)
    } else {
        Seq::empty()
    };
    assert(mid == before + here);
    assert(before + here + child_returns(nodes@, i as int, kids@, k + 1) =~= before + (here + child_returns(
        nodes@,
        i as int,
        kids@,
        k + 1,
    )));
}

fn collect_void(nodes: &Vec<VoidNode>, i: usize, out: &mut Vec<(usize, usize, usize)>)
    requires
        i < nodes@.len(),
    ensures
        final(out)@ == old(out)@ + void_returns(nodes@, i as int),
    decreases nodes@.len() - i, 1int, 0int,
{
    let n = &nodes[i];
    match &n.kind {
        VoidKind::Def { name, has_receiver } => {
            if (*has_receiver && string_is(name, "initialize")) || !is_void_method_exec(name) {
                collect_child_void(nodes, i, &n.children, 0, out);
            } else {
                let mut rets: Vec<(usize, usize)> = Vec::new();
                collect_child_returns(nodes, i, &n.children, 0, &mut rets);
                assert(rets@ =~= child_returns(nodes@, i as int, n.children@, 0));
                let mut j: usize = 0;
                while j < rets.len()
                    invariant
                        j <= rets@.len(),
                        out@ == old(out)@ + tag_returns(rets@.subrange(0, j as int), i),
                    decreases rets@.len() - j,
                {
                    let ghost before = out@;
                    out.push((i, rets[j].0, rets[j].1));
                    assert(tag_returns(rets@.subrange(0, j + 1), i) =~= tag_returns(
                        rets@.subrange(0, j as int),
                        i,
                    ).push((i, rets@[j as int].0, rets@[j as int].1)));
                    j = j + 1;
                }
                assert(rets@.subrange(0, rets@.len() as int) =~= rets@);
            }
        },
        _ => {
            collect_child_void(nodes, i, &n.children, 0, out);
        },
    }
}

fn collect_child_void(
    nodes: &Vec<VoidNode>,
    i: usize,
    kids: &Vec<usize>,
    k: usize,
    out: &mut Vec<(usize, usize, usize)>,
)
    requires
        i < nodes@.len(),
    ensures
        final(out)@ == old(out)@ + child_void_returns(nodes@, i as int, kids@, k as int),
    decreases nodes@.len() - i, 0int, kids@.len() - k,
{
    if k >= kids.len() {
        assert(old(out)@ + Seq::<(usize, usize, usize)>::empty() =~= old(out)@);
        return;
    }
    let c = kids[k];
    let ghost before = out@;
    if i < c && c < nodes.len() {
        collect_void(nodes, c, out);
    } else {
        assert(before + Seq::<(usize, usize, usize)>::empty() =~= before);
    }
    let ghost mid = out@;
    collect_child_void(nodes, i, kids, k + 1, out);
    let ghost here = if i < c && c < nodes.len() {
        void_returns(nodes@, c as int)
    } else {
        Seq::empty()
    };
    assert(mid == before + here);
    assert(before + here + child_void_returns(nodes@, i as int, kids@, k + 1) =~= before + (here
        + child_void_returns(nodes@, i as int, kids@, k + 1)));
}

/// The returns with a value that the void methods of the tree rooted at the
/// first node contain, each as (definition, start, end of arguments).
pub fn void_method_returns(nodes: &Vec<VoidNode>) -> (r: Vec<(usize, usize, usize)>)
    ensures
        r@ == void_returns(nodes@, 0),
{
    let mut out: Vec<(usize, usize, usize)> = Vec::new();
    if nodes.len() > 0 {
        collect_void(nodes, 0, &mut out);
        assert(out@ =~= void_returns(nodes@, 0));
    }
    out
}

pub proof fn lemma_void_returns_bounds(nodes: Seq<VoidNode>, i: int)
    requires
        nodes.len() <= usize::MAX,
    ensures
        forall|j: int|
            0 <= j < void_returns(nodes, i).len() ==> {
                let r = #[trigger] void_returns(nodes, i)[j];
                0 <= r.0 < nodes.len() && nodes[r.0 as int].kind is Def && exists|q: int|
                    0 <= q < nodes.len() && nodes[q].start == r.1 && nodes[q].kind is Return
            },
    decreases nodes.len() - i, 1int, 0int,
{
    if 0 <= i < nodes.len() {
        match nodes[i].kind {
            VoidKind::Def { name, has_receiver } => {
                if (has_receiver && name@ == "initialize"@) || !is_void_method(name@) {
                    lemma_child_void_bounds(nodes, i, nodes[i].children@, 0);
                } else {
                    lemma_child_returns_are_returns(nodes, i, nodes[i].children@, 0);
                    let rets = child_returns(nodes, i, nodes[i].children@, 0);
                    assert forall|j: int| 0 <= j < void_returns(nodes, i).len() implies {
                        let r = #[trigger] void_returns(nodes, i)[j];
                        0 <= r.0 < nodes.len() && nodes[r.0 as int].kind is Def && exists|q: int|
                            0 <= q < nodes.len() && nodes[q].start == r.1 && nodes[q].kind is Return
                    } by {
                        assert(void_returns(nodes, i)[j] == (i as usize, rets[j].0, rets[j].1));
                        assert((i as usize) as int == i);
                        assert(rets[j].0 == (child_returns(nodes, i, nodes[i].children@, 0)[j]).0);
                    }
                }
            },
            _ => {
                lemma_child_void_bounds(nodes, i, nodes[i].children@, 0);
            },
        }
    }
}

pub proof fn lemma_child_void_bounds(nodes: Seq<VoidNode>, i: int, kids: Seq<usize>, k: int)
    requires
        nodes.len() <= usize::MAX,
    ensures
        forall|j: int|
            0 <= j < child_void_returns(nodes, i, kids, k).len() ==> {
                let r = #[trigger] child_void_returns(nodes, i, kids, k)[j];
                0 <= r.0 < nodes.len() && nodes[r.0 as int].kind is Def && exists|q: int|
                    0 <= q < nodes.len() && nodes[q].start == r.1 && nodes[q].kind is Return
            },
    decreases nodes.len() - i, 0int, kids.len() - k,
{
    if 0 <= k < kids.len() {
        if i < kids[k] < nodes.len() {
            lemma_void_returns_bounds(nodes, kids[k] as int);
        }
        lemma_child_void_bounds(nodes, i, kids, k + 1);
        let here = if i < kids[k] < nodes.len() {
            void_returns(nodes, kids[k] as int)
        } else {
            Seq::empty()
        };
        let rest = child_void_returns(nodes, i, kids, k + 1);
        assert forall|j: int| 0 <= j < child_void_returns(nodes, i, kids, k).len() implies {
            let r = #[trigger] child_void_returns(nodes, i, kids, k)[j];
            0 <= r.0 < nodes.len() && nodes[r.0 as int].kind is Def && exists|q: int|
                0 <= q < nodes.len() && nodes[q].start == r.1 && nodes[q].kind is Return
        } by {
            if j < here.len() {
                assert(child_void_returns(nodes, i, kids, k)[j] == here[j]);
            } else {
                assert(child_void_returns(nodes, i, kids, k)[j] == rest[j - here.len()]);
            }
        }
    }
}

pub proof fn lemma_value_returns_are_returns(nodes: Seq<VoidNode>, i: int)
    ensures
        forall|j: int|
            0 <= j < value_returns(nodes, i).len() ==> exists|q: int|
                0 <= q < nodes.len() && nodes[q].start == (#[trigger] value_returns(nodes, i)[j]).0
                    && nodes[q].kind is Return,
    decreases nodes.len() - i, 1int, 0int,
{
    if 0 <= i < nodes.len() {
        lemma_child_returns_are_returns(nodes, i, nodes[i].children@, 0);
        let v = value_returns(nodes, i);
        let c = child_returns(nodes, i, nodes[i].children@, 0);
        assert forall|j: int| 0 <= j < v.len() implies exists|q: int|
            0 <= q < nodes.len() && nodes[q].start == (#[trigger] value_returns(nodes, i)[j]).0
                && nodes[q].kind is Return by {
            match nodes[i].kind {
                VoidKind::Return { args_end: Some(e) } => {
                    if j == 0 {
                        assert(v[0] == (nodes[i].start, e));
                        assert(nodes[i].kind is Return);
                    } else {
                        assert(v[j] == c[j - 1]);
                    }
                },
                VoidKind::Def { .. } | VoidKind::Scope => {},
                VoidKind::Call { name, has_block } => {
                    assert(v[j] == c[j]);
                },
                _ => {
                    assert(v[j] == c[j]);
                },
            }
        }
    }
}

pub proof fn lemma_child_returns_are_returns(nodes: Seq<VoidNode>, i: int, kids: Seq<usize>, k: int)
    ensures
        forall|j: int|
            0 <= j < child_returns(nodes, i, kids, k).len() ==> exists|q: int|
                0 <= q < nodes.len() && nodes[q].start == (#[trigger] child_returns(nodes, i, kids, k)[j]).0
                    && nodes[q].kind is Return,
    decreases nodes.len() - i, 0int, kids.len() - k,
{
    if 0 <= k < kids.len() {
        if i < kids[k] < nodes.len() {
            lemma_value_returns_are_returns(nodes, kids[k] as int);
        }
        lemma_child_returns_are_returns(nodes, i, kids, k + 1);
        let here = if i < kids[k] < nodes.len() {
            value_returns(nodes, kids[k] as int)
        } else {
            Seq::empty()
        };
        let rest = child_returns(nodes, i, kids, k + 1);
        assert forall|j: int| 0 <= j < child_returns(nodes, i, kids, k).len() implies exists|q: int|
            0 <= q < nodes.len() && nodes[q].start == (#[trigger] child_returns(nodes, i, kids, k)[j]).0
                && nodes[q].kind is Return by {
            if j < here.len() {
                assert(child_returns(nodes, i, kids, k)[j] == here[j]);
            } else {
                assert(child_returns(nodes, i, kids, k)[j] == rest[j - here.len()]);
            }
        }
    }
}

/// The returns of the tree lie in the source.
pub open spec fn returns_in_bounds(s: Seq<u8>, nodes: Seq<VoidNode>) -> bool {
    forall|q: int| 0 <= q < nodes.len() && (#[trigger] nodes[q].kind) is Return ==> nodes[q].start <= s.len()
}

impl ReturnInVoidContext {
    pub fn name(&self) -> (r: &'static str)
        ensures
            r@ == "Lint/ReturnInVoidContext"@,
    {
        "Lint/ReturnInVoidContext"
    }

    pub fn default_severity(&self) -> (r: Severity)
        ensures
            r == Severity::Warning,
    {
        Severity::Warning
    }

    pub fn supports_autocorrect(&self) -> (r: bool)
        ensures
            r == true,
    {
        true
    }

    /// Checks the tree whose root is the first node: each `return` with a
    /// value in a void method is reported and, with `autocorrect`, loses its
    /// value.
    pub fn check_source(
        &self,
        source: &SourceFile,
        nodes: &Vec<VoidNode>,
        diagnostics: &mut Vec<Diagnostic>,
        corrections: &mut Vec<Correction>,
        autocorrect: bool,
    )
        requires
            returns_in_bounds(source@, nodes@),
        ensures
            adds_offenses(
                old(diagnostics)@,
                final(diagnostics)@,
                old(corrections)@,
                final(corrections)@,
                source.spec_path(),
                "Lint/ReturnInVoidContext"@,
                Severity::Warning,
                void_offenses(source@, nodes@),
                autocorrect,
            ),
    {
        let rets = void_method_returns(nodes);
        let ghost rs = rets@;
        let nl = nodes.len();
        proof {
            lemma_void_returns_bounds(nodes@, 0);
            lemma_offenses_empty(
                diagnostics@,
                corrections@,
                source.spec_path(),
                "Lint/ReturnInVoidContext"@,
                Severity::Warning,
                autocorrect,
            );
            assert(return_offenses(source@, nodes@, rs.subrange(0, 0)) =~= Seq::empty());
        }
        let mut k: usize = 0;
        while k < rets.len()
            invariant
                k <= rets@.len(),
                rs == rets@,
                rs == void_returns(nodes@, 0),
                returns_in_bounds(source@, nodes@),
                forall|j: int|
                    0 <= j < rs.len() ==> {
                        let r = #[trigger] rs[j];
                        0 <= r.0 < nodes@.len() && nodes@[r.0 as int].kind is Def && exists|q: int|
                            0 <= q < nodes@.len() && nodes@[q].start == r.1 && nodes@[q].kind is Return
                    },
                adds_offenses(
                    old(diagnostics)@,
                    diagnostics@,
                    old(corrections)@,
                    corrections@,
                    source.spec_path(),
                    "Lint/ReturnInVoidContext"@,
                    Severity::Warning,
                    return_offenses(source@, nodes@, rs.subrange(0, k as int)),
                    autocorrect,
                ),
            decreases rets@.len() - k,
        {
            let (d, a, e) = rets[k];
            let ghost r = rs[k as int];
            assert(0 <= r.0 < nodes@.len());
            let ghost q = choose|q: int| 0 <= q < nodes@.len() && nodes@[q].start == r.1 && nodes@[q].kind is Return;
            assert(nodes@[q].kind is Return);
            assert(a <= source@.len());
            let name = match &nodes[d].kind {
                VoidKind::Def { name, .. } => name,
                _ => {
                    return;
                },
            };
            let mut msg = "Do not return a value in `".to_owned();
            msg.append(name.as_str());
            msg.append("`.");
            let (line, col) = source.offset_to_line_col(a);
            let kw = if a <= usize::MAX - 6 {
                a + 6
            } else {
                usize::MAX
            };
            let empty = String::new();
            assert(empty@ =~= Seq::<char>::empty());
            let ghost mid_d = diagnostics@;
            let ghost mid_c = corrections@;
            emit_offense(
                diagnostics,
                corrections,
                autocorrect,
                source,
                "Lint/ReturnInVoidContext",
                Severity::Warning,
                line,
                col,
                msg,
                Some((kw, e, empty)),
            );
            proof {
                let o = return_offense(source@, nodes@, r);
                lemma_offenses_push(
                    old(diagnostics)@,
                    mid_d,
                    diagnostics@,
                    old(corrections)@,
                    mid_c,
                    corrections@,
                    source.spec_path(),
                    "Lint/ReturnInVoidContext"@,
                    Severity::Warning,
                    return_offenses(source@, nodes@, rs.subrange(0, k as int)),
                    o,
                    autocorrect,
                );
                assert(return_offenses(source@, nodes@, rs.subrange(0, k + 1)) =~= return_offenses(
                    source@,
                    nodes@,
                    rs.subrange(0, k as int),
                ).push(o));
            }
            k = k + 1;
        }
        assert(rs.subrange(0, rs.len() as int) =~= rs);
    }
}

} // verus!
