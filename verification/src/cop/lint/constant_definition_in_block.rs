use crate::cop::config::{spec_get_list, CopConfig};
use crate::cop::lint::duplicate_methods::string_views;
use crate::cop::report::{extends_with_reports, lemma_reports_empty, lemma_reports_push};
use crate::cop::util::string_is;
use crate::diagnostic::{new_diagnostic, Diagnostic, Severity};
use crate::parse::source::{col_of, line_of, SourceFile};
use vstd::prelude::*;

verus! {

/// Flags constant definitions (constant assignment, class, module) inside blocks.
pub struct ConstantDefinitionInBlock;

/// What a node is, as far as the cop reads it.
pub enum ConstKind {
    /// A method call, and whether it has a block.
    Call { name: String, has_block: bool },
    /// A block, and the statements of its body (or its single expression).
    Block { body: Vec<usize> },
    /// A lambda (`->`), and the statements of its body.
    Lambda { body: Vec<usize> },
    /// A bare constant assignment (`FOO = 1`), a class or a module.
    Definition,
    Other,
}

/// One node of the tree; its children come after it in the list.
pub struct ConstNode {
    pub start: usize,
    pub kind: ConstKind,
    pub children: Vec<usize>,
}

/// The methods whose blocks may define constants: option `AllowedMethods`,
/// `enums` by default.
pub open spec fn allowed_methods(config: CopConfig) -> Seq<Seq<char>> {
    match spec_get_list(config.options@, "AllowedMethods"@) {
        Some(l) => l,
        None => seq!["enums"@],
    }
}

/// The definitions among the statements `body[k..]` of block `i`, when
/// `flag` holds (the block does not belong to an allowed method).
pub open spec fn body_defs(nodes: Seq<ConstNode>, i: int, body: Seq<usize>, k: int, flag: bool) -> Seq<usize>
    decreases body.len() - k,
{
    if k < 0 || k >= body.len() {
        Seq::empty()
    } else {
        (if flag && i < body[k] < nodes.len() && nodes[body[k] as int].kind is Definition {
            seq![nodes[body[k] as int].start]
        } else {
            Seq::empty()
        }) + body_defs(nodes, i, body, k + 1, flag)
    }
}

/// Where the definitions made directly in a block lie, in node `i`: each
/// block reports its own statements before what its body nests. `flag`
/// tells whether the innermost call with a block (or lambda) around is
/// not an allowed method.
pub open spec fn const_defs(nodes: Seq<ConstNode>, i: int, flag: bool, allowed: Seq<Seq<char>>) -> Seq<usize>
    decreases nodes.len() - i, 1int, 0int,
{
    if i < 0 || i >= nodes.len() {
        Seq::empty()
    } else {
        match nodes[i].kind {
            ConstKind::Call { name, has_block } => child_defs(
                nodes,
                i,
                nodes[i].children@,
                0,
                if has_block {
                    !allowed.contains(name@)
                } else {
                    flag
                },
                allowed,
            ),
            ConstKind::Block { body } => body_defs(nodes, i, body@, 0, flag) + child_defs(
                nodes,
                i,
                nodes[i].children@,
                0,
                flag,
                allowed,
            ),
            ConstKind::Lambda { body } => body_defs(nodes, i, body@, 0, !allowed.contains("lambda"@))
                + child_defs(nodes, i, nodes[i].children@, 0, !allowed.contains("lambda"@), allowed),
            _ => child_defs(nodes, i, nodes[i].children@, 0, flag, allowed),
        }
    }
}

pub open spec fn child_defs(
    nodes: Seq<ConstNode>,
    i: int,
    kids: Seq<usize>,
    k: int,
    flag: bool,
    allowed: Seq<Seq<char>>,
) -> Seq<usize>
    decreases nodes.len() - i, 0int, kids.len() - k,
{
    if k < 0 || k >= kids.len() {
        Seq::empty()
    } else {
        (if i < kids[k] < nodes.len() {
            const_defs(nodes, kids[k] as int, flag, allowed)
        } else {
            Seq::empty()
        }) + child_defs(nodes, i, kids, k + 1, flag, allowed)
    }
}

pub open spec fn definition_reports(s: Seq<u8>, starts: Seq<usize>) -> Seq<(int, int, Seq<char>)> {
    Seq::new(
        starts.len(),
        |j: int|
            (
                line_of(s, starts[j] as int) as int,
                col_of(s, starts[j] as int) as int,
                "Do not define constants this way within a block."@,
            ),
    )
}

/// The offenses of the tree whose root is the first node.
pub open spec fn definition_offenses(s: Seq<u8>, nodes: Seq<ConstNode>, config: CopConfig) -> Seq<
    (int, int, Seq<char>),
> {
    definition_reports(s, const_defs(nodes, 0, true, allowed_methods(config)))
}

fn list_contains(v: &Vec<String>, name: &str) -> (r: bool)
    ensures
        r == string_views(v@).contains(name@),
{
    let mut k: usize = 0;
    while k < v.len()
        invariant
            k <= v@.len(),
            forall|j: int| 0 <= j < k ==> v@[j]@ != name@,
        decreases v@.len() - k,
    {
        if string_is(&v[k], name) {
            assert(string_views(v@)[k as int] == name@);
            return true;
        }
        k = k + 1;
    }
    assert forall|j: int| 0 <= j < v@.len() implies #[trigger] string_views(v@)[j] != name@ by {
        assert(string_views(v@)[j] == v@[j]@);
    }
    false
}

fn body_defs_exec(nodes: &Vec<ConstNode>, i: usize, body: &Vec<usize>, flag: bool, out: &mut Vec<usize>)
    ensures
        final(out)@ == old(out)@ + body_defs(nodes@, i as int, body@, 0, flag),
{
    let mut found: Vec<usize> = Vec::new();
    let mut j: usize = 0;
    while j < body.len()
        invariant
            j <= body@.len(),
            body_defs(nodes@, i as int, body@, 0, flag) == found@ + body_defs(nodes@, i as int, body@, j as int, flag),
        decreases body@.len() - j,
    {
        let c = body[j];
        if flag && i < c && c < nodes.len() && matches!(nodes[c].kind, ConstKind::Definition) {
            found.push(nodes[c].start);
            assert(found@ + body_defs(nodes@, i as int, body@, j + 1, flag) =~= found@.drop_last() + (seq![
                nodes@[c as int].start,
            ] + body_defs(nodes@, i as int, body@, j + 1, flag)));
        } else {
            assert(found@ + body_defs(nodes@, i as int, body@, j + 1, flag) =~= found@ + (Seq::<usize>::empty()
                + body_defs(nodes@, i as int, body@, j + 1, flag)));
        }
        j = j + 1;
    }
    assert(found@ + body_defs(nodes@, i as int, body@, j as int, flag) =~= found@);
    let mut q: usize = 0;
    while q < found.len()
        invariant
            q <= found@.len(),
            out@ == old(out)@ + found@.subrange(0, q as int),
        decreases found@.len() - q,
    {
        out.push(found[q]);
        assert(found@.subrange(0, q + 1) =~= found@.subrange(0, q as int).push(found@[q as int]));
        q = q + 1;
    }
    assert(found@.subrange(0, found@.len() as int) =~= found@);
}

fn const_defs_exec(
    nodes: &Vec<ConstNode>,
    i: usize,
    flag: bool,
    allowed: &Vec<String>,
    out: &mut Vec<usize>,
)
    requires
        i < nodes@.len(),
    ensures
        final(out)@ == old(out)@ + const_defs(nodes@, i as int, flag, string_views(allowed@)),
    decreases nodes@.len() - i, 1int, 0int,
{
    let n = &nodes[i];
    let ghost al = string_views(allowed@);
    match &n.kind {
        ConstKind::Call { name, has_block } => {
            let f = if *has_block {
                !list_contains(allowed, name.as_str())
            } else {
                flag
            };
            child_defs_exec(nodes, i, &n.children, 0, f, allowed, out);
        },
        ConstKind::Block { body } => {
            body_defs_exec(nodes, i, body, flag, out);
            let ghost mid = out@;
            child_defs_exec(nodes, i, &n.children, 0, flag, allowed, out);
            assert(old(out)@ + body_defs(nodes@, i as int, body@, 0, flag) + child_defs(nodes@, i as int, n.children@, 0, flag, al)
                =~= old(out)@ + (body_defs(nodes@, i as int, body@, 0, flag) + child_defs(nodes@, i as int, n.children@, 0, flag, al)));
        },
        ConstKind::Lambda { body } => {
            let f = !list_contains(allowed, "lambda");
            body_defs_exec(nodes, i, body, f, out);
            child_defs_exec(nodes, i, &n.children, 0, f, allowed, out);
            assert(old(out)@ + body_defs(nodes@, i as int, body@, 0, f) + child_defs(nodes@, i as int, n.children@, 0, f, al)
                =~= old(out)@ + (body_defs(nodes@, i as int, body@, 0, f) + child_defs(nodes@, i as int, n.children@, 0, f, al)));
        },
        _ => {
            child_defs_exec(nodes, i, &n.children, 0, flag, allowed, out);
        },
    }
}

fn child_defs_exec(
    nodes: &Vec<ConstNode>,
    i: usize,
    kids: &Vec<usize>,
    k: usize,
    flag: bool,
    allowed: &Vec<String>,
    out: &mut Vec<usize>,
)
    requires
        i < nodes@.len(),
    ensures
        final(out)@ == old(out)@ + child_defs(nodes@, i as int, kids@, k as int, flag, string_views(allowed@)),
    decreases nodes@.len() - i, 0int, kids@.len() - k,
{
    let ghost al = string_views(allowed@);
    if k >= kids.len() {
        assert(old(out)@ + Seq::<usize>::empty() =~= old(out)@);
        return;
    }
    let c = kids[k];
    let ghost before = out@;
    if i < c && c < nodes.len() {
        const_defs_exec(nodes, c, flag, allowed, out);
    } else {
        assert(before + Seq::<usize>::empty() =~= before);
    }
    let ghost here = if i < c && c < nodes.len() {
        const_defs(nodes@, c as int, flag, al)
    } else {
        Seq::empty()
    };
    assert(out@ == before + here);
    child_defs_exec(nodes, i, kids, k + 1, flag, allowed, out);
    assert(before + here + child_defs(nodes@, i as int, kids@, k + 1, flag, al) =~= before + (here + child_defs(
        nodes@,
        i as int,
        kids@,
        k + 1,
        flag,
        al,
    )));
}

pub proof fn lemma_const_defs_are_nodes(nodes: Seq<ConstNode>, i: int, flag: bool, allowed: Seq<Seq<char>>)
    ensures
        forall|j: int|
            0 <= j < const_defs(nodes, i, flag, allowed).len() ==> exists|q: int|
                0 <= q < nodes.len() && nodes[q].start == #[trigger] const_defs(nodes, i, flag, allowed)[j],
    decreases nodes.len() - i, 1int, 0int,
{
    if 0 <= i < nodes.len() {
        let v = const_defs(nodes, i, flag, allowed);
        match nodes[i].kind {
            ConstKind::Call { name, has_block } => {
                let f = if has_block {
                    !allowed.contains(name@)
                } else {
                    flag
                };
                lemma_child_defs_are_nodes(nodes, i, nodes[i].children@, 0, f, allowed);
                assert forall|j: int| 0 <= j < v.len() implies exists|q: int|
                    0 <= q < nodes.len() && nodes[q].start == #[trigger] const_defs(nodes, i, flag, allowed)[j] by {
                    assert(v[j] == child_defs(nodes, i, nodes[i].children@, 0, f, allowed)[j]);
                }
            },
            ConstKind::Block { body } => {
                lemma_body_defs_are_nodes(nodes, i, body@, 0, flag);
                lemma_child_defs_are_nodes(nodes, i, nodes[i].children@, 0, flag, allowed);
                let a = body_defs(nodes, i, body@, 0, flag);
                let b = child_defs(nodes, i, nodes[i].children@, 0, flag, allowed);
                assert forall|j: int| 0 <= j < v.len() implies exists|q: int|
                    0 <= q < nodes.len() && nodes[q].start == #[trigger] const_defs(nodes, i, flag, allowed)[j] by {
                    if j < a.len() {
                        assert(v[j] == a[j]);
                    } else {
                        assert(v[j] == b[j - a.len()]);
                    }
                }
            },
            ConstKind::Lambda { body } => {
                let f = !allowed.contains("lambda"@);
                lemma_body_defs_are_nodes(nodes, i, body@, 0, f);
                lemma_child_defs_are_nodes(nodes, i, nodes[i].children@, 0, f, allowed);
                let a = body_defs(nodes, i, body@, 0, f);
                let b = child_defs(nodes, i, nodes[i].children@, 0, f, allowed);
                assert forall|j: int| 0 <= j < v.len() implies exists|q: int|
                    0 <= q < nodes.len() && nodes[q].start == #[trigger] const_defs(nodes, i, flag, allowed)[j] by {
                    if j < a.len() {
                        assert(v[j] == a[j]);
                    } else {
                        assert(v[j] == b[j - a.len()]);
                    }
                }
            },
            _ => {
                lemma_child_defs_are_nodes(nodes, i, nodes[i].children@, 0, flag, allowed);
                assert forall|j: int| 0 <= j < v.len() implies exists|q: int|
                    0 <= q < nodes.len() && nodes[q].start == #[trigger] const_defs(nodes, i, flag, allowed)[j] by {
                    assert(v[j] == child_defs(nodes, i, nodes[i].children@, 0, flag, allowed)[j]);
                }
            },
        }
    }
}

/// Some node starts at `x`.
pub open spec fn is_node_start(nodes: Seq<ConstNode>, x: usize) -> bool {
    exists|q: int| 0 <= q < nodes.len() && nodes[q].start == x
}

pub proof fn lemma_body_defs_are_nodes(nodes: Seq<ConstNode>, i: int, body: Seq<usize>, k: int, flag: bool)
    ensures
        forall|j: int|
            0 <= j < body_defs(nodes, i, body, k, flag).len() ==> exists|q: int|
                0 <= q < nodes.len() && nodes[q].start == #[trigger] body_defs(nodes, i, body, k, flag)[j],
    decreases body.len() - k,
{
    if 0 <= k < body.len() {
        lemma_body_defs_are_nodes(nodes, i, body, k + 1, flag);
        let v = body_defs(nodes, i, body, k, flag);
        let rest = body_defs(nodes, i, body, k + 1, flag);
        let c = body[k] as int;
        if flag && i < c < nodes.len() && nodes[c].kind is Definition {
            assert(v == seq![nodes[c].start] + rest);
            assert forall|j: int| 0 <= j < v.len() implies is_node_start(nodes, v[j]) by {
                if j == 0 {
                    assert(0 <= c < nodes.len() && nodes[c].start == v[j]);
                } else {
                    assert(v[j] == rest[j - 1]);
                }
            }
        } else {
            assert(v == rest);
            assert forall|j: int| 0 <= j < v.len() implies is_node_start(nodes, v[j]) by {
                assert(v[j] == rest[j]);
            }
        }
        assert forall|j: int| 0 <= j < v.len() implies exists|q: int|
            0 <= q < nodes.len() && nodes[q].start == #[trigger] body_defs(nodes, i, body, k, flag)[j] by {
            assert(is_node_start(nodes, v[j]));
        }
    }
}

pub proof fn lemma_child_defs_are_nodes(
    nodes: Seq<ConstNode>,
    i: int,
    kids: Seq<usize>,
    k: int,
    flag: bool,
    allowed: Seq<Seq<char>>,
)
    ensures
        forall|j: int|
            0 <= j < child_defs(nodes, i, kids, k, flag, allowed).len() ==> exists|q: int|
                0 <= q < nodes.len() && nodes[q].start == #[trigger] child_defs(nodes, i, kids, k, flag, allowed)[j],
    decreases nodes.len() - i, 0int, kids.len() - k,
{
    if 0 <= k < kids.len() {
        if i < kids[k] < nodes.len() {
            lemma_const_defs_are_nodes(nodes, kids[k] as int, flag, allowed);
        }
        lemma_child_defs_are_nodes(nodes, i, kids, k + 1, flag, allowed);
        let v = child_defs(nodes, i, kids, k, flag, allowed);
        let here = if i < kids[k] < nodes.len() {
            const_defs(nodes, kids[k] as int, flag, allowed)
        } else {
            Seq::empty()
        };
        let rest = child_defs(nodes, i, kids, k + 1, flag, allowed);
        assert forall|j: int| 0 <= j < v.len() implies exists|q: int|
            0 <= q < nodes.len() && nodes[q].start == #[trigger] child_defs(nodes, i, kids, k, flag, allowed)[j] by {
            if j < here.len() {
                assert(v[j] == here[j]);
            } else {
                assert(v[j] == rest[j - here.len()]);
            }
        }
    }
}

impl ConstantDefinitionInBlock {
    pub fn name(&self) -> (r: &'static str)
        ensures
            r@ == "Lint/ConstantDefinitionInBlock"@,
    {
        "Lint/ConstantDefinitionInBlock"
    }

    pub fn default_severity(&self) -> (r: Severity)
        ensures
            r == Severity::Warning,
    {
        Severity::Warning
    }

    /// Checks the tree whose root is the first node. Option `AllowedMethods`.
    pub fn check_source(
        &self,
        source: &SourceFile,
        nodes: &Vec<ConstNode>,
        config: &CopConfig,
        diagnostics: &mut Vec<Diagnostic>,
    )
        requires
            forall|q: int| 0 <= q < nodes@.len() ==> #[trigger] nodes@[q].start <= source@.len(),
        ensures
            extends_with_reports(
                old(diagnostics)@,
                final(diagnostics)@,
                source.spec_path(),
                "Lint/ConstantDefinitionInBlock"@,
                Severity::Warning,
                definition_offenses(source@, nodes@, *config),
                false,
            ),
    {
        let default_list: Vec<String> = vec!["enums".to_owned()];
        let allowed: &Vec<String> = match config.get_string_array("AllowedMethods") {
            Some(v) => v,
            None => &default_list,
        };
        proof {
            assert(string_views(default_list@) =~= seq!["enums"@]);
        }
        assert(string_views(allowed@) == allowed_methods(*config));
        let mut starts: Vec<usize> = Vec::new();
        if nodes.len() > 0 {
            const_defs_exec(nodes, 0, true, allowed, &mut starts);
        }
        let ghost st = starts@;
        assert(st =~= const_defs(nodes@, 0, true, allowed_methods(*config)));
        proof {
            lemma_const_defs_are_nodes(nodes@, 0, true, allowed_methods(*config));
            lemma_reports_empty(
                diagnostics@,
                source.spec_path(),
                "Lint/ConstantDefinitionInBlock"@,
                Severity::Warning,
                false,
            );
            assert(definition_reports(source@, st.subrange(0, 0)) =~= Seq::empty());
        }
        let mut k: usize = 0;
        while k < starts.len()
            invariant
                k <= starts@.len(),
                st == starts@,
                st == const_defs(nodes@, 0, true, allowed_methods(*config)),
                forall|q: int| 0 <= q < nodes@.len() ==> #[trigger] nodes@[q].start <= source@.len(),
                forall|j: int|
                    0 <= j < st.len() ==> exists|q: int|
                        0 <= q < nodes@.len() && nodes@[q].start == #[trigger] const_defs(
                            nodes@,
                            0,
                            true,
                            allowed_methods(*config),
                        )[j],
                extends_with_reports(
                    old(diagnostics)@,
                    diagnostics@,
                    source.spec_path(),
                    "Lint/ConstantDefinitionInBlock"@,
                    Severity::Warning,
                    definition_reports(source@, st.subrange(0, k as int)),
                    false,
                ),
            decreases starts@.len() - k,
        {
            let a = starts[k];
            assert(exists|q: int| 0 <= q < nodes@.len() && nodes@[q].start == const_defs(nodes@, 0, true, allowed_methods(*config))[k as int]);
            assert(a <= source@.len());
            let (line, col) = source.offset_to_line_col(a);
            let d = new_diagnostic(
                source,
                "Lint/ConstantDefinitionInBlock",
                Severity::Warning,
                line,
                col,
                "Do not define constants this way within a block.".to_owned(),
            );
            let ghost before = diagnostics@;
            diagnostics.push(d);
            proof {
                assert(diagnostics@.drop_last() =~= before);
                lemma_reports_push(
                    old(diagnostics)@,
                    before,
                    diagnostics@,
                    source.spec_path(),
                    "Lint/ConstantDefinitionInBlock"@,
                    Severity::Warning,
                    definition_reports(source@, st.subrange(0, k as int)),
                    (line as int, col as int, "Do not define constants this way within a block."@),
                    false,
                );
                assert(definition_reports(source@, st.subrange(0, k + 1)) =~= definition_reports(
                    source@,
                    st.subrange(0, k as int),
                ).push((line as int, col as int, "Do not define constants this way within a block."@)));
            }
            k = k + 1;
        }
        assert(st.subrange(0, st.len() as int) =~= st);
    }
}

} // verus!
