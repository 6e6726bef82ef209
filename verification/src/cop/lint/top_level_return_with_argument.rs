use crate::cop::report::{adds_offenses, emit_offense, lemma_offenses_empty, lemma_offenses_push};
use crate::correction::Correction;
use crate::diagnostic::{Diagnostic, Severity};
use crate::parse::source::{col_of, line_of, SourceFile};
use vstd::prelude::*;

verus! {

/// Checks for top level `return` with an argument.
pub struct TopLevelReturnWithArgument;

/// What a node is, as far as the cop reads it.
pub enum TopKind {
    /// A `return`, and whether it has arguments.
    Return { has_args: bool },
    /// A method, class, module, singleton class, block or lambda: a scope
    /// that is not the top level.
    Scope,
    Other,
}

/// One node of the tree, spanning `start..end`; its children come after it.
pub struct TopNode {
    pub start: usize,
    pub end: usize,
    pub kind: TopKind,
    pub children: Vec<usize>,
}

/// The top-level `return`s with arguments in node `i`, by index.
pub open spec fn top_returns(nodes: Seq<TopNode>, i: int) -> Seq<int>
    decreases nodes.len() - i, 1int, 0int,
{
    if i < 0 || i >= nodes.len() {
        Seq::empty()
    } else {
        match nodes[i].kind {
            TopKind::Return { has_args } => if has_args {
                seq![i]
            } else {
                Seq::empty()
            },
            TopKind::Scope => Seq::empty(),
            TopKind::Other => child_returns(nodes, i, nodes[i].children@, 0),
        }
    }
}

pub open spec fn child_returns(nodes: Seq<TopNode>, i: int, kids: Seq<usize>, k: int) -> Seq<int>
    decreases nodes.len() - i, 0int, kids.len() - k,
{
    if k < 0 || k >= kids.len() {
        Seq::empty()
    } else {
        (if i < kids[k] < nodes.len() {
            top_returns(nodes, kids[k] as int)
        } else {
            Seq::empty()
        }) + child_returns(nodes, i, kids, k + 1)
    }
}

/// The offense of return node `r`: the whole return becomes a bare `return`.
pub open spec fn top_return_offense(s: Seq<u8>, nodes: Seq<TopNode>, r: int) -> (
    int,
    int,
    Seq<char>,
    Option<(int, int, Seq<char>)>,
) {
    (
        line_of(s, nodes[r].start as int) as int,
        col_of(s, nodes[r].start as int) as int,
        "Top level return with argument detected."@,
        Some((nodes[r].start as int, nodes[r].end as int, "return"@)),
    )
}

/// The offenses of the tree whose root is the first node.
pub open spec fn top_return_offenses(s: Seq<u8>, nodes: Seq<TopNode>) -> Seq<
    (int, int, Seq<char>, Option<(int, int, Seq<char>)>),
> {
    let rs = top_returns(nodes, 0);
    Seq::new(rs.len(), |j: int| top_return_offense(s, nodes, rs[j]))
}

fn collect_returns(nodes: &Vec<TopNode>, i: usize, out: &mut Vec<usize>)
    requires
        i < nodes@.len(),
    ensures
        final(out)@.map_values(|x: usize| x as int) == old(out)@.map_values(|x: usize| x as int) + top_returns(
            nodes@,
            i as int,
        ),
    decreases nodes@.len() - i, 1int, 0int,
{
    let ghost before = out@.map_values(|x: usize| x as int);
    match &nodes[i].kind {
        TopKind::Return { has_args } => {
            if *has_args {
                out.push(i);
                assert(out@.map_values(|x: usize| x as int) =~= before + seq![i as int]);
            } else {
                assert(out@.map_values(|x: usize| x as int) =~= before + Seq::<int>::empty());
            }
        },
        TopKind::Scope => {
            assert(out@.map_values(|x: usize| x as int) =~= before + Seq::<int>::empty());
        },
        TopKind::Other => {
            collect_child_returns(nodes, i, &nodes[i].children, 0, out);
        },
    }
}

fn collect_child_returns(nodes: &Vec<TopNode>, i: usize, kids: &Vec<usize>, k: usize, out: &mut Vec<usize>)
    requires
        i < nodes@.len(),
    ensures
        final(out)@.map_values(|x: usize| x as int) == old(out)@.map_values(|x: usize| x as int) + child_returns(
            nodes@,
            i as int,
            kids@,
            k as int,
        ),
    decreases nodes@.len() - i, 0int, kids@.len() - k,
{
    let ghost before = out@.map_values(|x: usize| x as int);
    if k >= kids.len() {
        assert(before + Seq::<int>::empty() =~= before);
        return;
    }
    let c = kids[k];
    if i < c && c < nodes.len() {
        collect_returns(nodes, c, out);
    } else {
        assert(before + Seq::<int>::empty() =~= before);
    }
    let ghost here = if i < c && c < nodes.len() {
        top_returns(nodes@, c as int)
    } else {
        Seq::empty()
    };
    assert(out@.map_values(|x: usize| x as int) == before + here);
    collect_child_returns(nodes, i, kids, k + 1, out);
    assert(before + here + child_returns(nodes@, i as int, kids@, k + 1) =~= before + (here + child_returns(
        nodes@,
        i as int,
        kids@,
        k + 1,
    )));
}

pub proof fn lemma_top_returns_bounds(nodes: Seq<TopNode>, i: int)
    ensures
        forall|j: int| 0 <= j < top_returns(nodes, i).len() ==> 0 <= #[trigger] top_returns(nodes, i)[j] < nodes.len(),
    decreases nodes.len() - i, 1int, 0int,
{
    if 0 <= i < nodes.len() {
        match nodes[i].kind {
            TopKind::Other => {
                lemma_child_returns_bounds(nodes, i, nodes[i].children@, 0);
                let v = top_returns(nodes, i);
                let c = child_returns(nodes, i, nodes[i].children@, 0);
                assert forall|j: int| 0 <= j < v.len() implies 0 <= #[trigger] top_returns(nodes, i)[j] < nodes.len() by {
                    assert(v[j] == c[j]);
                }
            },
            _ => {},
        }
    }
}

pub proof fn lemma_child_returns_bounds(nodes: Seq<TopNode>, i: int, kids: Seq<usize>, k: int)
    ensures
        forall|j: int|
            0 <= j < child_returns(nodes, i, kids, k).len() ==> 0 <= #[trigger] child_returns(nodes, i, kids, k)[j]
                < nodes.len(),
    decreases nodes.len() - i, 0int, kids.len() - k,
{
    if 0 <= k < kids.len() {
        if i < kids[k] < nodes.len() {
            lemma_top_returns_bounds(nodes, kids[k] as int);
        }
        lemma_child_returns_bounds(nodes, i, kids, k + 1);
        let v = child_returns(nodes, i, kids, k);
        let here = if i < kids[k] < nodes.len() {
            top_returns(nodes, kids[k] as int)
        } else {
            Seq::empty()
        };
        let rest = child_returns(nodes, i, kids, k + 1);
        assert forall|j: int| 0 <= j < v.len() implies 0 <= #[trigger] child_returns(nodes, i, kids, k)[j]
            < nodes.len() by {
            if j < here.len() {
                assert(v[j] == here[j]);
            } else {
                assert(v[j] == rest[j - here.len()]);
            }
        }
    }
}

impl TopLevelReturnWithArgument {
    pub fn name(&self) -> (r: &'static str)
        ensures
            r@ == "Lint/TopLevelReturnWithArgument"@,
    {
        "Lint/TopLevelReturnWithArgument"
    }

    pub fn default_severity(&self) -> (r: Severity)
        ensures
            r == Severity::Warning,
    {
        Severity::Warning
    }

    pub fn supports_autocorrect(&self) -> (r: bool)
        ensures
            r == true,
    {
        true
    }

    /// Checks the tree whose root is the first node; with `autocorrect`,
    /// each offending return loses its argument.
    pub fn check_source(
        &self,
        source: &SourceFile,
        nodes: &Vec<TopNode>,
        diagnostics: &mut Vec<Diagnostic>,
        corrections: &mut Vec<Correction>,
        autocorrect: bool,
    )
        requires
            forall|q: int| 0 <= q < nodes@.len() ==> #[trigger] nodes@[q].start <= source@.len(),
        ensures
            adds_offenses(
                old(diagnostics)@,
                final(diagnostics)@,
                old(corrections)@,
                final(corrections)@,
                source.spec_path(),
                "Lint/TopLevelReturnWithArgument"@,
                Severity::Warning,
                top_return_offenses(source@, nodes@),
                autocorrect,
            ),
    {
        let mut found: Vec<usize> = Vec::new();
        if nodes.len() > 0 {
            collect_returns(nodes, 0, &mut found);
        }
        let ghost rs = top_returns(nodes@, 0);
        assert(found@.map_values(|x: usize| x as int) =~= rs);
        proof {
            lemma_top_returns_bounds(nodes@, 0);
            lemma_offenses_empty(
                diagnostics@,
                corrections@,
                source.spec_path(),
                "Lint/TopLevelReturnWithArgument"@,
                Severity::Warning,
                autocorrect,
            );
        }
        let mut k: usize = 0;
        while k < found.len()
            invariant
                k <= found@.len(),
                found@.map_values(|x: usize| x as int) == rs,
                rs == top_returns(nodes@, 0),
                forall|j: int| 0 <= j < rs.len() ==> 0 <= #[trigger] rs[j] < nodes@.len(),
                forall|q: int| 0 <= q < nodes@.len() ==> #[trigger] nodes@[q].start <= source@.len(),
                adds_offenses(
                    old(diagnostics)@,
                    diagnostics@,
                    old(corrections)@,
                    corrections@,
                    source.spec_path(),
                    "Lint/TopLevelReturnWithArgument"@,
                    Severity::Warning,
                    Seq::new(k as nat, |j: int| top_return_offense(source@, nodes@, rs[j])),
                    autocorrect,
                ),
            decreases found@.len() - k,
        {
            let r = found[k];
            assert(rs[k as int] == r as int);
            let n = &nodes[r];
            let (line, col) = source.offset_to_line_col(n.start);
            let ghost mid_d = diagnostics@;
            let ghost mid_c = corrections@;
            emit_offense(
                diagnostics,
                corrections,
                autocorrect,
                source,
                "Lint/TopLevelReturnWithArgument",
                Severity::Warning,
                line,
                col,
                "Top level return with argument detected.".to_owned(),
                Some((n.start, n.end, "return".to_owned())),
            );
            proof {
                let o = top_return_offense(source@, nodes@, rs[k as int]);
                lemma_offenses_push(
                    old(diagnostics)@,
                    mid_d,
                    diagnostics@,
                    old(corrections)@,
                    mid_c,
                    corrections@,
                    source.spec_path(),
                    "Lint/TopLevelReturnWithArgument"@,
                    Severity::Warning,
                    Seq::new(k as nat, |j: int| top_return_offense(source@, nodes@, rs[j])),
                    o,
                    autocorrect,
                );
                assert(Seq::new((k + 1) as nat, |j: int| top_return_offense(source@, nodes@, rs[j])) =~= Seq::new(
                    k as nat,
                    |j: int| top_return_offense(source@, nodes@, rs[j]),
                ).push(o));
            }
            k = k + 1;
        }
    }
}

} // verus!
