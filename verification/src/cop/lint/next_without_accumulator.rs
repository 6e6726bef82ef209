use crate::cop::report::{adds_offenses, emit_offense, lemma_offenses_empty, lemma_offenses_push};
use crate::cop::util::string_is;
use crate::correction::Correction;
use crate::diagnostic::{Diagnostic, Severity};
use crate::parse::source::{col_of, line_of, SourceFile};
use vstd::prelude::*;

verus! {

/// Detects bare `next` (without accumulator argument) inside `reduce`/`inject` blocks.
pub struct NextWithoutAccumulator;

/// The block (with `do`/`{}`, not `&blk`) of a call: the name of its first
/// required parameter, and its body.
pub struct CallBlock {
    pub accumulator: Option<String>,
    pub body: Option<usize>,
}

/// What a node is, as far as the cop reads it.
pub enum NextKind {
    /// A method call; its children are its receiver, arguments and block.
    Call { name: String, has_receiver: bool, block: Option<CallBlock> },
    /// A `next`, and whether it has arguments.
    Next { has_args: bool },
    /// A method, class or module definition, which the cop does not enter.
    Definition,
    Other,
}

/// One node of the tree; its children come after it in the list.
pub struct NextNode {
    pub start: usize,
    pub kind: NextKind,
    pub children: Vec<usize>,
}

/// Node `i` is `x.reduce` or `x.inject` with a block.
pub open spec fn is_reduce_call(nodes: Seq<NextNode>, i: int) -> bool {
    match nodes[i].kind {
        NextKind::Call { name, has_receiver, block } => (name@ == "reduce"@ || name@ == "inject"@) && has_receiver
            && block is Some,
        _ => false,
    }
}

/// The bare `next`s in node `i`, each with the reduce call whose block it is
/// in (`owner`, the innermost): inside a reduce call only its block body is
/// searched, and definitions are not entered.
pub open spec fn bare_nexts(nodes: Seq<NextNode>, i: int, owner: Option<usize>) -> Seq<(usize, Option<usize>)>
    decreases nodes.len() - i, 1int, 0int,
{
    if i < 0 || i >= nodes.len() {
        Seq::empty()
    } else if is_reduce_call(nodes, i) {
        match nodes[i].kind {
            NextKind::Call { block: Some(b), .. } => match b.body {
                Some(c) => if i < c < nodes.len() {
                    bare_nexts(nodes, c as int, Some(i as usize))
                } else {
                    Seq::empty()
                },
                None => Seq::empty(),
            },
            _ => Seq::empty(),
        }
    } else {
        match nodes[i].kind {
            NextKind::Next { has_args } => if !has_args && owner is Some {
                seq![(nodes[i].start, owner)]
            } else {
                Seq::empty()
            },
            NextKind::Definition => Seq::empty(),
            _ => child_nexts(nodes, i, nodes[i].children@, 0, owner),
        }
    }
}

pub open spec fn child_nexts(nodes: Seq<NextNode>, i: int, kids: Seq<usize>, k: int, owner: Option<usize>) -> Seq<
    (usize, Option<usize>),
>
    decreases nodes.len() - i, 0int, kids.len() - k,
{
    if k < 0 || k >= kids.len() {
        Seq::empty()
    } else {
        (if i < kids[k] < nodes.len() {
            bare_nexts(nodes, kids[k] as int, owner)
        } else {
            Seq::empty()
        }) + child_nexts(nodes, i, kids, k + 1, owner)
    }
}

/// The accumulator of reduce call `o`.
pub open spec fn accumulator_of(nodes: Seq<NextNode>, o: int) -> Option<Seq<char>> {
    match nodes[o].kind {
        NextKind::Call { block: Some(b), .. } => match b.accumulator {
            Some(a) => Some(a@),
            None => None,
        },
        _ => None,
    }
}

pub open spec fn next_offense(s: Seq<u8>, nodes: Seq<NextNode>, site: (usize, Option<usize>)) -> (
    int,
    int,
    Seq<char>,
    Option<(int, int, Seq<char>)>,
) {
    let start = site.0;
    (
        line_of(s, start as int) as int,
        col_of(s, start as int) as int,
        "Use `next` with an accumulator argument in a `reduce`."@,
        match site.1 {
            Some(o) => match accumulator_of(nodes, o as int) {
                Some(a) => Some(
                    (
                        start as int,
                        if start + 4 <= usize::MAX {
                            start + 4
                        } else {
                            usize::MAX as int
                        },
                        "next "@ + a,
                    ),
                ),
                None => None,
            },
            None => None,
        },
    )
}

/// The offenses of the tree whose root is the first node.
pub open spec fn next_offenses(s: Seq<u8>, nodes: Seq<NextNode>) -> Seq<
    (int, int, Seq<char>, Option<(int, int, Seq<char>)>),
> {
    let sites = bare_nexts(nodes, 0, None);
    Seq::new(sites.len(), |j: int| next_offense(s, nodes, sites[j]))
}

/// Each site is a `next` node, and its owner is a reduce call.
pub open spec fn sites_valid(nodes: Seq<NextNode>, sites: Seq<(usize, Option<usize>)>) -> bool {
    forall|j: int|
        0 <= j < sites.len() ==> {
            &&& exists|q: int| 0 <= q < nodes.len() && nodes[q].start == (#[trigger] sites[j]).0
            &&& (sites[j].1 matches Some(o) ==> o < nodes.len())
        }
}

fn is_reduce_call_exec(nodes: &Vec<NextNode>, i: usize) -> (r: bool)
    requires
        i < nodes@.len(),
    ensures
        r == is_reduce_call(nodes@, i as int),
{
    match &nodes[i].kind {
        NextKind::Call { name, has_receiver, block } => (string_is(name, "reduce") || string_is(name, "inject"))
            && *has_receiver && block.is_some(),
        _ => false,
    }
}

fn collect_nexts(nodes: &Vec<NextNode>, i: usize, owner: Option<usize>, out: &mut Vec<(usize, Option<usize>)>)
    requires
        i < nodes@.len(),
    ensures
        final(out)@ == old(out)@ + bare_nexts(nodes@, i as int, owner),
    decreases nodes@.len() - i, 1int, 0int,
{
    let n = &nodes[i];
    if is_reduce_call_exec(nodes, i) {
        match &n.kind {
            NextKind::Call { block: Some(b), .. } => match b.body {
                Some(c) => {
                    if i < c && c < nodes.len() {
                        collect_nexts(nodes, c, Some(i), out);
                    } else {
                        assert(old(out)@ + Seq::<(usize, Option<usize>)>::empty() =~= old(out)@);
                    }
                },
                None => {
                    assert(old(out)@ + Seq::<(usize, Option<usize>)>::empty() =~= old(out)@);
                },
            },
            _ => {
                assert(old(out)@ + Seq::<(usize, Option<usize>)>::empty() =~= old(out)@);
            },
        }
        return;
    }
    match &n.kind {
        NextKind::Next { has_args } => {
            if !*has_args && owner.is_some() {
                out.push((n.start, owner));
                assert(old(out)@.push((n.start, owner)) =~= old(out)@ + seq![(n.start, owner)]);
            } else {
                assert(old(out)@ + Seq::<(usize, Option<usize>)>::empty() =~= old(out)@);
            }
        },
        NextKind::Definition => {
            assert(old(out)@ + Seq::<(usize, Option<usize>)>::empty() =~= old(out)@);
        },
        _ => {
            collect_child_nexts(nodes, i, &n.children, 0, owner, out);
        },
    }
}

fn collect_child_nexts(
    nodes: &Vec<NextNode>,
    i: usize,
    kids: &Vec<usize>,
    k: usize,
    owner: Option<usize>,
    out: &mut Vec<(usize, Option<usize>)>,
)
    requires
        i < nodes@.len(),
    ensures
        final(out)@ == old(out)@ + child_nexts(nodes@, i as int, kids@, k as int, owner),
    decreases nodes@.len() - i, 0int, kids@.len() - k,
{
    if k >= kids.len() {
        assert(old(out)@ + Seq::<(usize, Option<usize>)>::empty() =~= old(out)@);
        return;
    }
    let c = kids[k];
    let ghost before = out@;
    if i < c && c < nodes.len() {
        collect_nexts(nodes, c, owner, out);
    } else {
        assert(before + Seq::<(usize, Option<usize>)>::empty() =~= before);
    }
    let ghost here = if i < c && c < nodes.len() {
        bare_nexts(nodes@, c as int, owner)
    } else {
        Seq::empty()
    };
    assert(out@ == before + here);
    collect_child_nexts(nodes, i, kids, k + 1, owner, out);
    assert(before + here + child_nexts(nodes@, i as int, kids@, k + 1, owner) =~= before + (here + child_nexts(
        nodes@,
        i as int,
        kids@,
        k + 1,
        owner,
    )));
}

pub proof fn lemma_nexts_valid(nodes: Seq<NextNode>, i: int, owner: Option<usize>)
    requires
        owner matches Some(o) ==> o < nodes.len(),
        nodes.len() <= usize::MAX,
    ensures
        sites_valid(nodes, bare_nexts(nodes, i, owner)),
    decreases nodes.len() - i, 1int, 0int,
{
    if 0 <= i < nodes.len() {
        let v = bare_nexts(nodes, i, owner);
        if is_reduce_call(nodes, i) {
            match nodes[i].kind {
                NextKind::Call { block: Some(b), .. } => match b.body {
                    Some(c) => if i < c < nodes.len() {
                        lemma_nexts_valid(nodes, c as int, Some(i as usize));
                    },
                    None => {},
                },
                _ => {},
            }
        } else {
            match nodes[i].kind {
                NextKind::Next { has_args } => {
                    if !has_args && owner is Some {
                        assert(v[0].0 == nodes[i].start);
                        assert forall|j: int| 0 <= j < v.len() implies {
                            &&& exists|q: int| 0 <= q < nodes.len() && nodes[q].start == (#[trigger] v[j]).0
                            &&& (v[j].1 matches Some(o) ==> o < nodes.len())
                        } by {
                            assert(j == 0);
                            assert(0 <= i < nodes.len() && nodes[i].start == v[j].0);
                        }
                    }
                },
                NextKind::Definition => {},
                _ => {
                    lemma_child_nexts_valid(nodes, i, nodes[i].children@, 0, owner);
                },
            }
        }
    }
}

pub proof fn lemma_child_nexts_valid(nodes: Seq<NextNode>, i: int, kids: Seq<usize>, k: int, owner: Option<usize>)
    requires
        owner matches Some(o) ==> o < nodes.len(),
        nodes.len() <= usize::MAX,
    ensures
        sites_valid(nodes, child_nexts(nodes, i, kids, k, owner)),
    decreases nodes.len() - i, 0int, kids.len() - k,
{
    if 0 <= k < kids.len() {
        if i < kids[k] < nodes.len() {
            lemma_nexts_valid(nodes, kids[k] as int, owner);
        }
        lemma_child_nexts_valid(nodes, i, kids, k + 1, owner);
        let v = child_nexts(nodes, i, kids, k, owner);
        let here = if i < kids[k] < nodes.len() {
            bare_nexts(nodes, kids[k] as int, owner)
        } else {
            Seq::empty()
        };
        let rest = child_nexts(nodes, i, kids, k + 1, owner);
        assert forall|j: int| 0 <= j < v.len() implies {
            &&& exists|q: int| 0 <= q < nodes.len() && nodes[q].start == (#[trigger] v[j]).0
            &&& (v[j].1 matches Some(o) ==> o < nodes.len())
        } by {
            if j < here.len() {
                assert(v[j] == here[j]);
            } else {
                assert(v[j] == rest[j - here.len()]);
            }
        }
    }
}

impl NextWithoutAccumulator {
    pub fn name(&self) -> (r: &'static str)
        ensures
            r@ == "Lint/NextWithoutAccumulator"@,
    {
        "Lint/NextWithoutAccumulator"
    }

    pub fn default_severity(&self) -> (r: Severity)
        ensures
            r == Severity::Warning,
    {
        Severity::Warning
    }

    pub fn supports_autocorrect(&self) -> (r: bool)
        ensures
            r == true,
    {
        true
    }

    /// Checks the tree whose root is the first node: each bare `next` in the
    /// block of `reduce` or `inject` is reported and, with `autocorrect` and
    /// a named accumulator, gets it as argument.
    pub fn check_source(
        &self,
        source: &SourceFile,
        nodes: &Vec<NextNode>,
        diagnostics: &mut Vec<Diagnostic>,
        corrections: &mut Vec<Correction>,
        autocorrect: bool,
    )
        requires
            forall|q: int| 0 <= q < nodes@.len() ==> #[trigger] nodes@[q].start <= source@.len(),
        ensures
            adds_offenses(
                old(diagnostics)@,
                final(diagnostics)@,
                old(corrections)@,
                final(corrections)@,
                source.spec_path(),
                "Lint/NextWithoutAccumulator"@,
                Severity::Warning,
                next_offenses(source@, nodes@),
                autocorrect,
            ),
    {
        let mut sites: Vec<(usize, Option<usize>)> = Vec::new();
        if nodes.len() > 0 {
            collect_nexts(nodes, 0, None, &mut sites);
        }
        let ghost sv = sites@;
        let nl = nodes.len();
        proof {
            assert(sv =~= bare_nexts(nodes@, 0, None));
            lemma_nexts_valid(nodes@, 0, None);
            lemma_offenses_empty(
                diagnostics@,
                corrections@,
                source.spec_path(),
                "Lint/NextWithoutAccumulator"@,
                Severity::Warning,
                autocorrect,
            );
        }
        let mut k: usize = 0;
        while k < sites.len()
            invariant
                k <= sv.len(),
                sv == sites@,
                sv == bare_nexts(nodes@, 0, None),
                sites_valid(nodes@, sv),
                forall|q: int| 0 <= q < nodes@.len() ==> #[trigger] nodes@[q].start <= source@.len(),
                adds_offenses(
                    old(diagnostics)@,
                    diagnostics@,
                    old(corrections)@,
                    corrections@,
                    source.spec_path(),
                    "Lint/NextWithoutAccumulator"@,
                    Severity::Warning,
                    Seq::new(k as nat, |j: int| next_offense(source@, nodes@, sv[j])),
                    autocorrect,
                ),
            decreases sv.len() - k,
        {
            let (start, owner) = sites[k];
            assert(exists|q: int| 0 <= q < nodes@.len() && nodes@[q].start == sv[k as int].0);
            assert(start <= source@.len());
            let (line, col) = source.offset_to_line_col(start);
            let edit = match owner {
                Some(o) => match &nodes[o].kind {
                    NextKind::Call { block: Some(b), .. } => match &b.accumulator {
                        Some(a) => {
                            let mut r = "next ".to_owned();
                            r.append(a.as_str());
                            let end = if start <= usize::MAX - 4 {
                                start + 4
                            } else {
                                usize::MAX
                            };
                            Some((start, end, r))
                        },
                        None => None,
                    },
                    _ => None,
                },
                None => None,
            };
            let ghost mid_d = diagnostics@;
            let ghost mid_c = corrections@;
            emit_offense(
                diagnostics,
                corrections,
                autocorrect,
                source,
                "Lint/NextWithoutAccumulator",
                Severity::Warning,
                line,
                col,
                "Use `next` with an accumulator argument in a `reduce`.".to_owned(),
                edit,
            );
            proof {
                let o = next_offense(source@, nodes@, sv[k as int]);
                lemma_offenses_push(
                    old(diagnostics)@,
                    mid_d,
                    diagnostics@,
                    old(corrections)@,
                    mid_c,
                    corrections@,
                    source.spec_path(),
                    "Lint/NextWithoutAccumulator"@,
                    Severity::Warning,
                    Seq::new(k as nat, |j: int| next_offense(source@, nodes@, sv[j])),
                    o,
                    autocorrect,
                );
                assert(Seq::new((k + 1) as nat, |j: int| next_offense(source@, nodes@, sv[j])) =~= Seq::new(
                    k as nat,
                    |j: int| next_offense(source@, nodes@, sv[j]),
                ).push(o));
            }
            k = k + 1;
        }
    }
}

} // verus!
