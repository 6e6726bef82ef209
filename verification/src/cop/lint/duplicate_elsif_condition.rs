use crate::cop::lint::duplicates::{all_dups, dup_at, dup_positions, grid_view, is_dup, removal_start};
use crate::cop::report::{adds_offenses, emit_offense, lemma_offenses_empty, lemma_offenses_push};
use crate::cop::util::{copy_range_to_vec, range_eq, range_is};
use crate::correction::Correction;
use crate::diagnostic::{Diagnostic, Severity};
use crate::parse::source::{col_of, line_of, SourceFile};
use vstd::prelude::*;

verus! {

/// The `Lint/DuplicateElsifCondition` cop.
pub struct DuplicateElsifCondition;

/// One `elsif` branch.
pub struct ElsifBranch {
    /// Where its condition lies.
    pub pred_start: usize,
    pub pred_end: usize,
    /// The condition is a plain read: a variable, a constant, `true`, `false`
    /// or `nil`.
    pub safe_predicate: bool,
    /// Where the branch lies.
    pub start: usize,
    pub end: usize,
    /// Where its `end` keyword starts, if it has one.
    pub end_keyword: Option<usize>,
}

/// An `if` with its chain of `elsif` branches.
pub struct IfChain {
    /// Where its keyword lies, if it has one.
    pub keyword: Option<(usize, usize)>,
    /// Where its condition lies.
    pub pred_start: usize,
    pub pred_end: usize,
    pub elsifs: Vec<ElsifBranch>,
    /// The chain ends in an `else`.
    pub has_else: bool,
}

/// The chain starts with `if` or `unless` (so it is not itself an `elsif`).
pub open spec fn is_chain_head(s: Seq<u8>, c: IfChain) -> bool {
    match c.keyword {
        Some((a, b)) => range_is(s, a as int, b as int, seq![105u8, 102u8]) || range_is(
            s,
            a as int,
            b as int,
            seq![117u8, 110u8, 108u8, 101u8, 115u8, 115u8],
        ),
        None => false,
    }
}

/// The conditions' texts, the `if`'s first, as a single group.
pub open spec fn elsif_keys(s: Seq<u8>, c: IfChain) -> Seq<Seq<Seq<u8>>> {
    seq![
        seq![s.subrange(c.pred_start as int, c.pred_end as int)] + Seq::new(
            c.elsifs@.len(),
            |i: int| s.subrange(c.elsifs@[i].pred_start as int, c.elsifs@[i].pred_end as int),
        ),
    ]
}

/// The edit for a duplicate `elsif` at index `k`: only the last branch, with
/// no `else` after it and a plain read as condition, is removed.
pub open spec fn elsif_removal(s: Seq<u8>, c: IfChain, k: int) -> Option<(int, int, Seq<char>)> {
    let e = c.elsifs@[k];
    if k == c.elsifs@.len() - 1 && !c.has_else && e.safe_predicate {
        Some(
            (
                removal_start(s, e.start as int),
                match e.end_keyword {
                    Some(p) => p as int,
                    None => e.end as int,
                },
                "\n"@,
            ),
        )
    } else {
        None
    }
}

/// The offense of the duplicate condition at `p` (the `if`'s is at 0).
pub open spec fn elsif_offense(s: Seq<u8>, c: IfChain, p: (int, int)) -> (
    int,
    int,
    Seq<char>,
    Option<(int, int, Seq<char>)>,
) {
    let e = c.elsifs@[p.1 - 1];
    (
        line_of(s, e.pred_start as int) as int,
        col_of(s, e.pred_start as int) as int,
        "Duplicate `elsif` condition detected."@,
        elsif_removal(s, c, p.1 - 1),
    )
}

pub open spec fn elsif_offense_list(s: Seq<u8>, c: IfChain, ps: Seq<(int, int)>) -> Seq<
    (int, int, Seq<char>, Option<(int, int, Seq<char>)>),
> {
    ps.map_values(|p: (int, int)| elsif_offense(s, c, p))
}

/// One offense per `elsif` whose condition has the text of an earlier one, for
/// a chain that starts with `if` or `unless`.
pub open spec fn elsif_offenses(s: Seq<u8>, c: IfChain) -> Seq<
    (int, int, Seq<char>, Option<(int, int, Seq<char>)>),
> {
    if is_chain_head(s, c) {
        elsif_offense_list(s, c, all_dups(elsif_keys(s, c)))
    } else {
        Seq::empty()
    }
}

pub open spec fn chain_in_bounds(s: Seq<u8>, c: IfChain) -> bool {
    &&& c.pred_start <= c.pred_end <= s.len()
    &&& match c.keyword {
        Some((a, b)) => a <= b <= s.len(),
        None => true,
    }
    &&& forall|i: int|
        0 <= i < c.elsifs@.len() ==> #[trigger] c.elsifs@[i].pred_start <= c.elsifs@[i].pred_end
            <= s.len() && c.elsifs@[i].start <= c.elsifs@[i].end <= s.len()
}

fn elsif_key_grid(bytes: &[u8], c: &IfChain) -> (r: Vec<Vec<Vec<u8>>>)
    requires
        chain_in_bounds(bytes@, *c),
    ensures
        grid_view(r@) == elsif_keys(bytes@, *c),
{
    let ghost want = elsif_keys(bytes@, *c);
    let mut row: Vec<Vec<u8>> = Vec::new();
    row.push(copy_range_to_vec(bytes, c.pred_start, c.pred_end));
    let mut i: usize = 0;
    while i < c.elsifs.len()
        invariant
            chain_in_bounds(bytes@, *c),
            want == elsif_keys(bytes@, *c),
            i <= c.elsifs@.len(),
            row@.len() == i + 1,
            forall|j: int| 0 <= j <= i ==> #[trigger] row@[j]@ == want[0][j],
        decreases c.elsifs@.len() - i,
    {
        let e = &c.elsifs[i];
        assert(c.elsifs@[i as int].pred_start <= c.elsifs@[i as int].pred_end <= bytes@.len());
        row.push(copy_range_to_vec(bytes, e.pred_start, e.pred_end));
        i = i + 1;
    }
    let mut keys: Vec<Vec<Vec<u8>>> = Vec::new();
    keys.push(row);
    assert(grid_view(keys@)[0] =~= want[0]);
    assert(grid_view(keys@) =~= want);
    keys
}

impl DuplicateElsifCondition {
    pub fn name(&self) -> (r: &'static str)
        ensures
            r@ == "Lint/DuplicateElsifCondition"@,
    {
        "Lint/DuplicateElsifCondition"
    }

    pub fn default_severity(&self) -> (r: Severity)
        ensures
            r == Severity::Warning,
    {
        Severity::Warning
    }

    pub fn supports_autocorrect(&self) -> (r: bool)
        ensures
            r == true,
    {
        true
    }

    /// Checks one `if` chain.
    pub fn check_node(
        &self,
        source: &SourceFile,
        chain: &IfChain,
        diagnostics: &mut Vec<Diagnostic>,
        corrections: &mut Vec<Correction>,
        autocorrect: bool,
    )
        requires
            chain_in_bounds(source@, *chain),
        ensures
            adds_offenses(
                old(diagnostics)@,
                final(diagnostics)@,
                old(corrections)@,
                final(corrections)@,
                source.spec_path(),
                "Lint/DuplicateElsifCondition"@,
                Severity::Warning,
                elsif_offenses(source@, *chain),
                autocorrect,
            ),
    {
        let bytes = source.as_bytes();
        proof {
            lemma_offenses_empty(
                diagnostics@,
                corrections@,
                source.spec_path(),
                "Lint/DuplicateElsifCondition"@,
                Severity::Warning,
                autocorrect,
            );
        }
        let kw_if = vec![105u8, 102u8];
        let kw_unless = vec![117u8, 110u8, 108u8, 101u8, 115u8, 115u8];
        assert(kw_if@ =~= seq![105u8, 102u8]);
        assert(kw_unless@ =~= seq![117u8, 110u8, 108u8, 101u8, 115u8, 115u8]);
        let head = match chain.keyword {
            Some((a, b)) => range_eq(bytes, a, b, kw_if.as_slice()) || range_eq(
                bytes,
                a,
                b,
                kw_unless.as_slice(),
            ),
            None => false,
        };
        if !head {
            return;
        }
        let keys = elsif_key_grid(bytes, chain);
        let ghost kv = elsif_keys(source@, *chain);
        let ghost c = *chain;
        proof {
            assert(grid_view(keys@).len() == keys@.len());
            assert(grid_view(keys@)[0].len() == keys@[0]@.len());
            assert(!is_dup(kv, 0, 0));
            assert(dup_positions(kv, 0, 0) =~= Seq::empty());
            assert(dup_positions(kv, 0, 1) =~= Seq::empty());
            assert(elsif_offense_list(source@, c, dup_positions(kv, 0, 1)) =~= Seq::empty());
        }
        let n = chain.elsifs.len();
        let mut i: usize = 0;
        while i < n
            invariant
                i <= n == c.elsifs@.len(),
                c == *chain,
                bytes@ == source@,
                kv == elsif_keys(source@, c),
                grid_view(keys@) == kv,
                keys@.len() == 1,
                keys@[0]@.len() == n + 1,
                chain_in_bounds(source@, c),
                adds_offenses(
                    old(diagnostics)@,
                    diagnostics@,
                    old(corrections)@,
                    corrections@,
                    source.spec_path(),
                    "Lint/DuplicateElsifCondition"@,
                    Severity::Warning,
                    elsif_offense_list(source@, c, dup_positions(kv, 0, (i + 1) as nat)),
                    autocorrect,
                ),
            decreases n - i,
        {
            let ghost ps = dup_positions(kv, 0, (i + 1) as nat);
            if dup_at(&keys, 0, i + 1) {
                let e = &chain.elsifs[i];
                assert(c.elsifs@[i as int].pred_start <= c.elsifs@[i as int].pred_end);
                assert(e.pred_start <= e.pred_end <= source@.len());
                assert(e.start <= e.end <= source@.len());
                let (line, col) = source.offset_to_line_col(e.pred_start);
                let edit = if i + 1 == n && !chain.has_else && e.safe_predicate {
                    let start = if e.start > 0 && bytes[e.start - 1] == 10u8 {
                        e.start - 1
                    } else {
                        e.start
                    };
                    let end = match e.end_keyword {
                        Some(p) => p,
                        None => e.end,
                    };
                    Some((start, end, "\n".to_owned()))
                } else {
                    None
                };
                let ghost mid_d = diagnostics@;
                let ghost mid_c = corrections@;
                emit_offense(
                    diagnostics,
                    corrections,
                    autocorrect,
                    source,
                    "Lint/DuplicateElsifCondition",
                    Severity::Warning,
                    line,
                    col,
                    "Duplicate `elsif` condition detected.".to_owned(),
                    edit,
                );
                proof {
                    let o = elsif_offense(source@, c, (0, i + 1));
                    lemma_offenses_push(
                        old(diagnostics)@,
                        mid_d,
                        diagnostics@,
                        old(corrections)@,
                        mid_c,
                        corrections@,
                        source.spec_path(),
                        "Lint/DuplicateElsifCondition"@,
                        Severity::Warning,
                        elsif_offense_list(source@, c, ps),
                        o,
                        autocorrect,
                    );
                    assert(dup_positions(kv, 0, (i + 2) as nat) == ps.push((0, i + 1)));
                    assert(elsif_offense_list(source@, c, ps.push((0, i + 1)))
                        =~= elsif_offense_list(source@, c, ps).push(o));
                }
            } else {
                assert(dup_positions(kv, 0, (i + 2) as nat) == ps);
            }
            i = i + 1;
        }
        assert(all_dups(kv) == dup_positions(kv, 0, kv[0].len()));
    }
}

} // verus!
