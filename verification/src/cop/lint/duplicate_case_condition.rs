use crate::cop::lint::duplicates::{
    all_dups, dup_at, dup_positions, grid_view, items_in_bounds, list_removal, list_removal_exec,
};
use crate::cop::text::concat_bytes;
use crate::cop::report::{adds_offenses, emit_offense, lemma_offenses_empty, lemma_offenses_push};
use crate::correction::Correction;
use crate::diagnostic::{Diagnostic, Severity};
use crate::parse::source::{col_of, line_of, SourceFile};
use crate::cop::util::copy_range_to_vec;
use vstd::prelude::*;

verus! {

/// The `Lint/DuplicateCaseCondition` cop.
pub struct DuplicateCaseCondition;

/// What a `when` condition is, as far as comparing it goes.
pub enum CondKind {
    /// A string literal, with its unescaped bytes.
    Str(Vec<u8>),
    /// A symbol literal, with its unescaped bytes.
    Sym(Vec<u8>),
    /// Any other expression, compared by its source text.
    Other,
}

/// One condition of a `when`, spanning `start..end`.
pub struct WhenCond {
    pub start: usize,
    pub end: usize,
    pub kind: CondKind,
}

/// The key by which two conditions are the same: literal strings and symbols
/// by their unescaped value, anything else by its text.
pub open spec fn cond_key(s: Seq<u8>, c: WhenCond) -> Seq<u8> {
    match c.kind {
        CondKind::Str(u) => seq![115u8, 116u8, 114u8, 58u8] + u@,
        CondKind::Sym(u) => seq![115u8, 121u8, 109u8, 58u8] + u@,
        CondKind::Other => seq![115u8, 114u8, 99u8, 58u8] + s.subrange(c.start as int, c.end as int),
    }
}

/// The keys of the conditions of each `when`, in order.
pub open spec fn case_keys(s: Seq<u8>, whens: Seq<Vec<WhenCond>>) -> Seq<Seq<Seq<u8>>> {
    Seq::new(whens.len(), |g: int| Seq::new(whens[g]@.len(), |i: int| cond_key(s, whens[g]@[i])))
}

/// Where each condition of one `when` lies.
pub open spec fn spans(conds: Seq<WhenCond>) -> Seq<(usize, usize)> {
    conds.map_values(|c: WhenCond| (c.start, c.end))
}

/// The offense of the duplicate condition at `p`; in a `when` with several
/// conditions its edit removes it from the list.
pub open spec fn case_offense(s: Seq<u8>, whens: Seq<Vec<WhenCond>>, p: (int, int)) -> (
    int,
    int,
    Seq<char>,
    Option<(int, int, Seq<char>)>,
) {
    let c = whens[p.0]@[p.1];
    (
        line_of(s, c.start as int) as int,
        col_of(s, c.start as int) as int,
        "Duplicate `when` condition detected."@,
        list_removal(s, spans(whens[p.0]@), p.1),
    )
}

pub open spec fn case_offense_list(s: Seq<u8>, whens: Seq<Vec<WhenCond>>, ps: Seq<(int, int)>) -> Seq<
    (int, int, Seq<char>, Option<(int, int, Seq<char>)>),
> {
    ps.map_values(|p: (int, int)| case_offense(s, whens, p))
}

/// One offense per condition that repeats an earlier one of the same `case`.
pub open spec fn case_offenses(s: Seq<u8>, whens: Seq<Vec<WhenCond>>) -> Seq<
    (int, int, Seq<char>, Option<(int, int, Seq<char>)>),
> {
    case_offense_list(s, whens, all_dups(case_keys(s, whens)))
}

pub open spec fn whens_in_bounds(s: Seq<u8>, whens: Seq<Vec<WhenCond>>) -> bool {
    forall|g: int, i: int|
        0 <= g < whens.len() && 0 <= i < whens[g]@.len() ==> #[trigger] whens[g]@[i].start
            <= whens[g]@[i].end <= s.len()
}

fn cond_key_exec(bytes: &[u8], c: &WhenCond) -> (r: Vec<u8>)
    requires
        c.start <= c.end <= bytes@.len(),
    ensures
        r@ == cond_key(bytes@, *c),
{
    match &c.kind {
        CondKind::Str(u) => {
            let tag = vec![115u8, 116u8, 114u8, 58u8];
            assert(tag@ =~= seq![115u8, 116u8, 114u8, 58u8]);
            concat_bytes(tag.as_slice(), u.as_slice())
        },
        CondKind::Sym(u) => {
            let tag = vec![115u8, 121u8, 109u8, 58u8];
            assert(tag@ =~= seq![115u8, 121u8, 109u8, 58u8]);
            concat_bytes(tag.as_slice(), u.as_slice())
        },
        CondKind::Other => {
            let tag = vec![115u8, 114u8, 99u8, 58u8];
            assert(tag@ =~= seq![115u8, 114u8, 99u8, 58u8]);
            let text = copy_range_to_vec(bytes, c.start, c.end);
            concat_bytes(tag.as_slice(), text.as_slice())
        },
    }
}

fn case_key_grid(bytes: &[u8], whens: &Vec<Vec<WhenCond>>) -> (r: Vec<Vec<Vec<u8>>>)
    requires
        whens_in_bounds(bytes@, whens@),
    ensures
        grid_view(r@) == case_keys(bytes@, whens@),
{
    let ghost want = case_keys(bytes@, whens@);
    let mut keys: Vec<Vec<Vec<u8>>> = Vec::new();
    let mut g: usize = 0;
    while g < whens.len()
        invariant
            g <= whens@.len(),
            want == case_keys(bytes@, whens@),
            whens_in_bounds(bytes@, whens@),
            keys@.len() == g,
            forall|h: int| 0 <= h < g ==> #[trigger] grid_view(keys@)[h] == want[h],
        decreases whens@.len() - g,
    {
        let conds = &whens[g];
        let mut row: Vec<Vec<u8>> = Vec::new();
        let mut i: usize = 0;
        while i < conds.len()
            invariant
                g < whens@.len(),
                conds@ == whens@[g as int]@,
                whens_in_bounds(bytes@, whens@),
                i <= conds@.len(),
                row@.len() == i,
                forall|j: int| 0 <= j < i ==> #[trigger] row@[j]@ == cond_key(bytes@, conds@[j]),
            decreases conds@.len() - i,
        {
            assert(conds@[i as int].start <= conds@[i as int].end <= bytes@.len());
            let k = cond_key_exec(bytes, &conds[i]);
            row.push(k);
            i = i + 1;
        }
        assert(row@.map_values(|k: Vec<u8>| k@) =~= want[g as int]);
        let ghost before = keys@;
        keys.push(row);
        assert forall|h: int| 0 <= h <= g implies #[trigger] grid_view(keys@)[h] == want[h] by {
            if h < g {
                assert(keys@[h] == before[h]);
                assert(grid_view(before)[h] == want[h]);
            }
        }
        g = g + 1;
    }
    assert(grid_view(keys@) =~= want);
    keys
}

fn spans_exec(conds: &Vec<WhenCond>) -> (r: Vec<(usize, usize)>)
    ensures
        r@ == spans(conds@),
{
    let mut out: Vec<(usize, usize)> = Vec::new();
    let mut i: usize = 0;
    while i < conds.len()
        invariant
            i <= conds@.len(),
            out@ == spans(conds@.subrange(0, i as int)),
        decreases conds@.len() - i,
    {
        out.push((conds[i].start, conds[i].end));
        assert(spans(conds@.subrange(0, i + 1)) =~= spans(conds@.subrange(0, i as int)).push(
            (conds@[i as int].start, conds@[i as int].end),
        ));
        i = i + 1;
    }
    assert(conds@.subrange(0, conds@.len() as int) =~= conds@);
    out
}

impl DuplicateCaseCondition {
    pub fn name(&self) -> (r: &'static str)
        ensures
            r@ == "Lint/DuplicateCaseCondition"@,
    {
        "Lint/DuplicateCaseCondition"
    }

    pub fn default_severity(&self) -> (r: Severity)
        ensures
            r == Severity::Warning,
    {
        Severity::Warning
    }

    pub fn supports_autocorrect(&self) -> (r: bool)
        ensures
            r == true,
    {
        true
    }

    /// Checks one `case`, given the conditions of each of its `when`s.
    pub fn check_node(
        &self,
        source: &SourceFile,
        whens: &Vec<Vec<WhenCond>>,
        diagnostics: &mut Vec<Diagnostic>,
        corrections: &mut Vec<Correction>,
        autocorrect: bool,
    )
        requires
            whens_in_bounds(source@, whens@),
        ensures
            adds_offenses(
                old(diagnostics)@,
                final(diagnostics)@,
                old(corrections)@,
                final(corrections)@,
                source.spec_path(),
                "Lint/DuplicateCaseCondition"@,
                Severity::Warning,
                case_offenses(source@, whens@),
                autocorrect,
            ),
    {
        let bytes = source.as_bytes();
        let keys = case_key_grid(bytes, whens);
        let ghost kv = case_keys(source@, whens@);
        proof {
            lemma_offenses_empty(
                diagnostics@,
                corrections@,
                source.spec_path(),
                "Lint/DuplicateCaseCondition"@,
                Severity::Warning,
                autocorrect,
            );
            assert(case_offense_list(source@, whens@, dup_positions(kv, 0, 0)) =~= Seq::empty());
        }
        let mut g: usize = 0;
        while g < whens.len()
            invariant
                g <= whens@.len(),
                bytes@ == source@,
                kv == case_keys(source@, whens@),
                grid_view(keys@) == kv,
                whens_in_bounds(source@, whens@),
                adds_offenses(
                    old(diagnostics)@,
                    diagnostics@,
                    old(corrections)@,
                    corrections@,
                    source.spec_path(),
                    "Lint/DuplicateCaseCondition"@,
                    Severity::Warning,
                    case_offense_list(source@, whens@, dup_positions(kv, g as nat, 0)),
                    autocorrect,
                ),
            decreases whens@.len() - g,
        {
            let conds = &whens[g];
            let sp = spans_exec(conds);
            proof {
                if g > 0 {
                    assert(dup_positions(kv, g as nat, 0) == dup_positions(
                        kv,
                        (g - 1) as nat,
                        kv[g - 1].len(),
                    ));
                }
            }
            assert(dup_positions(kv, g as nat, 0) == dup_positions(kv, g as nat, 0));
            let mut i: usize = 0;
            while i < conds.len()
                invariant
                    g < whens@.len(),
                    conds@ == whens@[g as int]@,
                    sp@ == spans(conds@),
                    i <= conds@.len(),
                    bytes@ == source@,
                    kv == case_keys(source@, whens@),
                    grid_view(keys@) == kv,
                    whens_in_bounds(source@, whens@),
                    adds_offenses(
                        old(diagnostics)@,
                        diagnostics@,
                        old(corrections)@,
                        corrections@,
                        source.spec_path(),
                        "Lint/DuplicateCaseCondition"@,
                        Severity::Warning,
                        case_offense_list(source@, whens@, dup_positions(kv, g as nat, i as nat)),
                        autocorrect,
                    ),
                decreases conds@.len() - i,
            {
                let ghost ps = dup_positions(kv, g as nat, i as nat);
                assert(kv[g as int].len() == conds@.len());
                assert(grid_view(keys@).len() == keys@.len());
                assert(grid_view(keys@)[g as int].len() == keys@[g as int]@.len());
                if dup_at(&keys, g, i) {
                    let c = &conds[i];
                    assert(c.start <= c.end <= source@.len());
                    let (line, col) = source.offset_to_line_col(c.start);
                    proof {
                        assert forall|k: int| 0 <= k < sp@.len() implies #[trigger] sp@[k].0
                            <= sp@[k].1 <= bytes@.len() by {
                            assert(conds@[k].start <= conds@[k].end <= source@.len());
                        }
                    }
                    let edit = list_removal_exec(bytes, &sp, i);
                    let ghost mid_d = diagnostics@;
                    let ghost mid_c = corrections@;
                    emit_offense(
                        diagnostics,
                        corrections,
                        autocorrect,
                        source,
                        "Lint/DuplicateCaseCondition",
                        Severity::Warning,
                        line,
                        col,
                        "Duplicate `when` condition detected.".to_owned(),
                        edit,
                    );
                    proof {
                        let o = case_offense(source@, whens@, (g as int, i as int));
                        lemma_offenses_push(
                            old(diagnostics)@,
                            mid_d,
                            diagnostics@,
                            old(corrections)@,
                            mid_c,
                            corrections@,
                            source.spec_path(),
                            "Lint/DuplicateCaseCondition"@,
                            Severity::Warning,
                            case_offense_list(source@, whens@, ps),
                            o,
                            autocorrect,
                        );
                        assert(dup_positions(kv, g as nat, (i + 1) as nat) == ps.push(
                            (g as int, i as int),
                        ));
                        assert(case_offense_list(source@, whens@, ps.push((g as int, i as int)))
                            =~= case_offense_list(source@, whens@, ps).push(o));
                    }
                } else {
                    assert(dup_positions(kv, g as nat, (i + 1) as nat) == ps);
                }
                i = i + 1;
            }
            assert(dup_positions(kv, (g + 1) as nat, 0) == dup_positions(
                kv,
                g as nat,
                kv[g as int].len(),
            ));
            g = g + 1;
        }
    }
}

} // verus!
