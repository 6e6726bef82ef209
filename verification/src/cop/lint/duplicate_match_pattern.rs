use crate::cop::lint::duplicates::{all_dups, dup_at, dup_positions, grid_view, removal_start};
use crate::cop::report::{adds_offenses, emit_offense, lemma_offenses_empty, lemma_offenses_push};
use crate::cop::util::copy_range_to_vec;
use crate::correction::Correction;
use crate::diagnostic::{Diagnostic, Severity};
use crate::parse::source::{col_of, line_of, SourceFile};
use vstd::prelude::*;

verus! {

/// The `Lint/DuplicateMatchPattern` cop: repeated patterns in `case ... in`.
pub struct DuplicateMatchPattern;

/// One `in` clause: where its pattern lies, and where the clause lies.
pub struct InClause {
    pub pattern_start: usize,
    pub pattern_end: usize,
    pub start: usize,
    pub end: usize,
}

/// The patterns' texts, as a single group.
pub open spec fn match_keys(s: Seq<u8>, ins: Seq<InClause>) -> Seq<Seq<Seq<u8>>> {
    seq![Seq::new(ins.len(), |i: int| s.subrange(ins[i].pattern_start as int, ins[i].pattern_end as int))]
}

/// The offense of the duplicate clause at `p`: its edit removes the clause.
pub open spec fn match_offense(s: Seq<u8>, ins: Seq<InClause>, p: (int, int)) -> (
    int,
    int,
    Seq<char>,
    Option<(int, int, Seq<char>)>,
) {
    let c = ins[p.1];
    (
        line_of(s, c.pattern_start as int) as int,
        col_of(s, c.pattern_start as int) as int,
        "Duplicate `in` pattern detected."@,
        Some((removal_start(s, c.start as int), c.end as int, Seq::empty())),
    )
}

pub open spec fn match_offense_list(s: Seq<u8>, ins: Seq<InClause>, ps: Seq<(int, int)>) -> Seq<
    (int, int, Seq<char>, Option<(int, int, Seq<char>)>),
> {
    ps.map_values(|p: (int, int)| match_offense(s, ins, p))
}

/// One offense per `in` clause whose pattern repeats an earlier one.
pub open spec fn match_offenses(s: Seq<u8>, ins: Seq<InClause>) -> Seq<
    (int, int, Seq<char>, Option<(int, int, Seq<char>)>),
> {
    match_offense_list(s, ins, all_dups(match_keys(s, ins)))
}

pub open spec fn ins_in_bounds(s: Seq<u8>, ins: Seq<InClause>) -> bool {
    forall|i: int|
        0 <= i < ins.len() ==> #[trigger] ins[i].pattern_start <= ins[i].pattern_end <= s.len()
            && ins[i].start <= ins[i].end <= s.len()
}

fn match_key_grid(bytes: &[u8], ins: &Vec<InClause>) -> (r: Vec<Vec<Vec<u8>>>)
    requires
        ins_in_bounds(bytes@, ins@),
    ensures
        grid_view(r@) == match_keys(bytes@, ins@),
{
    let ghost want = match_keys(bytes@, ins@);
    let mut row: Vec<Vec<u8>> = Vec::new();
    let mut i: usize = 0;
    while i < ins.len()
        invariant
            ins_in_bounds(bytes@, ins@),
            i <= ins@.len(),
            row@.len() == i,
            forall|j: int|
                0 <= j < i ==> #[trigger] row@[j]@ == bytes@.subrange(
                    ins@[j].pattern_start as int,
                    ins@[j].pattern_end as int,
                ),
        decreases ins@.len() - i,
    {
        assert(ins@[i as int].pattern_start <= ins@[i as int].pattern_end <= bytes@.len());
        let k = copy_range_to_vec(bytes, ins[i].pattern_start, ins[i].pattern_end);
        row.push(k);
        i = i + 1;
    }
    let mut keys: Vec<Vec<Vec<u8>>> = Vec::new();
    keys.push(row);
    assert(grid_view(keys@)[0] =~= want[0]);
    assert(grid_view(keys@) =~= want);
    keys
}

impl DuplicateMatchPattern {
    pub fn name(&self) -> (r: &'static str)
        ensures
            r@ == "Lint/DuplicateMatchPattern"@,
    {
        "Lint/DuplicateMatchPattern"
    }

    pub fn default_severity(&self) -> (r: Severity)
        ensures
            r == Severity::Warning,
    {
        Severity::Warning
    }

    pub fn supports_autocorrect(&self) -> (r: bool)
        ensures
            r == true,
    {
        true
    }

    /// Checks one `case ... in`, given its `in` clauses in order.
    pub fn check_case_match(
        &self,
        source: &SourceFile,
        ins: &Vec<InClause>,
        diagnostics: &mut Vec<Diagnostic>,
        corrections: &mut Vec<Correction>,
        autocorrect: bool,
    )
        requires
            ins_in_bounds(source@, ins@),
        ensures
            adds_offenses(
                old(diagnostics)@,
                final(diagnostics)@,
                old(corrections)@,
                final(corrections)@,
                source.spec_path(),
                "Lint/DuplicateMatchPattern"@,
                Severity::Warning,
                match_offenses(source@, ins@),
                autocorrect,
            ),
    {
        let bytes = source.as_bytes();
        let keys = match_key_grid(bytes, ins);
        let ghost kv = match_keys(source@, ins@);
        proof {
            lemma_offenses_empty(
                diagnostics@,
                corrections@,
                source.spec_path(),
                "Lint/DuplicateMatchPattern"@,
                Severity::Warning,
                autocorrect,
            );
            assert(match_offense_list(source@, ins@, dup_positions(kv, 0, 0)) =~= Seq::empty());
            assert(grid_view(keys@).len() == keys@.len());
            assert(grid_view(keys@)[0].len() == keys@[0]@.len());
        }
        let mut i: usize = 0;
        while i < ins.len()
            invariant
                i <= ins@.len(),
                bytes@ == source@,
                kv == match_keys(source@, ins@),
                grid_view(keys@) == kv,
                keys@.len() == 1,
                keys@[0]@.len() == ins@.len(),
                ins_in_bounds(source@, ins@),
                adds_offenses(
                    old(diagnostics)@,
                    diagnostics@,
                    old(corrections)@,
                    corrections@,
                    source.spec_path(),
                    "Lint/DuplicateMatchPattern"@,
                    Severity::Warning,
                    match_offense_list(source@, ins@, dup_positions(kv, 0, i as nat)),
                    autocorrect,
                ),
            decreases ins@.len() - i,
        {
            let ghost ps = dup_positions(kv, 0, i as nat);
            if dup_at(&keys, 0, i) {
                let c = &ins[i];
                assert(c.pattern_start <= c.pattern_end <= source@.len());
                assert(c.start <= c.end <= source@.len());
                let (line, col) = source.offset_to_line_col(c.pattern_start);
                let start = if c.start > 0 && bytes[c.start - 1] == 10u8 {
                    c.start - 1
                } else {
                    c.start
                };
                let empty = String::new();
                assert(empty@ =~= Seq::<char>::empty());
                let ghost mid_d = diagnostics@;
                let ghost mid_c = corrections@;
                emit_offense(
                    diagnostics,
                    corrections,
                    autocorrect,
                    source,
                    "Lint/DuplicateMatchPattern",
                    Severity::Warning,
                    line,
                    col,
                    "Duplicate `in` pattern detected.".to_owned(),
                    Some((start, c.end, empty)),
                );
                proof {
                    let o = match_offense(source@, ins@, (0, i as int));
                    lemma_offenses_push(
                        old(diagnostics)@,
                        mid_d,
                        diagnostics@,
                        old(corrections)@,
                        mid_c,
                        corrections@,
                        source.spec_path(),
                        "Lint/DuplicateMatchPattern"@,
                        Severity::Warning,
                        match_offense_list(source@, ins@, ps),
                        o,
                        autocorrect,
                    );
                    assert(dup_positions(kv, 0, (i + 1) as nat) == ps.push((0, i as int)));
                    assert(match_offense_list(source@, ins@, ps.push((0, i as int)))
                        =~= match_offense_list(source@, ins@, ps).push(o));
                }
            } else {
                assert(dup_positions(kv, 0, (i + 1) as nat) == ps);
            }
            i = i + 1;
        }
        assert(all_dups(kv) == dup_positions(kv, 0, kv[0].len()));
    }
}

} // verus!
