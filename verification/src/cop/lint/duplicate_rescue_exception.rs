use crate::cop::lint::duplicates::{
    all_dups, dup_at, dup_positions, grid_view, items_in_bounds, list_removal,
    list_removal_exec,
};
use crate::cop::report::{adds_offenses, emit_offense, lemma_offenses_empty, lemma_offenses_push};
use crate::correction::Correction;
use crate::diagnostic::{Diagnostic, Severity};
use crate::parse::source::{col_of, line_of, SourceFile};
use crate::cop::util::copy_range_to_vec;
use vstd::prelude::*;

verus! {

/// The `Lint/DuplicateRescueException` cop.
pub struct DuplicateRescueException;

/// One exception class named by a `rescue`, spanning `start..end`.
pub struct RescueExc {
    pub start: usize,
    pub end: usize,
}

/// Exceptions are the same when their texts are.
pub open spec fn exc_key(s: Seq<u8>, c: RescueExc) -> Seq<u8> {
    s.subrange(c.start as int, c.end as int)
}

/// The keys of the exceptions of each `rescue`, in order.
pub open spec fn rescue_keys(s: Seq<u8>, rescues: Seq<Vec<RescueExc>>) -> Seq<Seq<Seq<u8>>> {
    Seq::new(rescues.len(), |g: int| Seq::new(rescues[g]@.len(), |i: int| exc_key(s, rescues[g]@[i])))
}

/// Where each exception of one `rescue` lies.
pub open spec fn spans(excs: Seq<RescueExc>) -> Seq<(usize, usize)> {
    excs.map_values(|c: RescueExc| (c.start, c.end))
}

/// The offense of the duplicate exception at `p`; in a `rescue` with several
/// exceptions its edit removes it from the list.
pub open spec fn rescue_offense(s: Seq<u8>, rescues: Seq<Vec<RescueExc>>, p: (int, int)) -> (
    int,
    int,
    Seq<char>,
    Option<(int, int, Seq<char>)>,
) {
    let c = rescues[p.0]@[p.1];
    (
        line_of(s, c.start as int) as int,
        col_of(s, c.start as int) as int,
        "Duplicate `rescue` exception detected."@,
        list_removal(s, spans(rescues[p.0]@), p.1),
    )
}

pub open spec fn rescue_offense_list(s: Seq<u8>, rescues: Seq<Vec<RescueExc>>, ps: Seq<(int, int)>) -> Seq<
    (int, int, Seq<char>, Option<(int, int, Seq<char>)>),
> {
    ps.map_values(|p: (int, int)| rescue_offense(s, rescues, p))
}

/// One offense per exception that repeats an earlier one of the same `begin`.
pub open spec fn rescue_offenses(s: Seq<u8>, rescues: Seq<Vec<RescueExc>>) -> Seq<
    (int, int, Seq<char>, Option<(int, int, Seq<char>)>),
> {
    rescue_offense_list(s, rescues, all_dups(rescue_keys(s, rescues)))
}

pub open spec fn rescues_in_bounds(s: Seq<u8>, rescues: Seq<Vec<RescueExc>>) -> bool {
    forall|g: int, i: int|
        0 <= g < rescues.len() && 0 <= i < rescues[g]@.len() ==> #[trigger] rescues[g]@[i].start
            <= rescues[g]@[i].end <= s.len()
}

fn exc_key_exec(bytes: &[u8], c: &RescueExc) -> (r: Vec<u8>)
    requires
        c.start <= c.end <= bytes@.len(),
    ensures
        r@ == exc_key(bytes@, *c),
{
    copy_range_to_vec(bytes, c.start, c.end)
}

fn rescue_key_grid(bytes: &[u8], rescues: &Vec<Vec<RescueExc>>) -> (r: Vec<Vec<Vec<u8>>>)
    requires
        rescues_in_bounds(bytes@, rescues@),
    ensures
        grid_view(r@) == rescue_keys(bytes@, rescues@),
{
    let ghost want = rescue_keys(bytes@, rescues@);
    let mut keys: Vec<Vec<Vec<u8>>> = Vec::new();
    let mut g: usize = 0;
    while g < rescues.len()
        invariant
            g <= rescues@.len(),
            want == rescue_keys(bytes@, rescues@),
            rescues_in_bounds(bytes@, rescues@),
            keys@.len() == g,
            forall|h: int| 0 <= h < g ==> #[trigger] grid_view(keys@)[h] == want[h],
        decreases rescues@.len() - g,
    {
        let excs = &rescues[g];
        let mut row: Vec<Vec<u8>> = Vec::new();
        let mut i: usize = 0;
        while i < excs.len()
            invariant
                g < rescues@.len(),
                excs@ == rescues@[g as int]@,
                rescues_in_bounds(bytes@, rescues@),
                i <= excs@.len(),
                row@.len() == i,
                forall|j: int| 0 <= j < i ==> #[trigger] row@[j]@ == exc_key(bytes@, excs@[j]),
            decreases excs@.len() - i,
        {
            assert(excs@[i as int].start <= excs@[i as int].end <= bytes@.len());
            let k = exc_key_exec(bytes, &excs[i]);
            row.push(k);
            i = i + 1;
        }
        assert(row@.map_values(|k: Vec<u8>| k@) =~= want[g as int]);
        let ghost before = keys@;
        keys.push(row);
        assert forall|h: int| 0 <= h <= g implies #[trigger] grid_view(keys@)[h] == want[h] by {
            if h < g {
                assert(keys@[h] == before[h]);
                assert(grid_view(before)[h] == want[h]);
            }
        }
        g = g + 1;
    }
    assert(grid_view(keys@) =~= want);
    keys
}

fn spans_exec(excs: &Vec<RescueExc>) -> (r: Vec<(usize, usize)>)
    ensures
        r@ == spans(excs@),
{
    let mut out: Vec<(usize, usize)> = Vec::new();
    let mut i: usize = 0;
    while i < excs.len()
        invariant
            i <= excs@.len(),
            out@ == spans(excs@.subrange(0, i as int)),
        decreases excs@.len() - i,
    {
        out.push((excs[i].start, excs[i].end));
        assert(spans(excs@.subrange(0, i + 1)) =~= spans(excs@.subrange(0, i as int)).push(
            (excs@[i as int].start, excs@[i as int].end),
        ));
        i = i + 1;
    }
    assert(excs@.subrange(0, excs@.len() as int) =~= excs@);
    out
}

impl DuplicateRescueException {
    pub fn name(&self) -> (r: &'static str)
        ensures
            r@ == "Lint/DuplicateRescueException"@,
    {
        "Lint/DuplicateRescueException"
    }

    pub fn default_severity(&self) -> (r: Severity)
        ensures
            r == Severity::Warning,
    {
        Severity::Warning
    }

    pub fn supports_autocorrect(&self) -> (r: bool)
        ensures
            r == true,
    {
        true
    }

    /// Checks one `begin`, given the exceptions of each of its `rescue` clauses.
    pub fn check_node(
        &self,
        source: &SourceFile,
        rescues: &Vec<Vec<RescueExc>>,
        diagnostics: &mut Vec<Diagnostic>,
        corrections: &mut Vec<Correction>,
        autocorrect: bool,
    )
        requires
            rescues_in_bounds(source@, rescues@),
        ensures
            adds_offenses(
                old(diagnostics)@,
                final(diagnostics)@,
                old(corrections)@,
                final(corrections)@,
                source.spec_path(),
                "Lint/DuplicateRescueException"@,
                Severity::Warning,
                rescue_offenses(source@, rescues@),
                autocorrect,
            ),
    {
        let bytes = source.as_bytes();
        let keys = rescue_key_grid(bytes, rescues);
        let ghost kv = rescue_keys(source@, rescues@);
        proof {
            lemma_offenses_empty(
                diagnostics@,
                corrections@,
                source.spec_path(),
                "Lint/DuplicateRescueException"@,
                Severity::Warning,
                autocorrect,
            );
            assert(rescue_offense_list(source@, rescues@, dup_positions(kv, 0, 0)) =~= Seq::empty());
        }
        let mut g: usize = 0;
        while g < rescues.len()
            invariant
                g <= rescues@.len(),
                bytes@ == source@,
                kv == rescue_keys(source@, rescues@),
                grid_view(keys@) == kv,
                rescues_in_bounds(source@, rescues@),
                adds_offenses(
                    old(diagnostics)@,
                    diagnostics@,
                    old(corrections)@,
                    corrections@,
                    source.spec_path(),
                    "Lint/DuplicateRescueException"@,
                    Severity::Warning,
                    rescue_offense_list(source@, rescues@, dup_positions(kv, g as nat, 0)),
                    autocorrect,
                ),
            decreases rescues@.len() - g,
        {
            let excs = &rescues[g];
            let sp = spans_exec(excs);
            proof {
                if g > 0 {
                    assert(dup_positions(kv, g as nat, 0) == dup_positions(
                        kv,
                        (g - 1) as nat,
                        kv[g - 1].len(),
                    ));
                }
            }
            assert(dup_positions(kv, g as nat, 0) == dup_positions(kv, g as nat, 0));
            let mut i: usize = 0;
            while i < excs.len()
                invariant
                    g < rescues@.len(),
                    excs@ == rescues@[g as int]@,
                    sp@ == spans(excs@),
                    i <= excs@.len(),
                    bytes@ == source@,
                    kv == rescue_keys(source@, rescues@),
                    grid_view(keys@) == kv,
                    rescues_in_bounds(source@, rescues@),
                    adds_offenses(
                        old(diagnostics)@,
                        diagnostics@,
                        old(corrections)@,
                        corrections@,
                        source.spec_path(),
                        "Lint/DuplicateRescueException"@,
                        Severity::Warning,
                        rescue_offense_list(source@, rescues@, dup_positions(kv, g as nat, i as nat)),
                        autocorrect,
                    ),
                decreases excs@.len() - i,
            {
                let ghost ps = dup_positions(kv, g as nat, i as nat);
                assert(kv[g as int].len() == excs@.len());
                assert(grid_view(keys@).len() == keys@.len());
                assert(grid_view(keys@)[g as int].len() == keys@[g as int]@.len());
                if dup_at(&keys, g, i) {
                    let c = &excs[i];
                    assert(c.start <= c.end <= source@.len());
                    let (line, col) = source.offset_to_line_col(c.start);
                    proof {
                        assert forall|k: int| 0 <= k < sp@.len() implies #[trigger] sp@[k].0
                            <= sp@[k].1 <= bytes@.len() by {
                            assert(excs@[k].start <= excs@[k].end <= source@.len());
                        }
                    }
                    let edit = list_removal_exec(bytes, &sp, i);
                    let ghost mid_d = diagnostics@;
                    let ghost mid_c = corrections@;
                    emit_offense(
                        diagnostics,
                        corrections,
                        autocorrect,
                        source,
                        "Lint/DuplicateRescueException",
                        Severity::Warning,
                        line,
                        col,
                        "Duplicate `rescue` exception detected.".to_owned(),
                        edit,
                    );
                    proof {
                        let o = rescue_offense(source@, rescues@, (g as int, i as int));
                        lemma_offenses_push(
                            old(diagnostics)@,
                            mid_d,
                            diagnostics@,
                            old(corrections)@,
                            mid_c,
                            corrections@,
                            source.spec_path(),
                            "Lint/DuplicateRescueException"@,
                            Severity::Warning,
                            rescue_offense_list(source@, rescues@, ps),
                            o,
                            autocorrect,
                        );
                        assert(dup_positions(kv, g as nat, (i + 1) as nat) == ps.push(
                            (g as int, i as int),
                        ));
                        assert(rescue_offense_list(source@, rescues@, ps.push((g as int, i as int)))
                            =~= rescue_offense_list(source@, rescues@, ps).push(o));
                    }
                } else {
                    assert(dup_positions(kv, g as nat, (i + 1) as nat) == ps);
                }
                i = i + 1;
            }
            assert(dup_positions(kv, (g + 1) as nat, 0) == dup_positions(
                kv,
                g as nat,
                kv[g as int].len(),
            ));
            g = g + 1;
        }
    }
}

} // verus!
