use crate::correction::Correction;
use crate::diagnostic::{new_diagnostic, reports, Diagnostic, Severity};
use crate::parse::source::SourceFile;
use vstd::prelude::*;

verus! {

/// `new` is `old` followed by one report per element of `offs`, each at the
/// given (line, column) with the given message.
pub open spec fn extends_with_reports(
    old: Seq<Diagnostic>,
    new: Seq<Diagnostic>,
    path: Seq<char>,
    cop: Seq<char>,
    sev: Severity,
    offs: Seq<(int, int, Seq<char>)>,
    corrected: bool,
) -> bool {
    &&& new.len() == old.len() + offs.len()
    &&& new.subrange(0, old.len() as int) == old
    &&& forall|k: int|
        0 <= k < offs.len() ==> reports(
            #[trigger] new[old.len() + k],
            path,
            cop,
            sev,
            offs[k].0,
            offs[k].1,
            offs[k].2,
            corrected,
        )
}

/// `c` replaces `start..end` by `repl` on behalf of cop `cop`.
pub open spec fn edits(c: Correction, cop: Seq<char>, start: int, end: int, repl: Seq<char>) -> bool {
    &&& c.start == start
    &&& c.end == end
    &&& c.replacement@ == repl
    &&& c.cop_name@ == cop
    &&& c.cop_index == 0
}

/// `new` is `old` followed by one correction per element of `eds`
/// (start, end, replacement).
pub open spec fn extends_with_edits(
    old: Seq<Correction>,
    new: Seq<Correction>,
    cop: Seq<char>,
    eds: Seq<(int, int, Seq<char>)>,
) -> bool {
    &&& new.len() == old.len() + eds.len()
    &&& new.subrange(0, old.len() as int) == old
    &&& forall|k: int|
        0 <= k < eds.len() ==> edits(#[trigger] new[old.len() + k], cop, eds[k].0, eds[k].1, eds[k].2)
}

pub proof fn lemma_reports_empty(
    old: Seq<Diagnostic>,
    path: Seq<char>,
    cop: Seq<char>,
    sev: Severity,
    corrected: bool,
)
    ensures
        extends_with_reports(old, old, path, cop, sev, Seq::empty(), corrected),
{
    assert(old.subrange(0, old.len() as int) =~= old);
}

pub proof fn lemma_edits_empty(old: Seq<Correction>, cop: Seq<char>)
    ensures
        extends_with_edits(old, old, cop, Seq::empty()),
{
    assert(old.subrange(0, old.len() as int) =~= old);
}

/// Appends the report of one offense, and, when `autocorrect` holds, the
/// correction that replaces `start..end` by `repl`.
pub fn push_offense(
    diagnostics: &mut Vec<Diagnostic>,
    corrections: &mut Vec<Correction>,
    autocorrect: bool,
    source: &SourceFile,
    cop: &str,
    sev: Severity,
    line: usize,
    column: usize,
    message: String,
    start: usize,
    end: usize,
    repl: &str,
)
    ensures
        final(diagnostics)@.len() == old(diagnostics)@.len() + 1,
        final(diagnostics)@.drop_last() == old(diagnostics)@,
        reports(
            final(diagnostics)@.last(),
            source.spec_path(),
            cop@,
            sev,
            line as int,
            column as int,
            message@,
            autocorrect,
        ),
        autocorrect ==> final(corrections)@.len() == old(corrections)@.len() + 1,
        autocorrect ==> final(corrections)@.drop_last() == old(corrections)@,
        autocorrect ==> edits(final(corrections)@.last(), cop@, start as int, end as int, repl@),
        !autocorrect ==> final(corrections)@ == old(corrections)@,
{
    let mut d = new_diagnostic(source, cop, sev, line, column, message);
    if autocorrect {
        corrections.push(
            Correction {
                start,
                end,
                replacement: repl.to_owned(),
                cop_name: cop.to_owned(),
                cop_index: 0,
            },
        );
        d.corrected = true;
    }
    diagnostics.push(d);
    assert(diagnostics@.drop_last() =~= old(diagnostics)@);
    if autocorrect {
        assert(corrections@.drop_last() =~= old(corrections)@);
    }
}

pub proof fn lemma_reports_push(
    old: Seq<Diagnostic>,
    mid: Seq<Diagnostic>,
    new: Seq<Diagnostic>,
    path: Seq<char>,
    cop: Seq<char>,
    sev: Severity,
    offs: Seq<(int, int, Seq<char>)>,
    o: (int, int, Seq<char>),
    corrected: bool,
)
    requires
        extends_with_reports(old, mid, path, cop, sev, offs, corrected),
        new.len() == mid.len() + 1,
        new.drop_last() == mid,
        reports(new.last(), path, cop, sev, o.0, o.1, o.2, corrected),
    ensures
        extends_with_reports(old, new, path, cop, sev, offs.push(o), corrected),
{
    let offs2 = offs.push(o);
    assert(new.subrange(0, old.len() as int) =~= mid.subrange(0, old.len() as int));
    assert forall|k: int| 0 <= k < offs2.len() implies reports(
        #[trigger] new[old.len() + k],
        path,
        cop,
        sev,
        offs2[k].0,
        offs2[k].1,
        offs2[k].2,
        corrected,
    ) by {
        if k < offs.len() {
            assert(new[old.len() + k] == mid[old.len() + k]);
        }
    }
}

pub proof fn lemma_edits_push(
    old: Seq<Correction>,
    mid: Seq<Correction>,
    new: Seq<Correction>,
    cop: Seq<char>,
    eds: Seq<(int, int, Seq<char>)>,
    e: (int, int, Seq<char>),
)
    requires
        extends_with_edits(old, mid, cop, eds),
        new.len() == mid.len() + 1,
        new.drop_last() == mid,
        edits(new.last(), cop, e.0, e.1, e.2),
    ensures
        extends_with_edits(old, new, cop, eds.push(e)),
{
    let eds2 = eds.push(e);
    assert(new.subrange(0, old.len() as int) =~= mid.subrange(0, old.len() as int));
    assert forall|k: int| 0 <= k < eds2.len() implies edits(
        #[trigger] new[old.len() + k],
        cop,
        eds2[k].0,
        eds2[k].1,
        eds2[k].2,
    ) by {
        if k < eds.len() {
            assert(new[old.len() + k] == mid[old.len() + k]);
        }
    }
}


/// Two extensions in a row are one extension by both lists of edits.
pub proof fn lemma_edits_concat(
    a: Seq<Correction>,
    b: Seq<Correction>,
    c: Seq<Correction>,
    cop: Seq<char>,
    e1: Seq<(int, int, Seq<char>)>,
    e2: Seq<(int, int, Seq<char>)>,
)
    requires
        extends_with_edits(a, b, cop, e1),
        extends_with_edits(b, c, cop, e2),
    ensures
        extends_with_edits(a, c, cop, e1 + e2),
{
    let e = e1 + e2;
    assert(c.subrange(0, a.len() as int) =~= b.subrange(0, a.len() as int)) by {
        assert forall|k: int| 0 <= k < a.len() implies c[k] == b[k] by {
            assert(c.subrange(0, b.len() as int)[k] == c[k]);
        }
    }
    assert forall|k: int| 0 <= k < e.len() implies edits(
        #[trigger] c[a.len() + k],
        cop,
        e[k].0,
        e[k].1,
        e[k].2,
    ) by {
        if k < e1.len() {
            assert(c.subrange(0, b.len() as int)[a.len() + k] == c[a.len() + k]);
            assert(c[a.len() + k] == b[a.len() + k]);
        } else {
            let j = k - e1.len();
            assert(c[b.len() + j] == c[a.len() + k]);
        }
    }
}


/// `new` is `old` followed by one report per element of `offs`, each at the
/// given (line, column) with the given message; a report is marked corrected
/// when `autocorrect` holds and its flag is set.
pub open spec fn extends_with_flagged_reports(
    old: Seq<Diagnostic>,
    new: Seq<Diagnostic>,
    path: Seq<char>,
    cop: Seq<char>,
    sev: Severity,
    offs: Seq<(int, int, Seq<char>, bool)>,
    autocorrect: bool,
) -> bool {
    &&& new.len() == old.len() + offs.len()
    &&& new.subrange(0, old.len() as int) == old
    &&& forall|k: int|
        0 <= k < offs.len() ==> reports(
            #[trigger] new[old.len() + k],
            path,
            cop,
            sev,
            offs[k].0,
            offs[k].1,
            offs[k].2,
            autocorrect && offs[k].3,
        )
}

pub proof fn lemma_flagged_reports_push(
    old: Seq<Diagnostic>,
    mid: Seq<Diagnostic>,
    new: Seq<Diagnostic>,
    path: Seq<char>,
    cop: Seq<char>,
    sev: Severity,
    offs: Seq<(int, int, Seq<char>, bool)>,
    o: (int, int, Seq<char>, bool),
    autocorrect: bool,
)
    requires
        extends_with_flagged_reports(old, mid, path, cop, sev, offs, autocorrect),
        new.len() == mid.len() + 1,
        new.drop_last() == mid,
        reports(new.last(), path, cop, sev, o.0, o.1, o.2, autocorrect && o.3),
    ensures
        extends_with_flagged_reports(old, new, path, cop, sev, offs.push(o), autocorrect),
{
    let offs2 = offs.push(o);
    assert(new.subrange(0, old.len() as int) =~= mid.subrange(0, old.len() as int));
    assert forall|k: int| 0 <= k < offs2.len() implies reports(
        #[trigger] new[old.len() + k],
        path,
        cop,
        sev,
        offs2[k].0,
        offs2[k].1,
        offs2[k].2,
        autocorrect && offs2[k].3,
    ) by {
        if k < offs.len() {
            assert(new[old.len() + k] == mid[old.len() + k]);
        }
    }
}


/// Two extensions in a row are one extension by both lists of reports.
pub proof fn lemma_reports_concat(
    a: Seq<Diagnostic>,
    b: Seq<Diagnostic>,
    c: Seq<Diagnostic>,
    path: Seq<char>,
    cop: Seq<char>,
    sev: Severity,
    o1: Seq<(int, int, Seq<char>)>,
    o2: Seq<(int, int, Seq<char>)>,
    corrected: bool,
)
    requires
        extends_with_reports(a, b, path, cop, sev, o1, corrected),
        extends_with_reports(b, c, path, cop, sev, o2, corrected),
    ensures
        extends_with_reports(a, c, path, cop, sev, o1 + o2, corrected),
{
    let o = o1 + o2;
    assert(c.subrange(0, a.len() as int) =~= b.subrange(0, a.len() as int)) by {
        assert forall|k: int| 0 <= k < a.len() implies c[k] == b[k] by {
            assert(c.subrange(0, b.len() as int)[k] == c[k]);
        }
    }
    assert forall|k: int| 0 <= k < o.len() implies reports(
        #[trigger] c[a.len() + k],
        path,
        cop,
        sev,
        o[k].0,
        o[k].1,
        o[k].2,
        corrected,
    ) by {
        if k < o1.len() {
            assert(c.subrange(0, b.len() as int)[a.len() + k] == c[a.len() + k]);
            assert(c[a.len() + k] == b[a.len() + k]);
        } else {
            let j = k - o1.len();
            assert(c[b.len() + j] == c[a.len() + k]);
        }
    }
}


/// The lists grew by what one offense `o` reports: nothing for `None`; else
/// one report (line, column, message), corrected when `autocorrect` holds and
/// the offense has an edit, and that edit (start, end, replacement) when
/// `autocorrect` holds.
pub open spec fn adds_offense(
    old_d: Seq<Diagnostic>,
    new_d: Seq<Diagnostic>,
    old_c: Seq<Correction>,
    new_c: Seq<Correction>,
    path: Seq<char>,
    cop: Seq<char>,
    sev: Severity,
    o: Option<(int, int, Seq<char>, Option<(int, int, Seq<char>)>)>,
    autocorrect: bool,
) -> bool {
    match o {
        None => new_d == old_d && new_c == old_c,
        Some((line, col, msg, edit)) => {
            &&& new_d.len() == old_d.len() + 1
            &&& new_d.drop_last() == old_d
            &&& reports(new_d.last(), path, cop, sev, line, col, msg, autocorrect && edit is Some)
            &&& match edit {
                Some((a, b, r)) => if autocorrect {
                    &&& new_c.len() == old_c.len() + 1
                    &&& new_c.drop_last() == old_c
                    &&& edits(new_c.last(), cop, a, b, r)
                } else {
                    new_c == old_c
                },
                None => new_c == old_c,
            }
        },
    }
}

/// Appends one report and, with `autocorrect`, its edit if it has one.
pub fn emit_offense(
    diagnostics: &mut Vec<Diagnostic>,
    corrections: &mut Vec<Correction>,
    autocorrect: bool,
    source: &SourceFile,
    cop: &str,
    sev: Severity,
    line: usize,
    column: usize,
    message: String,
    edit: Option<(usize, usize, String)>,
)
    ensures
        adds_offense(
            old(diagnostics)@,
            final(diagnostics)@,
            old(corrections)@,
            final(corrections)@,
            source.spec_path(),
            cop@,
            sev,
            Some(
                (
                    line as int,
                    column as int,
                    message@,
                    match edit {
                        Some(e) => Some((e.0 as int, e.1 as int, e.2@)),
                        None => None,
                    },
                ),
            ),
            autocorrect,
        ),
{
    let mut d = new_diagnostic(source, cop, sev, line, column, message);
    match edit {
        Some((a, b, r)) => {
            if autocorrect {
                corrections.push(
                    Correction {
                        start: a,
                        end: b,
                        replacement: r,
                        cop_name: cop.to_owned(),
                        cop_index: 0,
                    },
                );
                assert(corrections@.drop_last() =~= old(corrections)@);
                d.corrected = true;
            }
        },
        None => {},
    }
    diagnostics.push(d);
    assert(diagnostics@.drop_last() =~= old(diagnostics)@);
}


/// The edits that a list of offenses carries, in order.
pub open spec fn offense_edits(
    offs: Seq<(int, int, Seq<char>, Option<(int, int, Seq<char>)>)>,
) -> Seq<(int, int, Seq<char>)>
    decreases offs.len(),
{
    if offs.len() == 0 {
        Seq::empty()
    } else {
        let r = offense_edits(offs.drop_last());
        match offs.last().3 {
            Some(e) => r.push(e),
            None => r,
        }
    }
}

/// The lists grew by what the offenses `offs` report, in order: one report
/// each (corrected when `autocorrect` holds and it has an edit), and, when
/// `autocorrect` holds, the edits they carry.
pub open spec fn adds_offenses(
    old_d: Seq<Diagnostic>,
    new_d: Seq<Diagnostic>,
    old_c: Seq<Correction>,
    new_c: Seq<Correction>,
    path: Seq<char>,
    cop: Seq<char>,
    sev: Severity,
    offs: Seq<(int, int, Seq<char>, Option<(int, int, Seq<char>)>)>,
    autocorrect: bool,
) -> bool {
    &&& extends_with_flagged_reports(
        old_d,
        new_d,
        path,
        cop,
        sev,
        offs.map_values(|o: (int, int, Seq<char>, Option<(int, int, Seq<char>)>)| (o.0, o.1, o.2, o.3 is Some)),
        autocorrect,
    )
    &&& extends_with_edits(
        old_c,
        new_c,
        cop,
        if autocorrect {
            offense_edits(offs)
        } else {
            Seq::empty()
        },
    )
}

pub proof fn lemma_offenses_empty(
    d: Seq<Diagnostic>,
    c: Seq<Correction>,
    path: Seq<char>,
    cop: Seq<char>,
    sev: Severity,
    autocorrect: bool,
)
    ensures
        adds_offenses(d, d, c, c, path, cop, sev, Seq::empty(), autocorrect),
{
    assert(d.subrange(0, d.len() as int) =~= d);
    assert(c.subrange(0, c.len() as int) =~= c);
    let e: Seq<(int, int, Seq<char>, Option<(int, int, Seq<char>)>)> = Seq::empty();
    assert(offense_edits(e) =~= Seq::empty());
}

/// Adding one more offense after a list of them.
pub proof fn lemma_offenses_push(
    old_d: Seq<Diagnostic>,
    mid_d: Seq<Diagnostic>,
    new_d: Seq<Diagnostic>,
    old_c: Seq<Correction>,
    mid_c: Seq<Correction>,
    new_c: Seq<Correction>,
    path: Seq<char>,
    cop: Seq<char>,
    sev: Severity,
    offs: Seq<(int, int, Seq<char>, Option<(int, int, Seq<char>)>)>,
    o: (int, int, Seq<char>, Option<(int, int, Seq<char>)>),
    autocorrect: bool,
)
    requires
        adds_offenses(old_d, mid_d, old_c, mid_c, path, cop, sev, offs, autocorrect),
        adds_offense(mid_d, new_d, mid_c, new_c, path, cop, sev, Some(o), autocorrect),
    ensures
        adds_offenses(old_d, new_d, old_c, new_c, path, cop, sev, offs.push(o), autocorrect),
{
    let f = |o: (int, int, Seq<char>, Option<(int, int, Seq<char>)>)| (o.0, o.1, o.2, o.3 is Some);
    assert(offs.push(o).map_values(f) =~= offs.map_values(f).push(f(o)));
    lemma_flagged_reports_push(old_d, mid_d, new_d, path, cop, sev, offs.map_values(f), f(o), autocorrect);
    let offs2 = offs.push(o);
    assert(offs2.drop_last() =~= offs);
    if autocorrect {
        match o.3 {
            Some(e) => {
                lemma_edits_push(old_c, mid_c, new_c, cop, offense_edits(offs), e);
            },
            None => {},
        }
    }
}


/// The diagnostics grew by the report `o` (uncorrected), or not at all.
pub open spec fn adds_report(
    old_d: Seq<Diagnostic>,
    new_d: Seq<Diagnostic>,
    path: Seq<char>,
    cop: Seq<char>,
    sev: Severity,
    o: Option<(int, int, Seq<char>)>,
) -> bool {
    match o {
        None => new_d == old_d,
        Some((line, col, msg)) => {
            &&& new_d.len() == old_d.len() + 1
            &&& new_d.drop_last() == old_d
            &&& reports(new_d.last(), path, cop, sev, line, col, msg, false)
        },
    }
}

} // verus!
