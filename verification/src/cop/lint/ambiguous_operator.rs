use crate::cop::report::{
    extends_with_edits, extends_with_flagged_reports, lemma_edits_empty, lemma_edits_push,
    lemma_flagged_reports_push, edits,
};
use crate::cop::text::{text_contains, text_contains_exec};
use crate::correction::Correction;
use crate::diagnostic::{new_diagnostic, Diagnostic, Severity};
use crate::parse::source::{col_of, line_of, SourceFile};
use vstd::prelude::*;

verus! {

/// Checks for ambiguous operators in the first argument of a method invocation without
/// parentheses. For example, `do_something *some_array` where `*` could be interpreted as
/// either a splat or multiplication.
pub struct AmbiguousOperator;

/// A warning of the parser: where it starts and what it says.
pub struct ParseWarning {
    pub start: usize,
    pub message: String,
}

/// A call, as far as its arguments can be wrapped in parentheses.
pub struct ArgCall {
    /// The call already has an opening parenthesis.
    pub has_opening: bool,
    /// Where each argument starts and ends.
    pub args: Vec<(usize, usize)>,
    /// Where a block argument (`&blk`) starts and ends.
    pub block_arg: Option<(usize, usize)>,
    /// Where the method name ends.
    pub message_end: Option<usize>,
}

/// Where parentheses go around the arguments of a call: the text from the
/// end of the method name to the first argument becomes `(`, and `)` goes
/// after the last argument. `warning_offset` is where the first argument starts.
#[derive(Clone, Copy)]
pub struct ArgRange {
    pub warning_offset: usize,
    pub open_replace_start: usize,
    pub open_replace_end: usize,
    pub args_end: usize,
}

/// The range of a call without parentheses that has an argument (or a
/// block argument) and a method name.
pub open spec fn arg_range(c: ArgCall) -> Option<ArgRange> {
    if c.has_opening {
        None
    } else {
        let span: Option<(usize, usize)> = if c.args@.len() > 0 {
            Some((c.args@[0].0, c.args@.last().1))
        } else {
            c.block_arg
        };
        match (span, c.message_end) {
            (Some((w, e)), Some(m)) => Some(
                ArgRange { warning_offset: w, open_replace_start: m, open_replace_end: w, args_end: e },
            ),
            _ => None,
        }
    }
}

/// The ranges of the calls that have one, in order.
pub open spec fn arg_ranges(calls: Seq<ArgCall>) -> Seq<ArgRange>
    decreases calls.len(),
{
    if calls.len() == 0 {
        Seq::empty()
    } else {
        let r = arg_ranges(calls.drop_last());
        match arg_range(calls.last()) {
            Some(x) => r.push(x),
            None => r,
        }
    }
}

/// The first range from index `i` on whose argument starts at `off`.
pub open spec fn range_at(rs: Seq<ArgRange>, off: int, i: int) -> Option<ArgRange>
    decreases rs.len() - i,
{
    if i < 0 || i >= rs.len() {
        None
    } else if rs[i].warning_offset == off {
        Some(rs[i])
    } else {
        range_at(rs, off, i + 1)
    }
}

/// What a warning message names: the operator as read, the operator, and
/// what it might have meant.
pub open spec fn ambiguity(m: Seq<char>) -> Option<(Seq<char>, Seq<char>, Seq<char>)> {
    if text_contains(m, "ambiguous `*`"@) && !text_contains(m, "`**`"@) {
        Some(("splat"@, "*"@, "a multiplication"@))
    } else if text_contains(m, "ambiguous `**`"@) {
        Some(("keyword splat"@, "**"@, "an exponent"@))
    } else if text_contains(m, "ambiguous `&`"@) {
        Some(("block"@, "&"@, "a binary AND"@))
    } else if text_contains(m, "after `+` operator"@) {
        Some(("positive number"@, "+"@, "an addition"@))
    } else if text_contains(m, "after `-` operator"@) {
        Some(("negative number"@, "-"@, "a subtraction"@))
    } else {
        None
    }
}

pub open spec fn ambiguity_message(actual: Seq<char>, op: Seq<char>, possible: Seq<char>) -> Seq<char> {
    "Ambiguous "@ + actual + " operator. Parenthesize the method arguments if it's surely a "@
        + actual + " operator, or add a whitespace to the right of the `"@ + op
        + "` if it should be "@ + possible + "."@
}

/// The report of a warning: where it starts, its message, and whether a
/// range of a call lets it be corrected.
pub open spec fn warning_report(s: Seq<u8>, w: ParseWarning, rs: Seq<ArgRange>) -> Option<
    (int, int, Seq<char>, bool),
> {
    match ambiguity(w.message@) {
        Some((a, o, p)) => Some(
            (
                line_of(s, w.start as int) as int,
                col_of(s, w.start as int) as int,
                ambiguity_message(a, o, p),
                range_at(rs, w.start as int, 0) is Some,
            ),
        ),
        None => None,
    }
}

/// The edits of a warning: `(` over the text between the method name and
/// the first argument, and `)` after the last argument.
pub open spec fn warning_edits(w: ParseWarning, rs: Seq<ArgRange>) -> Seq<(int, int, Seq<char>)> {
    match (ambiguity(w.message@), range_at(rs, w.start as int, 0)) {
        (Some(_), Some(r)) => seq![
            (r.open_replace_start as int, r.open_replace_end as int, "("@),
            (r.args_end as int, r.args_end as int, ")"@),
        ],
        _ => Seq::empty(),
    }
}

/// The reports of the warnings, in order.
pub open spec fn warning_reports(s: Seq<u8>, ws: Seq<ParseWarning>, rs: Seq<ArgRange>) -> Seq<
    (int, int, Seq<char>, bool),
>
    decreases ws.len(),
{
    if ws.len() == 0 {
        Seq::empty()
    } else {
        let r = warning_reports(s, ws.drop_last(), rs);
        match warning_report(s, ws.last(), rs) {
            Some(x) => r.push(x),
            None => r,
        }
    }
}

/// The edits of the warnings, in order.
pub open spec fn all_warning_edits(ws: Seq<ParseWarning>, rs: Seq<ArgRange>) -> Seq<(int, int, Seq<char>)>
    decreases ws.len(),
{
    if ws.len() == 0 {
        Seq::empty()
    } else {
        all_warning_edits(ws.drop_last(), rs) + warning_edits(ws.last(), rs)
    }
}

/// The range of one call, if parentheses can go around its arguments.
pub fn argument_range(c: &ArgCall) -> (r: Option<ArgRange>)
    ensures
        r == arg_range(*c),
{
    if c.has_opening {
        return None;
    }
    let span = if c.args.len() > 0 {
        Some((c.args[0].0, c.args[c.args.len() - 1].1))
    } else {
        c.block_arg
    };
    match (span, c.message_end) {
        (Some((w, e)), Some(m)) => Some(
            ArgRange { warning_offset: w, open_replace_start: m, open_replace_end: w, args_end: e },
        ),
        _ => None,
    }
}

fn collect_ranges(calls: &Vec<ArgCall>) -> (r: Vec<ArgRange>)
    ensures
        r@ == arg_ranges(calls@),
{
    let mut out: Vec<ArgRange> = Vec::new();
    let mut k: usize = 0;
    while k < calls.len()
        invariant
            k <= calls@.len(),
            out@ == arg_ranges(calls@.subrange(0, k as int)),
        decreases calls@.len() - k,
    {
        assert(calls@.subrange(0, k + 1).drop_last() =~= calls@.subrange(0, k as int));
        match argument_range(&calls[k]) {
            Some(x) => out.push(x),
            None => {},
        }
        k = k + 1;
    }
    assert(calls@.subrange(0, calls@.len() as int) =~= calls@);
    out
}

fn find_range(rs: &Vec<ArgRange>, off: usize) -> (r: Option<ArgRange>)
    ensures
        r == range_at(rs@, off as int, 0),
{
    let mut i: usize = 0;
    while i < rs.len()
        invariant
            i <= rs@.len(),
            range_at(rs@, off as int, 0) == range_at(rs@, off as int, i as int),
        decreases rs@.len() - i,
    {
        if rs[i].warning_offset == off {
            return Some(rs[i]);
        }
        i = i + 1;
    }
    None
}

fn ambiguity_exec(m: &String) -> (r: Option<(&'static str, &'static str, &'static str)>)
    ensures
        match ambiguity(m@) {
            Some((a, o, p)) => r matches Some(x) && x.0@ == a && x.1@ == o && x.2@ == p,
            None => r is None,
        },
{
    let t = m.as_str();
    if text_contains_exec(t, "ambiguous `*`") && !text_contains_exec(t, "`**`") {
        Some(("splat", "*", "a multiplication"))
    } else if text_contains_exec(t, "ambiguous `**`") {
        Some(("keyword splat", "**", "an exponent"))
    } else if text_contains_exec(t, "ambiguous `&`") {
        Some(("block", "&", "a binary AND"))
    } else if text_contains_exec(t, "after `+` operator") {
        Some(("positive number", "+", "an addition"))
    } else if text_contains_exec(t, "after `-` operator") {
        Some(("negative number", "-", "a subtraction"))
    } else {
        None
    }
}

fn correction(start: usize, end: usize, text: &str) -> (c: Correction)
    ensures
        edits(c, "Lint/AmbiguousOperator"@, start as int, end as int, text@),
{
    Correction {
        start,
        end,
        replacement: text.to_owned(),
        cop_name: "Lint/AmbiguousOperator".to_owned(),
        cop_index: 0,
    }
}

impl AmbiguousOperator {
    pub fn name(&self) -> (r: &'static str)
        ensures
            r@ == "Lint/AmbiguousOperator"@,
    {
        "Lint/AmbiguousOperator"
    }

    pub fn default_severity(&self) -> (r: Severity)
        ensures
            r == Severity::Warning,
    {
        Severity::Warning
    }

    pub fn supports_autocorrect(&self) -> (r: bool)
        ensures
            r == true,
    {
        true
    }

    /// Reports each parser warning about an ambiguous operator, in order;
    /// with `autocorrect`, parenthesizes the arguments of the call whose
    /// first argument starts where the warning does.
    pub fn check_source(
        &self,
        source: &SourceFile,
        warnings: &Vec<ParseWarning>,
        calls: &Vec<ArgCall>,
        diagnostics: &mut Vec<Diagnostic>,
        corrections: &mut Vec<Correction>,
        autocorrect: bool,
    )
        requires
            forall|k: int| 0 <= k < warnings@.len() ==> #[trigger] warnings@[k].start <= source@.len(),
        ensures
            extends_with_flagged_reports(
                old(diagnostics)@,
                final(diagnostics)@,
                source.spec_path(),
                "Lint/AmbiguousOperator"@,
                Severity::Warning,
                warning_reports(source@, warnings@, arg_ranges(calls@)),
                autocorrect,
            ),
            extends_with_edits(
                old(corrections)@,
                final(corrections)@,
                "Lint/AmbiguousOperator"@,
                if autocorrect {
                    all_warning_edits(warnings@, arg_ranges(calls@))
                } else {
                    Seq::empty()
                },
            ),
    {
        let ranges = collect_ranges(calls);
        let ghost rs = ranges@;
        let ghost path = source.spec_path();
        let ghost cop = "Lint/AmbiguousOperator"@;
        proof {
            assert(diagnostics@.subrange(0, diagnostics@.len() as int) =~= diagnostics@);
            lemma_edits_empty(corrections@, cop);
        }
        let mut k: usize = 0;
        while k < warnings.len()
            invariant
                k <= warnings@.len(),
                rs == arg_ranges(calls@),
                rs == ranges@,
                cop == "Lint/AmbiguousOperator"@,
                path == source.spec_path(),
                forall|j: int| 0 <= j < warnings@.len() ==> #[trigger] warnings@[j].start <= source@.len(),
                extends_with_flagged_reports(
                    old(diagnostics)@,
                    diagnostics@,
                    path,
                    cop,
                    Severity::Warning,
                    warning_reports(source@, warnings@.subrange(0, k as int), rs),
                    autocorrect,
                ),
                extends_with_edits(
                    old(corrections)@,
                    corrections@,
                    cop,
                    if autocorrect {
                        all_warning_edits(warnings@.subrange(0, k as int), rs)
                    } else {
                        Seq::empty()
                    },
                ),
            decreases warnings@.len() - k,
        {
            let w = &warnings[k];
            let ghost done = warnings@.subrange(0, k as int);
            assert(warnings@.subrange(0, k + 1).drop_last() =~= done);
            assert(warnings@.subrange(0, k + 1).last() == *w);
            let ghost eds0 = if autocorrect {
                all_warning_edits(done, rs)
            } else {
                Seq::<(int, int, Seq<char>)>::empty()
            };
            match ambiguity_exec(&w.message) {
                None => {
                    assert(warning_edits(*w, rs) =~= Seq::<(int, int, Seq<char>)>::empty());
                    assert(all_warning_edits(done, rs) + warning_edits(*w, rs) =~= all_warning_edits(
                        done,
                        rs,
                    ));
                },
                Some((actual, op, possible)) => {
                    let mut msg = "Ambiguous ".to_owned();
                    msg.append(actual);
                    msg.append(" operator. Parenthesize the method arguments if it's surely a ");
                    msg.append(actual);
                    msg.append(" operator, or add a whitespace to the right of the `");
                    msg.append(op);
                    msg.append("` if it should be ");
                    msg.append(possible);
                    msg.append(".");
                    let ghost m = msg@;
                    assert(m == ambiguity_message(actual@, op@, possible@));
                    let (line, col) = source.offset_to_line_col(w.start);
                    let mut d = new_diagnostic(source, "Lint/AmbiguousOperator", Severity::Warning, line, col, msg);
                    let found = find_range(&ranges, w.start);
                    let ghost has = found is Some;
                    match found {
                        Some(r) => {
                            if autocorrect {
                                let ghost c0 = corrections@;
                                corrections.push(correction(r.open_replace_start, r.open_replace_end, "("));
                                proof {
                                    assert(corrections@.drop_last() =~= c0);
                                    lemma_edits_push(
                                        old(corrections)@,
                                        c0,
                                        corrections@,
                                        cop,
                                        eds0,
                                        (r.open_replace_start as int, r.open_replace_end as int, "("@),
                                    );
                                }
                                let ghost c1 = corrections@;
                                corrections.push(correction(r.args_end, r.args_end, ")"));
                                proof {
                                    assert(corrections@.drop_last() =~= c1);
                                    lemma_edits_push(
                                        old(corrections)@,
                                        c1,
                                        corrections@,
                                        cop,
                                        eds0.push((r.open_replace_start as int, r.open_replace_end as int, "("@)),
                                        (r.args_end as int, r.args_end as int, ")"@),
                                    );
                                    assert(eds0.push(
                                        (r.open_replace_start as int, r.open_replace_end as int, "("@),
                                    ).push((r.args_end as int, r.args_end as int, ")"@)) =~= all_warning_edits(
                                        done,
                                        rs,
                                    ) + warning_edits(*w, rs));
                                }
                                d.corrected = true;
                            }
                        },
                        None => {
                            assert(warning_edits(*w, rs) =~= Seq::<(int, int, Seq<char>)>::empty());
                            assert(all_warning_edits(done, rs) + warning_edits(*w, rs) =~= all_warning_edits(
                                done,
                                rs,
                            ));
                        },
                    }
                    let ghost before = diagnostics@;
                    diagnostics.push(d);
                    proof {
                        assert(diagnostics@.drop_last() =~= before);
                        lemma_flagged_reports_push(
                            old(diagnostics)@,
                            before,
                            diagnostics@,
                            path,
                            cop,
                            Severity::Warning,
                            warning_reports(source@, done, rs),
                            (line as int, col as int, m, has),
                            autocorrect,
                        );
                    }
                },
            }
            k = k + 1;
        }
        assert(warnings@.subrange(0, warnings@.len() as int) =~= warnings@);
    }
}

} // verus!
