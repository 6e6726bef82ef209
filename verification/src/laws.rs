//! Properties that hold across the operations of the library.
use crate::config::gem_path::{has_key, keys_unique, maps_to};
use crate::cop::config::{lookup, spec_get_bool, ConfigValue};
use crate::cop::report::extends_with_edits;
use crate::cop::text::{join_with, lemma_split_nonempty, split_on};
use crate::correction::{
    accept_all, apply_from, lemma_accept_all_sorted, overlaps, repl_bytes, sorted_disjoint, Correction,
};
use crate::parse::source::{
    first_pos_with_count, lemma_line_start_bounds, lemma_newline_count_flat, line_of, line_start,
    newline_count, spec_line_col_to_offset, NEWLINE,
};
use crate::cop::layout::empty_lines_around_access_modifier::{
    is_bare_modifier_line, modifier_at, modifier_bytes, modifier_edits, modifier_offense, modifier_offenses,
    modifier_str, offense_edits, ModifierInfo,
};
use crate::cop::layout::space_around_keyword::{
    checked_keyword, edits_at, is_method_call, keyword_edits, keyword_offenses, keyword_str, offenses_at,
    END_INDEX,
};
use crate::parse::codemap::CodeMap;
use crate::parse::source::{col_of, line_end};
use crate::cop::bundler::ordered_gems::{line_gem, order_step, sort_key, text_less, GemState};
use crate::cop::util::lossy_text;
use crate::cop::gemspec::dependency_version::{
    dep_method_bytes, dependency_args, is_allowed, line_offense, method_offense,
};
use crate::cop::layout::space_after_comma::{comma_edits, comma_offense, comma_offenses};
use crate::cop::layout::space_after_comma::ArrayDelimiters;
use crate::cop::lint::format_parameter_mismatch::{
    add_sequence, empty_summary, format_fields, is_flag, scan_format, sequence_at, skip_digits, skip_flags, spec_is_format_type,
    SeqKind,
};
use crate::cop::util::{find_sub, spec_is_digit, utrim_start};
use crate::cop::layout::space_around_keyword::{keyword_bytes, space_after_missing, space_before_missing};
use vstd::utf8::valid_utf8;
use vstd::prelude::*;

verus! {

/// An option given last is what a read of its name gives back.
pub proof fn law_option_read_back(opts: Seq<(String, ConfigValue)>, name: String, value: ConfigValue)
    ensures
        lookup(seq![(name, value)] + opts, name@) == Some(value),
{
    assert((seq![(name, value)] + opts)[0] == (name, value));
}

/// Giving an option leaves what every other name reads unchanged.
pub proof fn law_option_other_names(
    opts: Seq<(String, ConfigValue)>,
    name: String,
    value: ConfigValue,
    other: Seq<char>,
)
    requires
        other != name@,
    ensures
        lookup(seq![(name, value)] + opts, other) == lookup(opts, other),
{
    assert((seq![(name, value)] + opts).drop_first() =~= opts);
}

/// A flag given last is read back whatever the default.
pub proof fn law_flag_read_back(opts: Seq<(String, ConfigValue)>, name: String, flag: bool, default: bool)
    ensures
        spec_get_bool(seq![(name, ConfigValue::Bool(flag))] + opts, name@, default) == flag,
{
    law_option_read_back(opts, name, ConfigValue::Bool(flag));
}

/// The corrections accepted into a set, offered in any order, are well
/// formed, ordered, and no two of them overlap.
pub proof fn law_accepted_corrections_disjoint(offered: Seq<Correction>)
    ensures
        sorted_disjoint(accept_all(Seq::empty(), offered)),
        forall|i: int, j: int|
            0 <= i < j < accept_all(Seq::empty(), offered).len() ==> !overlaps(
                #[trigger] accept_all(Seq::empty(), offered)[i],
                #[trigger] accept_all(Seq::empty(), offered)[j],
            ),
{
    lemma_accept_all_sorted(Seq::empty(), offered);
    let a = accept_all(Seq::empty(), offered);
    assert forall|i: int, j: int| 0 <= i < j < a.len() implies !overlaps(#[trigger] a[i], #[trigger] a[j]) by {
        assert(a[i].end <= a[j].start);
        assert(a[j].start <= a[j].end);
    }
}

/// Applying no correction gives the source back.
pub proof fn law_apply_nothing(s: Seq<u8>)
    ensures
        apply_from(s, Seq::empty(), 0) == s,
{
    assert(s.subrange(0, s.len() as int) =~= s);
}

/// Applying one correction within the source replaces its range by its
/// text and keeps the rest.
pub proof fn law_apply_one(s: Seq<u8>, c: Correction)
    requires
        c.start <= c.end <= s.len(),
    ensures
        apply_from(s, seq![c], 0) == s.subrange(0, c.start as int) + repl_bytes(c) + s.subrange(
            c.end as int,
            s.len() as int,
        ),
{
    let cs = seq![c];
    assert(cs[0] == c);
    assert(cs.drop_first() =~= Seq::<Correction>::empty());
    assert(apply_from(s, Seq::<Correction>::empty(), c.end as int) == s.subrange(c.end as int, s.len() as int));
    assert(apply_from(s, cs, 0) == s.subrange(0, c.start as int) + repl_bytes(c) + apply_from(
        s,
        cs.drop_first(),
        c.end as int,
    ));
}

/// Without autocorrection a cop adds no correction: an extension by no edits
/// is no change.
pub proof fn law_no_edits_no_change(old: Seq<Correction>, new: Seq<Correction>, cop: Seq<char>)
    requires
        extends_with_edits(old, new, cop, Seq::empty()),
    ensures
        new == old,
{
    assert(new =~= new.subrange(0, old.len() as int));
}

proof fn lemma_newline_count_mono(s: Seq<u8>, p: int, q: int)
    requires
        0 <= p <= q <= s.len(),
    ensures
        newline_count(s, p) <= newline_count(s, q),
    decreases q - p,
{
    if p < q {
        lemma_newline_count_mono(s, p, q - 1);
    }
}

proof fn lemma_first_pos_exact(s: Seq<u8>, k: nat, from: int, t: int)
    requires
        0 <= from <= t <= s.len(),
        newline_count(s, t) == k,
        forall|p: int| from <= p < t ==> newline_count(s, p) != k,
    ensures
        first_pos_with_count(s, k, from) == t,
    decreases t - from,
{
    if from < t {
        lemma_first_pos_exact(s, k, from + 1, t);
    }
}

/// An offset turned into its line and its byte column within the line, and
/// back, is the same offset.
pub proof fn law_line_column_round_trip(s: Seq<u8>, off: int)
    requires
        0 <= off <= s.len(),
    ensures
        spec_line_col_to_offset(s, line_of(s, off) as int, off - line_start(s, off)) == Some(off),
{
    lemma_line_start_bounds(s, off);
    let ls = line_start(s, off);
    let k = newline_count(s, off);
    lemma_newline_count_flat(s, ls, off);
    assert forall|p: int| 0 <= p < ls implies newline_count(s, p) != k by {
        lemma_newline_count_mono(s, p, ls - 1);
        assert(s[ls - 1] == NEWLINE);
        assert(newline_count(s, ls) == newline_count(s, ls - 1) + 1);
    }
    lemma_first_pos_exact(s, k, 0, ls);
    assert((line_of(s, off) as int - 1) as nat == k);
}

/// Splitting bytes at a separator and joining the parts with it gives the
/// bytes back.
pub proof fn law_split_join_round_trip(s: Seq<u8>, sep: u8)
    ensures
        join_with(split_on(s, sep), seq![sep]) == s,
    decreases s.len(),
{
    if s.len() == 0 {
        assert(split_on(s, sep) =~= seq![Seq::<u8>::empty()]);
        assert(s =~= Seq::<u8>::empty());
    } else {
        let t = s.drop_last();
        let x = s.last();
        law_split_join_round_trip(t, sep);
        lemma_split_nonempty(t, sep);
        let r = split_on(t, sep);
        assert(t.push(x) =~= s);
        if x == sep {
            let r2 = r.push(Seq::<u8>::empty());
            assert(r2.drop_last() =~= r);
            assert(join_with(r2, seq![sep]) == join_with(r, seq![sep]) + seq![sep] + Seq::<u8>::empty());
            assert(join_with(r2, seq![sep]) =~= s);
        } else {
            let r2 = r.update(r.len() - 1, r.last().push(x));
            if r.len() == 1 {
                assert(join_with(r, seq![sep]) == r[0]);
                assert(join_with(r2, seq![sep]) == r2[0]);
                assert(r2[0] =~= t.push(x));
            } else {
                assert(r2.drop_last() =~= r.drop_last());
                assert(join_with(r, seq![sep]) == join_with(r.drop_last(), seq![sep]) + seq![sep] + r.last());
                assert(join_with(r2, seq![sep]) == join_with(r2.drop_last(), seq![sep]) + seq![sep] + r2.last());
                assert(join_with(r2, seq![sep]) =~= join_with(r, seq![sep]).push(x));
            }
            assert(join_with(r2, seq![sep]) =~= s);
        }
    }
}

/// A gem path recorded in a cache whose names are unique is the one a
/// lookup of the gem finds: the cache holds the gem, under that path only.
pub proof fn law_cache_read_back(entries: Seq<(String, String)>, gem: Seq<char>, path: Seq<char>)
    requires
        keys_unique(entries),
        maps_to(entries, gem, path),
    ensures
        has_key(entries, gem),
        forall|v: Seq<char>| maps_to(entries, gem, v) ==> v == path,
{
    let i = choose|i: int| 0 <= i < entries.len() && entries[i].0@ == gem && entries[i].1@ == path;
    assert forall|v: Seq<char>| maps_to(entries, gem, v) implies v == path by {
        let j = choose|j: int| 0 <= j < entries.len() && entries[j].0@ == gem && entries[j].1@ == v;
        if i < j {
            assert(entries[i].0@ != entries[j].0@);
        } else if j < i {
            assert(entries[j].0@ != entries[i].0@);
        }
    }
}

/// Report `o` stands at the access modifier `ms[i]`, on a line that holds
/// only that modifier (and perhaps a comment); under `only_before` it asks
/// for a blank line before the modifier only.
pub open spec fn modifier_report_at(
    s: Seq<u8>,
    style: Seq<char>,
    ms: Seq<ModifierInfo>,
    i: int,
    o: (int, int, Seq<char>),
) -> bool {
    let off = ms[i].offset as int;
    let ls = line_start(s, off);
    &&& 0 <= i < ms.len()
    &&& modifier_at(s, off) matches Some(k)
    &&& is_bare_modifier_line(s, ls, line_end(s, ls), modifier_bytes(k))
    &&& o.0 == line_of(s, off) as int
    &&& o.1 == col_of(s, off) as int
    &&& (style == "only_before"@ ==> o.2 == "Keep a blank line before `"@ + modifier_str(k) + "`."@)
}

/// Report `o` stands at one of the access modifiers `ms`, as
/// `modifier_report_at` says.
pub open spec fn has_modifier_report(s: Seq<u8>, style: Seq<char>, ms: Seq<ModifierInfo>, o: (int, int, Seq<char>)) -> bool {
    exists|i: int| modifier_report_at(s, style, ms, i, o)
}

/// An edit that inserts one line feed at the start of a line.
pub open spec fn inserts_newline_at_line_start(s: Seq<u8>, e: (int, int, Seq<char>)) -> bool {
    &&& e.0 == e.1
    &&& e.2 == "\n"@
    &&& 0 <= e.0 <= s.len()
    &&& (e.0 == 0 || s[e.0 - 1] == NEWLINE)
}

proof fn lemma_first_pos_is_line_start(s: Seq<u8>, k: nat, from: int)
    requires
        0 <= from,
    ensures
        first_pos_with_count(s, k, from) >= 0 ==> {
            let r = first_pos_with_count(s, k, from);
            &&& from <= r <= s.len()
            &&& newline_count(s, r) == k
            &&& (r == from || newline_count(s, r - 1) != k)
        },
    decreases s.len() + 1 - from,
{
    if from <= s.len() && newline_count(s, from) != k {
        lemma_first_pos_is_line_start(s, k, from + 1);
    }
}

proof fn lemma_line_offset_is_line_start(s: Seq<u8>, line: int)
    ensures
        spec_line_col_to_offset(s, line, 0) matches Some(p) ==> 0 <= p <= s.len() && (p == 0 || s[p - 1]
            == NEWLINE),
{
    if line >= 1 {
        lemma_first_pos_is_line_start(s, (line - 1) as nat, 0);
        let p = first_pos_with_count(s, (line - 1) as nat, 0);
        if p > 0 {
            assert(newline_count(s, p) == newline_count(s, p - 1) + (if s[p - 1] == NEWLINE { 1nat } else { 0nat }));
        }
    }
}

proof fn lemma_modifier_laws(s: Seq<u8>, style: Seq<char>, ms: Seq<ModifierInfo>)
    ensures
        forall|j: int|
            0 <= j < modifier_offenses(s, style, ms).len() ==> has_modifier_report(
                s,
                style,
                ms,
                #[trigger] modifier_offenses(s, style, ms)[j],
            ),
        forall|j: int|
            0 <= j < modifier_edits(s, style, ms).len() ==> inserts_newline_at_line_start(
                s,
                #[trigger] modifier_edits(s, style, ms)[j],
            ),
    decreases ms.len(),
{
    if ms.len() > 0 {
        let init = ms.drop_last();
        lemma_modifier_laws(s, style, init);
        let rest = modifier_offenses(s, style, init);
        let rest_e = modifier_edits(s, style, init);
        let last = ms.len() - 1;
        assert forall|i: int, o: (int, int, Seq<char>)| modifier_report_at(s, style, init, i, o) implies modifier_report_at(
            s,
            style,
            ms,
            i,
            o,
        ) by {
            assert(init[i] == ms[i]);
        }
        assert forall|j: int| 0 <= j < modifier_offenses(s, style, ms).len() implies has_modifier_report(
            s,
            style,
            ms,
            #[trigger] modifier_offenses(s, style, ms)[j],
        ) by {
            if j < rest.len() {
                assert(modifier_offenses(s, style, ms)[j] == rest[j]);
                let i = choose|i: int| modifier_report_at(s, style, init, i, rest[j]);
                assert(modifier_report_at(s, style, ms, i, rest[j]));
            } else {
                let o = modifier_offense(s, style, ms[last]).unwrap();
                assert(modifier_offenses(s, style, ms)[j] == (o.0, o.1, o.2));
                reveal_strlit("around");
                reveal_strlit("only_before");
                assert("around"@.len() != "only_before"@.len());
                assert(modifier_report_at(s, style, ms, last, (o.0, o.1, o.2)));
            }
        }
        match modifier_offense(s, style, ms[last]) {
            Some(o) => {
                let oe = offense_edits(s, o);
                lemma_line_offset_is_line_start(s, o.0);
                lemma_line_offset_is_line_start(s, o.0 + 1);
                assert forall|j: int| 0 <= j < oe.len() implies inserts_newline_at_line_start(s, #[trigger] oe[j]) by {}
                assert forall|j: int| 0 <= j < modifier_edits(s, style, ms).len() implies inserts_newline_at_line_start(
                    s,
                    #[trigger] modifier_edits(s, style, ms)[j],
                ) by {
                    if j < rest_e.len() {
                        assert(modifier_edits(s, style, ms)[j] == rest_e[j]);
                    } else {
                        assert(modifier_edits(s, style, ms)[j] == oe[j - rest_e.len()]);
                    }
                }
            },
            None => {},
        }
    }
}

/// Every report of `Layout/EmptyLinesAroundAccessModifier` stands at an
/// access modifier on a line that holds only that modifier (a comment may
/// follow); under `only_before` no report asks for a blank line after it;
/// every correction inserts one line feed at the start of a line.
pub proof fn law_access_modifier_reports(s: Seq<u8>, style: Seq<char>, ms: Seq<ModifierInfo>)
    ensures
        forall|j: int|
            0 <= j < modifier_offenses(s, style, ms).len() ==> has_modifier_report(
                s,
                style,
                ms,
                #[trigger] modifier_offenses(s, style, ms)[j],
            ),
        forall|j: int|
            0 <= j < modifier_edits(s, style, ms).len() ==> inserts_newline_at_line_start(
                s,
                #[trigger] modifier_edits(s, style, ms)[j],
            ),
{
    lemma_modifier_laws(s, style, ms);
}

/// Report `o` stands at a checked keyword, as `keyword_report_at` says.
pub open spec fn has_keyword_report(s: Seq<u8>, code: CodeMap, skips: Seq<usize>, o: (int, int, Seq<char>)) -> bool {
    exists|i: int| keyword_report_at(s, code, skips, i, o)
}

/// Report `o` stands at a keyword at `i` that is checked: it does not follow
/// `.`, `&.` or `::`, it is not the `end` of a method, class or module, and
/// a missing space after it is never reported for `end`.
pub open spec fn keyword_report_at(s: Seq<u8>, code: CodeMap, skips: Seq<usize>, i: int, o: (int, int, Seq<char>)) -> bool {
    &&& 0 <= i < s.len()
    &&& checked_keyword(s, code, skips, i) matches Some(k)
    &&& !is_method_call(s, i)
    &&& !(k == END_INDEX && skips.contains(i as usize))
    &&& o.0 == line_of(s, i) as int
    &&& o.1 == col_of(s, i) as int
    &&& (o.2 == "Space before keyword `"@ + keyword_str(k) + "` is missing."@ || (k != END_INDEX && o.2
        == "Space after keyword `"@ + keyword_str(k) + "` is missing."@))
}

proof fn lemma_keyword_laws(s: Seq<u8>, code: CodeMap, skips: Seq<usize>, p: int)
    requires
        p <= s.len(),
    ensures
        forall|j: int|
            0 <= j < keyword_offenses(s, code, skips, p).len() ==> has_keyword_report(
                s,
                code,
                skips,
                #[trigger] keyword_offenses(s, code, skips, p)[j],
            ),
        forall|j: int|
            0 <= j < keyword_edits(s, code, skips, p).len() ==> {
                let e = #[trigger] keyword_edits(s, code, skips, p)[j];
                e.0 == e.1 && e.2 == " "@
            },
    decreases p,
{
    if p > 0 {
        lemma_keyword_laws(s, code, skips, p - 1);
        let rest = keyword_offenses(s, code, skips, p - 1);
        let here = offenses_at(s, code, skips, p - 1);
        assert forall|j: int| 0 <= j < keyword_offenses(s, code, skips, p).len() implies has_keyword_report(
            s,
            code,
            skips,
            #[trigger] keyword_offenses(s, code, skips, p)[j],
        ) by {
            if j < rest.len() {
                assert(keyword_offenses(s, code, skips, p)[j] == rest[j]);
            } else {
                assert(keyword_offenses(s, code, skips, p)[j] == here[j - rest.len()]);
                assert(keyword_report_at(s, code, skips, p - 1, here[j - rest.len()]));
            }
        }
        let rest_e = keyword_edits(s, code, skips, p - 1);
        let here_e = edits_at(s, code, skips, p - 1);
        assert forall|j: int| 0 <= j < keyword_edits(s, code, skips, p).len() implies {
            let e = #[trigger] keyword_edits(s, code, skips, p)[j];
            e.0 == e.1 && e.2 == " "@
        } by {
            if j < rest_e.len() {
                assert(keyword_edits(s, code, skips, p)[j] == rest_e[j]);
            } else {
                assert(keyword_edits(s, code, skips, p)[j] == here_e[j - rest_e.len()]);
            }
        }
    }
}

/// Every report of `Layout/SpaceAroundKeyword` stands at a keyword that does
/// not follow `.`, `&.` or `::` and is not the `end` of a method, class or
/// module; no missing space after `end` is reported; every correction
/// inserts one space.
pub proof fn law_space_around_keyword_reports(s: Seq<u8>, code: CodeMap, skips: Seq<usize>)
    ensures
        forall|j: int|
            0 <= j < keyword_offenses(s, code, skips, s.len() as int).len() ==> has_keyword_report(
                s,
                code,
                skips,
                #[trigger] keyword_offenses(s, code, skips, s.len() as int)[j],
            ),
        forall|j: int|
            0 <= j < keyword_edits(s, code, skips, s.len() as int).len() ==> {
                let e = #[trigger] keyword_edits(s, code, skips, s.len() as int)[j];
                e.0 == e.1 && e.2 == " "@
            },
{
    lemma_keyword_laws(s, code, skips, s.len() as int);
}

/// Gem names are compared in lexicographic order: a name sorts before every
/// longer name that extends it, and never after it.
pub proof fn law_prefix_sorts_first(a: Seq<char>, t: Seq<char>)
    requires
        t.len() > 0,
    ensures
        text_less(a, a + t),
        !text_less(a + t, a),
    decreases a.len(),
{
    if a.len() == 0 {
        assert(a + t =~= t);
    } else {
        law_prefix_sorts_first(a.drop_first(), t);
        assert((a + t).drop_first() =~= a.drop_first() + t);
        assert((a + t)[0] == a[0]);
    }
}

/// No text sorts before itself.
pub proof fn law_text_less_irreflexive(a: Seq<char>)
    ensures
        !text_less(a, a),
    decreases a.len(),
{
    if a.len() > 0 {
        law_text_less_irreflexive(a.drop_first());
    }
}

/// Of two names that agree up to some position and then differ, the one
/// whose character there has the smaller code sorts first, whatever follows.
pub proof fn law_first_difference_decides(p: Seq<char>, x: char, y: char, a: Seq<char>, b: Seq<char>)
    requires
        (x as u32) < (y as u32),
    ensures
        text_less(p + seq![x] + a, p + seq![y] + b),
        !text_less(p + seq![y] + b, p + seq![x] + a),
    decreases p.len(),
{
    let u = p + seq![x] + a;
    let v = p + seq![y] + b;
    if p.len() == 0 {
        assert(u[0] == x);
        assert(v[0] == y);
    } else {
        law_first_difference_decides(p.drop_first(), x, y, a, b);
        assert(u.drop_first() =~= p.drop_first() + seq![x] + a);
        assert(v.drop_first() =~= p.drop_first() + seq![y] + b);
        assert(u[0] == p[0]);
        assert(v[0] == p[0]);
    }
}

/// A gem whose sort key equals or extends the key of the gem before it in
/// its section is never reported as out of order.
pub proof fn law_extending_key_not_reported(
    s: Seq<u8>,
    p: int,
    e: int,
    line: int,
    st: GemState,
    comments_separate: bool,
    punctuation: bool,
    t: Seq<char>,
)
    requires
        match (st.prev, line_gem(s, p, e)) {
            (Some((pn, pk)), Some((a, b))) => sort_key(lossy_text(s.subrange(a, b)), punctuation) == pk
                + t,
            _ => false,
        },
    ensures
        order_step(s, p, e, line, st, comments_separate, punctuation).1 is None,
{
    let pk = match st.prev {
        Some((pn, k)) => k,
        None => t,
    };
    if t.len() > 0 {
        law_prefix_sorts_first(pk, t);
    } else {
        assert(pk + t =~= pk);
        law_text_less_irreflexive(pk);
    }
}

proof fn lemma_skip_digits_run(s: Seq<u8>, i: int, j: int)
    requires
        0 <= i <= j <= s.len(),
        forall|q: int| i <= q < j ==> spec_is_digit(#[trigger] s[q]),
        j >= s.len() || !spec_is_digit(s[j]),
    ensures
        skip_digits(s, i) == j,
    decreases j - i,
{
    if i < j {
        lemma_skip_digits_run(s, i + 1, j);
    }
}

proof fn lemma_skip_flags_in_digits(s: Seq<u8>, i: int, j: int)
    requires
        0 <= i <= j < s.len(),
        forall|q: int| i <= q < j ==> spec_is_digit(#[trigger] s[q]),
        s[j] == 46u8,
    ensures
        i <= skip_flags(s, i) <= j,
    decreases j - i,
{
    if i < j && is_flag(s[i]) {
        lemma_skip_flags_in_digits(s, i + 1, j);
    }
}

/// A plain sequence `%`, width digits, `.`, precision digits and a type is
/// one field, whatever digits give its width and precision: such a format
/// string takes exactly one argument.
pub proof fn law_precision_one_field(w: Seq<u8>, d: Seq<u8>, c: u8)
    requires
        forall|q: int| 0 <= q < w.len() ==> 48u8 <= #[trigger] w[q] <= 57u8,
        forall|q: int| 0 <= q < d.len() ==> 48u8 <= #[trigger] d[q] <= 57u8,
        spec_is_format_type(c),
    ensures
        format_fields(seq![37u8] + w + seq![46u8] + d + seq![c]) == Some((1nat, false)),
{
    let s = seq![37u8] + w + seq![46u8] + d + seq![c];
    let n = s.len() as int;
    let dot: int = 1 + w.len() as int;
    assert(s[0] == 37u8);
    assert(s[dot] == 46u8);
    assert(s[n - 1] == c);
    assert forall|q: int| 1 <= q < dot implies spec_is_digit(#[trigger] s[q]) by {
        assert(s[q] == w[q - 1]);
    }
    assert forall|q: int| dot + 1 <= q < n - 1 implies spec_is_digit(#[trigger] s[q]) by {
        assert(s[q] == d[q - dot - 1]);
    }
    assert(s[1] != 37u8) by {
        if dot > 1 {
            assert(spec_is_digit(s[1]));
        }
    }
    assert(s[1] != 123u8 && s[1] != 60u8) by {
        if dot > 1 {
            assert(spec_is_digit(s[1]));
        }
    }
    lemma_skip_flags_in_digits(s, 1, dot);
    let f = skip_flags(s, 1);
    assert(s[f] != 42u8) by {
        if f < dot {
            assert(spec_is_digit(s[f]));
        }
    }
    lemma_skip_digits_run(s, f, dot);
    lemma_skip_digits_run(s, dot + 1, n - 1);
    assert(!(dot + 1 < n && s[dot + 1] == 42u8)) by {
        if n - 1 > dot + 1 {
            assert(spec_is_digit(s[dot + 1]));
        }
    }
    assert(sequence_at(s, 1) == (n, SeqKind::Unnumbered(1usize)));
    let acc = add_sequence(empty_summary(), SeqKind::Unnumbered(1usize));
    assert(scan_format(s, n, acc) == acc);
    assert(scan_format(s, 0, empty_summary()) == acc);
}

proof fn lemma_comma_offenses_are_offenses(
    s: Seq<u8>,
    code: CodeMap,
    arrays: Seq<ArrayDelimiters>,
    skip_rcurly: bool,
    p: int,
)
    ensures
        forall|j: int|
            0 <= j < comma_offenses(s, code, arrays, skip_rcurly, p).len() ==> {
                let x = #[trigger] comma_offenses(s, code, arrays, skip_rcurly, p)[j];
                0 <= x < p && comma_offense(s, code, arrays, skip_rcurly, x)
            },
    decreases p,
{
    if p > 0 {
        lemma_comma_offenses_are_offenses(s, code, arrays, skip_rcurly, p - 1);
        let r = comma_offenses(s, code, arrays, skip_rcurly, p - 1);
        let all = comma_offenses(s, code, arrays, skip_rcurly, p);
        assert forall|j: int| 0 <= j < all.len() implies {
            let x = #[trigger] all[j];
            0 <= x < p && comma_offense(s, code, arrays, skip_rcurly, x)
        } by {
            if j < r.len() {
                assert(all[j] == r[j]);
            }
        }
    }
}

/// A byte that counts as space after a comma: space, tab, line feed or
/// carriage return.
pub open spec fn space_after_comma_byte(b: u8) -> bool {
    b == 32u8 || b == 9u8 || b == 10u8 || b == 13u8
}

/// A comma followed by a space, a tab, a line break or the end of the text
/// is never reported, and no correction inserts a space after it.
pub proof fn law_spaced_comma_not_reported(
    s: Seq<u8>,
    code: CodeMap,
    arrays: Seq<ArrayDelimiters>,
    skip_rcurly: bool,
    i: int,
)
    requires
        0 <= i < s.len(),
        s[i] == 44u8,
        i + 1 == s.len() || space_after_comma_byte(s[i + 1]),
    ensures
        !comma_offenses(s, code, arrays, skip_rcurly, s.len() as int).contains(i),
        forall|j: int|
            0 <= j < comma_edits(comma_offenses(s, code, arrays, skip_rcurly, s.len() as int)).len()
                ==> (#[trigger] comma_edits(
                comma_offenses(s, code, arrays, skip_rcurly, s.len() as int),
            )[j]).0 != i + 1,
{
    let ps = comma_offenses(s, code, arrays, skip_rcurly, s.len() as int);
    lemma_comma_offenses_are_offenses(s, code, arrays, skip_rcurly, s.len() as int);
    assert forall|j: int| 0 <= j < comma_edits(ps).len() implies (#[trigger] comma_edits(ps)[j]).0 != i + 1 by {
        assert(comma_offense(s, code, arrays, skip_rcurly, ps[j]));
    }
}

/// Dependency call `m`: `.add_dependency`, `.add_runtime_dependency` or
/// `.add_development_dependency`.
pub open spec fn dependency_call(m: int) -> Seq<u8> {
    if m == 0 {
        add_dependency_call()
    } else if m == 1 {
        add_runtime_dependency_call()
    } else {
        add_development_dependency_call()
    }
}

/// `.add_dependency`
pub open spec fn add_dependency_call() -> Seq<u8> {
    seq![46u8, 97u8, 100u8, 100u8, 95u8, 100u8, 101u8, 112u8, 101u8, 110u8, 100u8, 101u8, 110u8, 99u8, 121u8]
}

/// `.add_runtime_dependency`
pub open spec fn add_runtime_dependency_call() -> Seq<u8> {
    seq![46u8, 97u8, 100u8, 100u8, 95u8, 114u8, 117u8, 110u8, 116u8, 105u8, 109u8, 101u8, 95u8, 100u8, 101u8, 112u8, 101u8, 110u8, 100u8, 101u8, 110u8, 99u8, 121u8]
}

/// `.add_development_dependency`
pub open spec fn add_development_dependency_call() -> Seq<u8> {
    seq![46u8, 97u8, 100u8, 100u8, 95u8, 100u8, 101u8, 118u8, 101u8, 108u8, 111u8, 112u8, 109u8, 101u8, 110u8, 116u8, 95u8, 100u8, 101u8, 112u8, 101u8, 110u8, 100u8, 101u8, 110u8, 99u8, 121u8]
}

/// Under style `required`, a non-comment line `s[p..e)` whose dependency call
/// is `m`, one of `.add_dependency`, `.add_runtime_dependency` and
/// `.add_development_dependency` (the earlier of them absent from the line),
/// with a gem name outside `allowed` and no version requirement after it, is
/// reported at the call's dot with "Dependency version is required."; under
/// style `forbidden`, the same line with a version requirement is reported
/// with "Dependency version should not be specified.".
pub proof fn law_dependency_calls_checked(
    s: Seq<u8>,
    allowed: Seq<Seq<char>>,
    p: int,
    e: int,
    m: int,
)
    requires
        0 <= p <= e <= s.len(),
        0 <= m < 3,
        valid_utf8(s.subrange(p, e)),
        !(utrim_start(s, p, e) < e && s[utrim_start(s, p, e)] == 35u8),
        m > 0 ==> find_sub(s, p, e, add_dependency_call()) < 0,
        m > 1 ==> find_sub(s, p, e, add_runtime_dependency_call()) < 0,
        find_sub(s, p, e, dependency_call(m)) >= 0,
        !is_allowed(
            s,
            allowed,
            dependency_args(s, find_sub(s, p, e, dependency_call(m)) + dependency_call(m).len(), e).0,
        ),
    ensures
        ({
            let pos = find_sub(s, p, e, dependency_call(m));
            let versioned = dependency_args(s, pos + dependency_call(m).len(), e).1;
            &&& !versioned ==> line_offense(s, "required"@, allowed, p, e) == Some(
                (line_of(s, p) as int, pos - p + 1, "Dependency version is required."@),
            )
            &&& versioned ==> line_offense(s, "forbidden"@, allowed, p, e) == Some(
                (line_of(s, p) as int, pos - p + 1, "Dependency version should not be specified."@),
            )
        }),
{
    reveal_strlit("required");
    reveal_strlit("forbidden");
    assert("required"@.len() != "forbidden"@.len());
    assert(dependency_call(0) =~= dep_method_bytes(0));
    assert(dependency_call(1) =~= dep_method_bytes(1));
    assert(dependency_call(2) =~= dep_method_bytes(2));
    if m == 1 {
        assert(method_offense(s, "required"@, allowed, p, e, 0) == method_offense(s, "required"@, allowed, p, e, 1));
        assert(method_offense(s, "forbidden"@, allowed, p, e, 0) == method_offense(s, "forbidden"@, allowed, p, e, 1));
    } else if m == 2 {
        assert(method_offense(s, "required"@, allowed, p, e, 1) == method_offense(s, "required"@, allowed, p, e, 2));
        assert(method_offense(s, "forbidden"@, allowed, p, e, 1) == method_offense(s, "forbidden"@, allowed, p, e, 2));
        assert(method_offense(s, "required"@, allowed, p, e, 0) == method_offense(s, "required"@, allowed, p, e, 1));
        assert(method_offense(s, "forbidden"@, allowed, p, e, 0) == method_offense(s, "forbidden"@, allowed, p, e, 1));
    }
}

/// A byte after which a keyword needs no space: space, tab, line feed,
/// carriage return, `(`, `|`, `{`, `[`, `;`, `,`, `*`, `=`, `!`, `+`, `-`,
/// `/`, `<`, `>`, `&`, `.` or `?`.
pub open spec fn keyword_may_follow(c: u8) -> bool {
    c == 32u8 || c == 9u8 || c == 10u8 || c == 13u8 || c == 40u8 || c == 124u8 || c == 123u8
        || c == 91u8 || c == 59u8 || c == 44u8 || c == 42u8 || c == 61u8 || c == 33u8 || c == 43u8
        || c == 45u8 || c == 47u8 || c == 60u8 || c == 62u8 || c == 38u8 || c == 46u8 || c == 63u8
}

/// The text starts as a report of a missing space before a keyword does.
pub open spec fn is_space_before_report(m: Seq<char>) -> bool {
    m.len() >= 13 && m.subrange(0, 13) == "Space before "@
}

/// A keyword at the start of the text or directly after one of the bytes of
/// `keyword_may_follow` is never reported as missing a space before it, and
/// gets no correction that inserts a space in front of it.
pub proof fn law_keyword_after_accepted_byte(s: Seq<u8>, code: CodeMap, skips: Seq<usize>, i: int)
    requires
        0 <= i < s.len(),
        i == 0 || keyword_may_follow(s[i - 1]),
    ensures
        forall|j: int|
            0 <= j < offenses_at(s, code, skips, i).len() ==> !is_space_before_report(
                #[trigger] offenses_at(s, code, skips, i)[j].2,
            ),
        forall|j: int|
            0 <= j < edits_at(s, code, skips, i).len() ==> (#[trigger] edits_at(s, code, skips, i)[j]).0
                != i,
{
    assert(!space_before_missing(s, i));
    match checked_keyword(s, code, skips, i) {
        None => {},
        Some(k) => {
            assert(keyword_bytes(k).len() > 0);
            reveal_strlit("Space before ");
            reveal_strlit("Space after keyword `");
            let m = "Space after keyword `"@ + keyword_str(k) + "` is missing."@;
            assert(m[6] == 'a');
            assert("Space before "@[6] == 'b');
            assert(m.len() >= 13 ==> m.subrange(0, 13)[6] == 'a');
            assert(!is_space_before_report(m));
        },
    }
}

/// A byte before which a keyword needs no space: space, tab, line feed,
/// carriage return, `;`, `,`, `#`, `\`, `)`, `}`, `]` or `.`.
pub open spec fn keyword_may_precede(c: u8) -> bool {
    c == 32u8 || c == 9u8 || c == 10u8 || c == 13u8 || c == 59u8 || c == 44u8 || c == 35u8
        || c == 92u8 || c == 41u8 || c == 125u8 || c == 93u8 || c == 46u8
}

/// The text starts as a report of a missing space after a keyword does.
pub open spec fn is_space_after_report(m: Seq<char>) -> bool {
    m.len() >= 12 && m.subrange(0, 12) == "Space after "@
}

/// A keyword at the end of the text or directly before one of the bytes of
/// `keyword_may_precede` is never reported as missing a space after it, and
/// every correction at it inserts the space in front of it.
pub proof fn law_keyword_before_accepted_byte(s: Seq<u8>, code: CodeMap, skips: Seq<usize>, i: int)
    requires
        0 <= i < s.len(),
        match checked_keyword(s, code, skips, i) {
            Some(k) => i + keyword_bytes(k).len() >= s.len() || keyword_may_precede(
                s[i + keyword_bytes(k).len()],
            ),
            None => true,
        },
    ensures
        forall|j: int|
            0 <= j < offenses_at(s, code, skips, i).len() ==> !is_space_after_report(
                #[trigger] offenses_at(s, code, skips, i)[j].2,
            ),
        forall|j: int|
            0 <= j < edits_at(s, code, skips, i).len() ==> (#[trigger] edits_at(s, code, skips, i)[j]).0
                == i,
{
    match checked_keyword(s, code, skips, i) {
        None => {},
        Some(k) => {
            assert(!space_after_missing(s, k, i));
            reveal_strlit("Space after ");
            reveal_strlit("Space before keyword `");
            let m = "Space before keyword `"@ + keyword_str(k) + "` is missing."@;
            assert(m[6] == 'b');
            assert("Space after "@[6] == 'a');
            assert(m.len() >= 12 ==> m.subrange(0, 12)[6] == 'b');
            assert(!is_space_after_report(m));
        },
    }
}

} // verus!
