use crate::cop::report::{
    extends_with_reports, lemma_reports_concat, lemma_reports_empty, lemma_reports_push,
};
use crate::cop::util::{
    find_byte, find_byte_exec, find_sub, find_sub_exec, is_valid_utf8, lemma_find_sub_bounds, lossy_text, text_of,
    range_eq, spec_is_alnum, starts_with_at, utrim_end, utrim_end_exec, utrim_start,
    utrim_start_exec,
};
use crate::diagnostic::{new_diagnostic, Diagnostic, Severity};
use crate::parse::codemap::CodeMap;
use crate::parse::source::{lemma_line_end_bounds, line_end, line_of, SourceFile};
use vstd::prelude::*;
use vstd::utf8::valid_utf8;

verus! {

/// Checks for `# rubocop:enable` comments that can be removed because the cop was not
/// previously disabled.
pub struct RedundantCopEnableDirective;

pub open spec fn prefix_bytes() -> Seq<u8> {
    seq![114u8, 117u8, 98u8, 111u8, 99u8, 111u8, 112u8, 58u8]
}

pub open spec fn enable_prefix_bytes() -> Seq<u8> {
    seq![114u8, 117u8, 98u8, 111u8, 99u8, 111u8, 112u8, 58u8, 101u8, 110u8, 97u8, 98u8, 108u8, 101u8]
}

/// The actions of a directive: 0 `disable`, 1 `enable`, 2 `todo`.
pub open spec fn action_bytes(k: int) -> Seq<u8> {
    if k == 0 {
        seq![100u8, 105u8, 115u8, 97u8, 98u8, 108u8, 101u8]
    } else if k == 1 {
        seq![101u8, 110u8, 97u8, 98u8, 108u8, 101u8]
    } else {
        seq![116u8, 111u8, 100u8, 111u8]
    }
}

pub open spec fn dashes_bytes() -> Seq<u8> {
    seq![32u8, 45u8, 45u8, 32u8]
}

pub open spec fn next_directive_bytes() -> Seq<u8> {
    seq![35u8, 32u8, 114u8, 117u8, 98u8, 111u8, 99u8, 111u8, 112u8, 58u8]
}

pub open spec fn space_hash_bytes() -> Seq<u8> {
    seq![32u8, 35u8]
}

pub open spec fn all_name_bytes() -> Seq<u8> {
    seq![97u8, 108u8, 108u8]
}

/// An ASCII white-space byte.
pub open spec fn is_ascii_ws(c: u8) -> bool {
    c == 32u8 || c == 9u8 || c == 10u8 || c == 12u8 || c == 13u8
}

/// First position of `[a, b)` holding ASCII white space, or `b`.
pub open spec fn first_ascii_ws(s: Seq<u8>, a: int, b: int) -> int
    decreases b - a,
{
    if a >= b || is_ascii_ws(s[a]) {
        a
    } else {
        first_ascii_ws(s, a + 1, b)
    }
}

/// A byte that may end a cop name.
pub open spec fn is_name_byte(c: u8) -> bool {
    spec_is_alnum(c) || c == 95u8 || c == 47u8
}

/// End of `[a, b)` once trailing bytes that cannot end a cop name are
/// removed.
pub open spec fn trim_name_end(s: Seq<u8>, a: int, b: int) -> int
    decreases b - a,
{
    if a < b && !is_name_byte(s[b - 1]) {
        trim_name_end(s, a, b - 1)
    } else {
        b
    }
}

/// End of the cop list `[a, b)` once cut before ` -- `, `# rubocop:` and ` #`.
pub open spec fn cut_cops(s: Seq<u8>, a: int, b: int) -> int {
    let c1 = find_sub(s, a, b, dashes_bytes());
    let b1 = if c1 >= 0 {
        c1
    } else {
        b
    };
    let c2 = find_sub(s, a, b1, next_directive_bytes());
    let b2 = if c2 >= 0 {
        c2
    } else {
        b1
    };
    let c3 = find_sub(s, a, b2, space_hash_bytes());
    if c3 >= 0 {
        c3
    } else {
        b2
    }
}

/// The cop names of the comma-separated list `[a, b)`: each part trimmed,
/// cut at its first space, stripped of trailing punctuation, and kept when
/// not empty.
pub open spec fn split_cops(s: Seq<u8>, a: int, b: int) -> Seq<(int, int)>
    decreases b - a,
{
    if a > b {
        Seq::empty()
    } else {
        let c = find_byte(s, 44u8, a, b);
        let pe = if a <= c < b {
            c
        } else {
            b
        };
        let t1 = utrim_start(s, a, pe);
        let t2 = utrim_end(s, t1, pe);
        let sp = find_byte(s, 32u8, t1, t2);
        let t3 = if t1 <= sp < t2 {
            sp
        } else {
            t2
        };
        let t4 = trim_name_end(s, t1, t3);
        let here = if t4 > t1 {
            seq![(t1, t4)]
        } else {
            Seq::empty()
        };
        if a <= c < b {
            here + split_cops(s, c + 1, b)
        } else {
            here
        }
    }
}

/// A directive: its action, the ranges of its cop names, and where its
/// `#` is.
pub struct Directive {
    pub action: int,
    pub cops: Seq<(int, int)>,
    pub hash: int,
}

/// The action number of the word `s[a..b)`, if it is one.
pub open spec fn action_of(s: Seq<u8>, a: int, b: int) -> Option<int> {
    if b - a == 7 && starts_with_at(s, a, b, action_bytes(0)) {
        Some(0)
    } else if b - a == 6 && starts_with_at(s, a, b, action_bytes(1)) {
        Some(1)
    } else if b - a == 4 && starts_with_at(s, a, b, action_bytes(2)) {
        Some(2)
    } else {
        None
    }
}

/// The directives of the line `s[p..e)` found from position `from` on.
pub open spec fn directives_from(s: Seq<u8>, p: int, e: int, from: int) -> Seq<Directive>
    decreases e - from,
{
    let q = find_sub(s, from, e, prefix_bytes());
    if from >= e || q < from || q + 8 > e {
        Seq::empty()
    } else {
        let bt = utrim_end(s, p, q);
        if bt <= p || s[bt - 1] != 35u8 || (bt - 1 > p && s[bt - 2] == 96u8) {
            directives_from(s, p, e, q + 8)
        } else {
            let ae = first_ascii_ws(s, q + 8, e);
            match action_of(s, q + 8, ae) {
                None => directives_from(s, p, e, q + 8),
                Some(act) => {
                    let cs = utrim_start(s, ae, e);
                    let ce0 = utrim_end(s, cs, e);
                    let ce = cut_cops(s, cs, ce0);
                    let d = Directive { action: act, cops: split_cops(s, cs, ce), hash: bt - 1 };
                    let next = ae + (ce - cs);
                    if from < next <= e {
                        seq![d] + directives_from(s, p, e, next)
                    } else {
                        seq![d]
                    }
                },
            }
        }
    }
}


/// The department of a cop name: the text before its first `/`.
pub open spec fn dept_of(t: Seq<u8>) -> Seq<u8> {
    let k = find_byte(t, 47u8, 0, t.len() as int);
    if k >= 0 {
        t.subrange(0, k)
    } else {
        t
    }
}

/// The column of `cop` after the first `rubocop:enable` of the line
/// `s[p..e)`, or 0.
pub open spec fn cop_column(s: Seq<u8>, p: int, e: int, cop: Seq<u8>) -> int {
    let ep = find_sub(s, p, e, enable_prefix_bytes());
    if ep < 0 {
        0
    } else {
        let cp = find_sub(s, ep + 14, e, cop);
        if cp < 0 {
            0
        } else {
            cp - p
        }
    }
}

/// The cops disabled after the cops `cops[k..]` of a `disable` or `todo`
/// directive are added to `st`.
pub open spec fn insert_all(s: Seq<u8>, cops: Seq<(int, int)>, k: int, st: Set<Seq<u8>>) -> Set<Seq<u8>>
    decreases cops.len() - k,
{
    if k < 0 || k >= cops.len() {
        st
    } else {
        insert_all(s, cops, k + 1, st.insert(s.subrange(cops[k].0, cops[k].1)))
    }
}

/// The offenses of the cops `cops[k..]` of an `enable` directive on line
/// `line` (`s[p..e)`), with the disabled cops `st`; and the disabled cops
/// after them.
pub open spec fn enable_run(
    s: Seq<u8>,
    p: int,
    e: int,
    line: int,
    cops: Seq<(int, int)>,
    k: int,
    st: Set<Seq<u8>>,
) -> (Seq<(int, int, Seq<char>)>, Set<Seq<u8>>)
    decreases cops.len() - k,
{
    if k < 0 || k >= cops.len() {
        (Seq::empty(), st)
    } else {
        let c = s.subrange(cops[k].0, cops[k].1);
        let (here, st2) = if c == all_name_bytes() {
            if st == Set::<Seq<u8>>::empty() {
                (
                    seq![
                        (line, cop_column(s, p, e, c), "Unnecessary enabling of all cops."@),
                    ],
                    st,
                )
            } else {
                (Seq::empty(), Set::<Seq<u8>>::empty())
            }
        } else {
            let was = st.contains(c);
            let st1 = st.remove(c);
            let d = dept_of(c);
            let dept_was = d != c && st1.contains(d);
            if !was && !dept_was {
                (
                    seq![
                        (
                            line,
                            cop_column(s, p, e, c),
                            "Unnecessary enabling of "@ + lossy_text(c) + "."@,
                        ),
                    ],
                    st1,
                )
            } else {
                (Seq::empty(), st1)
            }
        };
        let rest = enable_run(s, p, e, line, cops, k + 1, st2);
        (here + rest.0, rest.1)
    }
}

/// The offenses of the directives `ds[j..]` of line `line` (`s[p..e)`)
/// with the disabled cops `st`, and the disabled cops after them.
/// Directives whose `#` lies in a string are ignored.
pub open spec fn dirs_run(
    s: Seq<u8>,
    code: CodeMap,
    p: int,
    e: int,
    line: int,
    ds: Seq<Directive>,
    j: int,
    st: Set<Seq<u8>>,
) -> (Seq<(int, int, Seq<char>)>, Set<Seq<u8>>)
    decreases ds.len() - j,
{
    if j < 0 || j >= ds.len() {
        (Seq::empty(), st)
    } else {
        let d = ds[j];
        let (here, st2) = if !code.spec_is_not_string(d.hash) {
            (Seq::empty(), st)
        } else if d.action == 1 {
            enable_run(s, p, e, line, d.cops, 0, st)
        } else {
            (Seq::empty(), insert_all(s, d.cops, 0, st))
        };
        let rest = dirs_run(s, code, p, e, line, ds, j + 1, st2);
        (here + rest.0, rest.1)
    }
}

/// The offenses of the lines from the one that starts at `p` on, with the
/// disabled cops `st`. Lines that are not valid UTF-8 are skipped.
pub open spec fn lines_run(s: Seq<u8>, code: CodeMap, p: int, st: Set<Seq<u8>>) -> Seq<
    (int, int, Seq<char>),
>
    decreases s.len() - p,
{
    if p < 0 || p > s.len() {
        Seq::empty()
    } else {
        let e = line_end(s, p);
        let (here, st2) = if valid_utf8(s.subrange(p, e)) {
            dirs_run(s, code, p, e, line_of(s, p) as int, directives_from(s, p, e, p), 0, st)
        } else {
            (Seq::empty(), st)
        };
        if p <= e < s.len() {
            here + lines_run(s, code, e + 1, st2)
        } else {
            here
        }
    }
}


/// The ranges `v` as integer ranges.
pub open spec fn ranges_view(v: Seq<(usize, usize)>) -> Seq<(int, int)>
    decreases v.len(),
{
    if v.len() == 0 {
        Seq::empty()
    } else {
        ranges_view(v.drop_last()).push((v.last().0 as int, v.last().1 as int))
    }
}

/// A directive found in a line: action, cop name ranges, `#` position.
pub struct DirectiveInfo {
    pub action: usize,
    pub cops: Vec<(usize, usize)>,
    pub hash: usize,
}

pub open spec fn dview(d: DirectiveInfo) -> Directive {
    Directive { action: d.action as int, cops: ranges_view(d.cops@), hash: d.hash as int }
}

pub open spec fn dviews(v: Seq<DirectiveInfo>) -> Seq<Directive>
    decreases v.len(),
{
    if v.len() == 0 {
        Seq::empty()
    } else {
        dviews(v.drop_last()).push(dview(v.last()))
    }
}

fn first_ascii_ws_exec(bytes: &[u8], a: usize, b: usize) -> (r: usize)
    requires
        a <= b <= bytes@.len(),
    ensures
        r == first_ascii_ws(bytes@, a as int, b as int),
        a <= r <= b,
{
    let mut q = a;
    while q < b && !(bytes[q] == 32u8 || bytes[q] == 9u8 || bytes[q] == 10u8 || bytes[q] == 12u8
        || bytes[q] == 13u8)
        invariant
            a <= q <= b <= bytes@.len(),
            first_ascii_ws(bytes@, a as int, b as int) == first_ascii_ws(bytes@, q as int, b as int),
        decreases b - q,
    {
        q = q + 1;
    }
    q
}

fn trim_name_end_exec(bytes: &[u8], a: usize, b: usize) -> (r: usize)
    requires
        a <= b <= bytes@.len(),
    ensures
        r == trim_name_end(bytes@, a as int, b as int),
        a <= r <= b,
{
    let mut q = b;
    while q > a && !(crate::cop::util::is_alnum(bytes[q - 1]) || bytes[q - 1] == 95u8 || bytes[q
        - 1] == 47u8)
        invariant
            a <= q <= b <= bytes@.len(),
            trim_name_end(bytes@, a as int, b as int) == trim_name_end(bytes@, a as int, q as int),
        decreases q - a,
    {
        q = q - 1;
    }
    q
}

fn cut_cops_exec(bytes: &[u8], a: usize, b: usize) -> (r: usize)
    requires
        a <= b <= bytes@.len(),
    ensures
        r == cut_cops(bytes@, a as int, b as int),
        a <= r <= b,
{
    let d1: Vec<u8> = vec![32u8, 45u8, 45u8, 32u8];
    let d2: Vec<u8> = vec![35u8, 32u8, 114u8, 117u8, 98u8, 111u8, 99u8, 111u8, 112u8, 58u8];
    let d3: Vec<u8> = vec![32u8, 35u8];
    let b1 = match find_sub_exec(bytes, a, b, d1.as_slice()) {
        Some(c) => c,
        None => b,
    };
    let b2 = match find_sub_exec(bytes, a, b1, d2.as_slice()) {
        Some(c) => c,
        None => b1,
    };
    match find_sub_exec(bytes, a, b2, d3.as_slice()) {
        Some(c) => c,
        None => b2,
    }
}

fn split_cops_exec(bytes: &[u8], a0: usize, b: usize) -> (r: Vec<(usize, usize)>)
    requires
        a0 <= b <= bytes@.len(),
    ensures
        ranges_view(r@) == split_cops(bytes@, a0 as int, b as int),
        forall|k: int| 0 <= k < r@.len() ==> #[trigger] r@[k].0 <= r@[k].1 <= b,
{
    let mut out: Vec<(usize, usize)> = Vec::new();
    let mut a = a0;
    loop
        invariant
            a0 <= a <= b <= bytes@.len(),
            ranges_view(out@) + split_cops(bytes@, a as int, b as int) == split_cops(
                bytes@,
                a0 as int,
                b as int,
            ),
            forall|k: int| 0 <= k < out@.len() ==> #[trigger] out@[k].0 <= out@[k].1 <= b,
        decreases b - a,
    {
        let c = find_byte_exec(bytes, 44u8, a, b);
        let pe = match c {
            Some(q) => q,
            None => b,
        };
        let t1 = utrim_start_exec(bytes, a, pe);
        let t2 = utrim_end_exec(bytes, t1, pe);
        let t3 = match find_byte_exec(bytes, 32u8, t1, t2) {
            Some(q) => q,
            None => t2,
        };
        let t4 = trim_name_end_exec(bytes, t1, t3);
        let ghost before = ranges_view(out@);
        let ghost here = if t4 > t1 {
            seq![(t1 as int, t4 as int)]
        } else {
            Seq::<(int, int)>::empty()
        };
        let ghost out0 = out@;
        if t4 > t1 {
            out.push((t1, t4));
            assert(out@.drop_last() =~= out0);
        }
        assert(ranges_view(out@) =~= before + here);
        match c {
            Some(q) => {
                assert(split_cops(bytes@, a as int, b as int) == here + split_cops(
                    bytes@,
                    q + 1,
                    b as int,
                ));
                assert(before + (here + split_cops(bytes@, q + 1, b as int)) =~= (before + here)
                    + split_cops(bytes@, q + 1, b as int));
                a = q + 1;
            },
            None => {
                assert(split_cops(bytes@, a as int, b as int) == here);
                assert(ranges_view(out@) + Seq::<(int, int)>::empty() =~= ranges_view(out@));
                assert(split_cops(bytes@, b as int, b as int) =~= Seq::<(int, int)>::empty()) by {
                    reveal_with_fuel(split_cops, 2);
                }
                return out;
            },
        }
    }
}


/// The positions of a directive lie within the line `[p, e)`.
pub open spec fn directive_ok(d: DirectiveInfo, p: int, e: int) -> bool {
    &&& d.action < 3
    &&& p <= d.hash < e
    &&& forall|k: int| 0 <= k < d.cops@.len() ==> #[trigger] d.cops@[k].0 <= d.cops@[k].1 <= e
}

fn action_of_exec(bytes: &[u8], a: usize, b: usize) -> (r: Option<usize>)
    requires
        a <= b <= bytes@.len(),
    ensures
        match r {
            Some(k) => action_of(bytes@, a as int, b as int) == Some(k as int) && k < 3,
            None => action_of(bytes@, a as int, b as int) is None,
        },
{
    let dis: Vec<u8> = vec![100u8, 105u8, 115u8, 97u8, 98u8, 108u8, 101u8];
    let ena: Vec<u8> = vec![101u8, 110u8, 97u8, 98u8, 108u8, 101u8];
    let todo: Vec<u8> = vec![116u8, 111u8, 100u8, 111u8];
    assert(dis@ == action_bytes(0));
    assert(ena@ == action_bytes(1));
    assert(todo@ == action_bytes(2));
    if b - a == 7 && crate::cop::util::starts_with_at_exec(bytes, a, b, dis.as_slice()) {
        Some(0)
    } else if b - a == 6 && crate::cop::util::starts_with_at_exec(bytes, a, b, ena.as_slice()) {
        Some(1)
    } else if b - a == 4 && crate::cop::util::starts_with_at_exec(bytes, a, b, todo.as_slice()) {
        Some(2)
    } else {
        None
    }
}

/// The directives of the line `bytes[p..e)`, in order.
pub fn parse_all_directives(bytes: &[u8], p: usize, e: usize) -> (r: Vec<DirectiveInfo>)
    requires
        p <= e <= bytes@.len(),
    ensures
        dviews(r@) == directives_from(bytes@, p as int, e as int, p as int),
        forall|j: int| 0 <= j < r@.len() ==> directive_ok(#[trigger] r@[j], p as int, e as int),
{
    let prefix: Vec<u8> = vec![114u8, 117u8, 98u8, 111u8, 99u8, 111u8, 112u8, 58u8];
    let mut out: Vec<DirectiveInfo> = Vec::new();
    let mut from = p;
    loop
        invariant
            p <= from <= e <= bytes@.len(),
            prefix@ == prefix_bytes(),
            dviews(out@) + directives_from(bytes@, p as int, e as int, from as int) == directives_from(
                bytes@,
                p as int,
                e as int,
                p as int,
            ),
            forall|j: int| 0 <= j < out@.len() ==> directive_ok(#[trigger] out@[j], p as int, e as int),
        decreases e - from,
    {
        let ghost sp = directives_from(bytes@, p as int, e as int, from as int);
        if from >= e {
            assert(sp =~= Seq::<Directive>::empty());
            assert(dviews(out@) + sp =~= dviews(out@));
            return out;
        }
        let q = match find_sub_exec(bytes, from, e, prefix.as_slice()) {
            Some(q) => q,
            None => {
                assert(sp =~= Seq::<Directive>::empty());
                assert(dviews(out@) + sp =~= dviews(out@));
                return out;
            },
        };
        let bt = utrim_end_exec(bytes, p, q);
        if bt <= p || bytes[bt - 1] != 35u8 || (bt - 1 > p && bytes[bt - 2] == 96u8) {
            from = q + 8;
        } else {
            let ae = first_ascii_ws_exec(bytes, q + 8, e);
            match action_of_exec(bytes, q + 8, ae) {
                None => {
                    from = q + 8;
                },
                Some(act) => {
                    let cs = utrim_start_exec(bytes, ae, e);
                    let ce0 = utrim_end_exec(bytes, cs, e);
                    let ce = cut_cops_exec(bytes, cs, ce0);
                    let cops = split_cops_exec(bytes, cs, ce);
                    let d = DirectiveInfo { action: act, cops, hash: bt - 1 };
                    let ghost out0 = out@;
                    assert(ce0 <= e);
                    assert(directive_ok(d, p as int, e as int));
                    out.push(d);
                    assert(out@.drop_last() =~= out0);
                    assert forall|j: int| 0 <= j < out@.len() implies directive_ok(#[trigger] out@[j], p as int, e as int) by {
                        if j < out0.len() {
                            assert(out@[j] == out0[j]);
                        }
                    }
                    let next = ae + (ce - cs);
                    let ghost dd = Directive {
                        action: act as int,
                        cops: split_cops(bytes@, cs as int, ce as int),
                        hash: bt - 1,
                    };
                    assert(dview(out@.last()) == dd);
                    assert(dviews(out@) == dviews(out0).push(dd));
                    if from < next && next <= e {
                        assert(sp == seq![dd] + directives_from(bytes@, p as int, e as int, next as int));
                        assert(dviews(out0) + sp =~= dviews(out@) + directives_from(
                            bytes@,
                            p as int,
                            e as int,
                            next as int,
                        ));
                        from = next;
                    } else {
                        assert(sp == seq![dd]);
                        assert(dviews(out0) + sp =~= dviews(out@));
                        return out;
                    }
                },
            }
        }
    }
}


/// The names held by `v`, as a set.
pub open spec fn set_view(v: Seq<Vec<u8>>) -> Set<Seq<u8>> {
    Set::new(|x: Seq<u8>| exists|i: int| 0 <= i < v.len() && #[trigger] v[i]@ == x)
}

fn bytes_eq(a: &[u8], b: &[u8]) -> (r: bool)
    ensures
        r == (a@ == b@),
{
    let r = range_eq(a, 0, a.len(), b);
    assert(a@.subrange(0, a@.len() as int) =~= a@);
    r
}

fn set_contains(v: &Vec<Vec<u8>>, x: &[u8]) -> (r: bool)
    ensures
        r == set_view(v@).contains(x@),
{
    let mut i: usize = 0;
    while i < v.len()
        invariant
            i <= v@.len(),
            forall|j: int| 0 <= j < i ==> v@[j]@ != x@,
        decreases v@.len() - i,
    {
        if bytes_eq(v[i].as_slice(), x) {
            assert(v@[i as int]@ == x@);
            return true;
        }
        i = i + 1;
    }
    false
}

fn set_insert(v: &mut Vec<Vec<u8>>, x: &[u8])
    ensures
        set_view(final(v)@) == set_view(old(v)@).insert(x@),
{
    let mut copy: Vec<u8> = Vec::new();
    copy.extend_from_slice(x);
    let ghost v0 = v@;
    v.push(copy);
    assert(v@[v0.len() as int]@ == x@);
    assert forall|y: Seq<u8>| set_view(v@).contains(y) <==> set_view(v0).insert(x@).contains(y) by {
        if set_view(v@).contains(y) {
            let i = choose|i: int| 0 <= i < v@.len() && #[trigger] v@[i]@ == y;
            if i < v0.len() {
                assert(v0[i]@ == y);
                assert(set_view(v0).contains(y));
            } else {
                assert(y == x@);
            }
        }
        if set_view(v0).contains(y) {
            let i = choose|i: int| 0 <= i < v0.len() && #[trigger] v0[i]@ == y;
            assert(v@[i]@ == y);
        }
        if y == x@ {
            assert(v@[v0.len() as int]@ == y);
        }
    }
    assert(set_view(v@) =~= set_view(v0).insert(x@));
}

fn set_remove(v: &mut Vec<Vec<u8>>, x: &[u8])
    ensures
        set_view(final(v)@) == set_view(old(v)@).remove(x@),
{
    let mut kept: Vec<Vec<u8>> = Vec::new();
    let ghost v0 = v@;
    let mut i: usize = 0;
    while i < v.len()
        invariant
            i <= v@.len(),
            v@ == v0,
            forall|y: Seq<u8>|
                #![trigger set_view(kept@).contains(y)]
                set_view(kept@).contains(y) <==> (y != x@ && exists|j: int|
                    0 <= j < i && #[trigger] v0[j]@ == y),
        decreases v@.len() - i,
    {
        let ghost k0 = kept@;
        if !bytes_eq(v[i].as_slice(), x) {
            let mut copy: Vec<u8> = Vec::new();
            copy.extend_from_slice(v[i].as_slice());
            kept.push(copy);
        }
        assert forall|y: Seq<u8>|
            #![trigger set_view(kept@).contains(y)]
            set_view(kept@).contains(y) <==> (y != x@ && exists|j: int|
                0 <= j < i + 1 && #[trigger] v0[j]@ == y) by {
            if set_view(kept@).contains(y) {
                let q = choose|q: int| 0 <= q < kept@.len() && #[trigger] kept@[q]@ == y;
                if q < k0.len() {
                    assert(k0[q]@ == y);
                    assert(set_view(k0).contains(y));
                } else {
                    assert(v0[i as int]@ == y);
                }
            }
            if y != x@ && exists|j: int| 0 <= j < i + 1 && #[trigger] v0[j]@ == y {
                let j = choose|j: int| 0 <= j < i + 1 && #[trigger] v0[j]@ == y;
                if j < i {
                    assert(set_view(k0).contains(y));
                    let q = choose|q: int| 0 <= q < k0.len() && #[trigger] k0[q]@ == y;
                    assert(kept@[q]@ == y);
                } else {
                    assert(kept@[kept@.len() - 1]@ == y);
                }
            }
        }
        i = i + 1;
    }
    *v = kept;
    assert(set_view(v@) =~= set_view(v0).remove(x@));
}


fn cop_column_exec(bytes: &[u8], p: usize, e: usize, cop: &[u8]) -> (r: usize)
    requires
        p <= e <= bytes@.len(),
    ensures
        r == cop_column(bytes@, p as int, e as int, cop@),
{
    let en: Vec<u8> = vec![114u8, 117u8, 98u8, 111u8, 99u8, 111u8, 112u8, 58u8, 101u8, 110u8, 97u8, 98u8, 108u8, 101u8];
    assert(en@ == enable_prefix_bytes());
    match find_sub_exec(bytes, p, e, en.as_slice()) {
        None => 0,
        Some(ep) => match find_sub_exec(bytes, ep + 14, e, cop) {
            None => 0,
            Some(cp) => cp - p,
        },
    }
}

fn dept_exec(c: &[u8]) -> (r: &[u8])
    ensures
        r@ == dept_of(c@),
{
    match find_byte_exec(c, 47u8, 0, c.len()) {
        Some(k) => vstd::slice::slice_subrange(c, 0, k),
        None => c,
    }
}

fn run_insert(bytes: &[u8], cops: &Vec<(usize, usize)>, disabled: &mut Vec<Vec<u8>>)
    requires
        forall|k: int| 0 <= k < cops@.len() ==> #[trigger] cops@[k].0 <= cops@[k].1 <= bytes@.len(),
    ensures
        set_view(final(disabled)@) == insert_all(bytes@, ranges_view(cops@), 0, set_view(old(disabled)@)),
{
    let mut k: usize = 0;
    proof {
        lemma_ranges_view(cops@);
    }
    while k < cops.len()
        invariant
            k <= cops@.len(),
            forall|j: int| 0 <= j < cops@.len() ==> #[trigger] cops@[j].0 <= cops@[j].1 <= bytes@.len(),
            ranges_view(cops@).len() == cops@.len(),
            forall|j: int| 0 <= j < cops@.len() ==> #[trigger] ranges_view(cops@)[j] == (cops@[j].0 as int, cops@[j].1 as int),
            insert_all(bytes@, ranges_view(cops@), 0, set_view(old(disabled)@)) == insert_all(
                bytes@,
                ranges_view(cops@),
                k as int,
                set_view(disabled@),
            ),
        decreases cops@.len() - k,
    {
        let (a, b) = cops[k];
        assert(ranges_view(cops@)[k as int] == (a as int, b as int));
        set_insert(disabled, vstd::slice::slice_subrange(bytes, a, b));
        k = k + 1;
    }
}

proof fn lemma_ranges_view(v: Seq<(usize, usize)>)
    ensures
        ranges_view(v).len() == v.len(),
        forall|j: int| 0 <= j < v.len() ==> #[trigger] ranges_view(v)[j] == (v[j].0 as int, v[j].1 as int),
    decreases v.len(),
{
    if v.len() > 0 {
        lemma_ranges_view(v.drop_last());
        assert forall|j: int| 0 <= j < v.len() implies #[trigger] ranges_view(v)[j] == (v[j].0 as int, v[j].1 as int) by {
            if j < v.len() - 1 {
                assert(ranges_view(v.drop_last())[j] == (v.drop_last()[j].0 as int, v.drop_last()[j].1 as int));
            }
        }
    }
}

fn run_enable(
    source: &SourceFile,
    bytes: &[u8],
    p: usize,
    e: usize,
    line: usize,
    cops: &Vec<(usize, usize)>,
    disabled: &mut Vec<Vec<u8>>,
    diagnostics: &mut Vec<Diagnostic>,
)
    requires
        p <= e <= bytes@.len(),
        bytes@ == source@,
        forall|k: int| 0 <= k < cops@.len() ==> #[trigger] cops@[k].0 <= cops@[k].1 <= e,
    ensures
        ({
            let run = enable_run(
                bytes@,
                p as int,
                e as int,
                line as int,
                ranges_view(cops@),
                0,
                set_view(old(disabled)@),
            );
            &&& extends_with_reports(
                old(diagnostics)@,
                final(diagnostics)@,
                source.spec_path(),
                "Lint/RedundantCopEnableDirective"@,
                Severity::Warning,
                run.0,
                false,
            )
            &&& set_view(final(disabled)@) == run.1
        }),
{
    let cop = "Lint/RedundantCopEnableDirective";
    let all: Vec<u8> = vec![97u8, 108u8, 108u8];
    assert(all@ == all_name_bytes());
    let ghost s = bytes@;
    let ghost cv = ranges_view(cops@);
    let ghost st0 = set_view(disabled@);
    let ghost path = source.spec_path();
    let ghost mut acc = Seq::<(int, int, Seq<char>)>::empty();
    proof {
        lemma_ranges_view(cops@);
        lemma_reports_empty(diagnostics@, path, cop@, Severity::Warning, false);
    }
    let mut k: usize = 0;
    while k < cops.len()
        invariant
            k <= cops@.len(),
            p <= e <= s.len(),
            s == bytes@,
            s == source@,
            path == source.spec_path(),
            cop@ == "Lint/RedundantCopEnableDirective"@,
            all@ == all_name_bytes(),
            cv == ranges_view(cops@),
            cv.len() == cops@.len(),
            forall|j: int| 0 <= j < cops@.len() ==> #[trigger] cv[j] == (cops@[j].0 as int, cops@[j].1 as int),
            forall|j: int| 0 <= j < cops@.len() ==> #[trigger] cops@[j].0 <= cops@[j].1 <= e,
            ({
                let whole = enable_run(s, p as int, e as int, line as int, cv, 0, st0);
                let rest = enable_run(s, p as int, e as int, line as int, cv, k as int, set_view(disabled@));
                &&& acc + rest.0 == whole.0
                &&& rest.1 == whole.1
            }),
            extends_with_reports(
                old(diagnostics)@,
                diagnostics@,
                path,
                cop@,
                Severity::Warning,
                acc,
                false,
            ),
        decreases cops@.len() - k,
    {
        let (a, b) = cops[k];
        assert(cv[k as int] == (a as int, b as int));
        let c = vstd::slice::slice_subrange(bytes, a, b);
        let ghost st = set_view(disabled@);
        let ghost rest_k = enable_run(s, p as int, e as int, line as int, cv, k as int, st);
        let ghost cc = s.subrange(a as int, b as int);
        let ghost emitted: Seq<(int, int, Seq<char>)> = Seq::empty();
        let ghost d0 = diagnostics@;
        if bytes_eq(c, all.as_slice()) {
            if disabled.len() == 0 {
                assert(st =~= Set::<Seq<u8>>::empty());
                let col = cop_column_exec(bytes, p, e, c);
                let d = new_diagnostic(source, cop, Severity::Warning, line, col, "Unnecessary enabling of all cops.".to_owned());
                diagnostics.push(d);
                proof {
                    assert(diagnostics@.drop_last() =~= d0);
                    emitted = seq![(line as int, col as int, "Unnecessary enabling of all cops."@)];
                    lemma_reports_push(old(diagnostics)@, d0, diagnostics@, path, cop@, Severity::Warning, acc, emitted[0], false);
                    assert(acc.push(emitted[0]) =~= acc + emitted);
                }
            } else {
                assert(st.contains(disabled@[0]@));
                assert(st != Set::<Seq<u8>>::empty());
                *disabled = Vec::new();
                assert(set_view(disabled@) =~= Set::<Seq<u8>>::empty());
                assert(acc + emitted =~= acc);
            }
        } else {
            let was = set_contains(disabled, c);
            set_remove(disabled, c);
            let d = dept_exec(c);
            let dept_was = !bytes_eq(d, c) && set_contains(disabled, d);
            if !was && !dept_was {
                let col = cop_column_exec(bytes, p, e, c);
                let mut msg = "Unnecessary enabling of ".to_owned();
                let name = text_of(c);
                msg.append(name.as_str());
                msg.append(".");
                let ghost m = msg@;
                let dg = new_diagnostic(source, cop, Severity::Warning, line, col, msg);
                diagnostics.push(dg);
                proof {
                    assert(diagnostics@.drop_last() =~= d0);
                    emitted = seq![(line as int, col as int, m)];
                    lemma_reports_push(old(diagnostics)@, d0, diagnostics@, path, cop@, Severity::Warning, acc, emitted[0], false);
                    assert(acc.push(emitted[0]) =~= acc + emitted);
                }
            } else {
                assert(acc + emitted =~= acc);
            }
        }
        proof {
            let rest_next = enable_run(s, p as int, e as int, line as int, cv, k + 1, set_view(disabled@));
            assert(rest_k.0 == emitted + rest_next.0);
            assert(rest_k.1 == rest_next.1);
            assert(acc + rest_k.0 =~= (acc + emitted) + rest_next.0);
            acc = acc + emitted;
        }
        k = k + 1;
    }
    proof {
        let rest = enable_run(s, p as int, e as int, line as int, cv, k as int, set_view(disabled@));
        assert(rest.0 =~= Seq::<(int, int, Seq<char>)>::empty());
        assert(acc + rest.0 =~= acc);
    }
}


fn run_line(
    source: &SourceFile,
    bytes: &[u8],
    code: &CodeMap,
    p: usize,
    e: usize,
    line: usize,
    disabled: &mut Vec<Vec<u8>>,
    diagnostics: &mut Vec<Diagnostic>,
)
    requires
        p <= e <= bytes@.len(),
        bytes@ == source@,
    ensures
        ({
            let run = dirs_run(
                bytes@,
                *code,
                p as int,
                e as int,
                line as int,
                directives_from(bytes@, p as int, e as int, p as int),
                0,
                set_view(old(disabled)@),
            );
            &&& extends_with_reports(
                old(diagnostics)@,
                final(diagnostics)@,
                source.spec_path(),
                "Lint/RedundantCopEnableDirective"@,
                Severity::Warning,
                run.0,
                false,
            )
            &&& set_view(final(disabled)@) == run.1
        }),
{
    let ghost s = bytes@;
    let ghost path = source.spec_path();
    let ghost cop = "Lint/RedundantCopEnableDirective"@;
    let dirs = parse_all_directives(bytes, p, e);
    let ghost ds = directives_from(s, p as int, e as int, p as int);
    let ghost st0 = set_view(disabled@);
    let ghost mut acc = Seq::<(int, int, Seq<char>)>::empty();
    proof {
        lemma_reports_empty(diagnostics@, path, cop, Severity::Warning, false);
        lemma_dviews(dirs@);
    }
    let mut j: usize = 0;
    while j < dirs.len()
        invariant
            j <= dirs@.len(),
            p <= e <= s.len(),
            s == bytes@,
            s == source@,
            path == source.spec_path(),
            cop == "Lint/RedundantCopEnableDirective"@,
            ds == dviews(dirs@),
            ds.len() == dirs@.len(),
            forall|q: int| 0 <= q < dirs@.len() ==> #[trigger] ds[q] == dview(dirs@[q]),
            forall|q: int| 0 <= q < dirs@.len() ==> directive_ok(#[trigger] dirs@[q], p as int, e as int),
            ({
                let whole = dirs_run(s, *code, p as int, e as int, line as int, ds, 0, st0);
                let rest = dirs_run(s, *code, p as int, e as int, line as int, ds, j as int, set_view(disabled@));
                &&& acc + rest.0 == whole.0
                &&& rest.1 == whole.1
            }),
            extends_with_reports(old(diagnostics)@, diagnostics@, path, cop, Severity::Warning, acc, false),
        decreases dirs@.len() - j,
    {
        let d = &dirs[j];
        assert(ds[j as int] == dview(*d));
        assert(directive_ok(*d, p as int, e as int));
        let ghost st = set_view(disabled@);
        let ghost rest_j = dirs_run(s, *code, p as int, e as int, line as int, ds, j as int, st);
        let ghost d0 = diagnostics@;
        let ghost mut emitted: Seq<(int, int, Seq<char>)> = Seq::empty();
        if !code.is_not_string(d.hash) {
            assert(acc + emitted =~= acc);
        } else if d.action == 1 {
            run_enable(source, bytes, p, e, line, &d.cops, disabled, diagnostics);
            proof {
                emitted = enable_run(s, p as int, e as int, line as int, ranges_view(d.cops@), 0, st).0;
                lemma_reports_concat(old(diagnostics)@, d0, diagnostics@, path, cop, Severity::Warning, acc, emitted, false);
            }
        } else {
            run_insert(bytes, &d.cops, disabled);
            assert(acc + emitted =~= acc);
        }
        proof {
            let rest_next = dirs_run(s, *code, p as int, e as int, line as int, ds, j + 1, set_view(disabled@));
            assert(rest_j.0 == emitted + rest_next.0);
            assert(rest_j.1 == rest_next.1);
            assert(acc + rest_j.0 =~= (acc + emitted) + rest_next.0);
            acc = acc + emitted;
        }
        j = j + 1;
    }
    proof {
        let rest = dirs_run(s, *code, p as int, e as int, line as int, ds, j as int, set_view(disabled@));
        assert(rest.0 =~= Seq::<(int, int, Seq<char>)>::empty());
        assert(acc + rest.0 =~= acc);
    }
}

proof fn lemma_dviews(v: Seq<DirectiveInfo>)
    ensures
        dviews(v).len() == v.len(),
        forall|j: int| 0 <= j < v.len() ==> #[trigger] dviews(v)[j] == dview(v[j]),
    decreases v.len(),
{
    if v.len() > 0 {
        lemma_dviews(v.drop_last());
        assert forall|j: int| 0 <= j < v.len() implies #[trigger] dviews(v)[j] == dview(v[j]) by {
            if j < v.len() - 1 {
                assert(dviews(v.drop_last())[j] == dview(v.drop_last()[j]));
            }
        }
    }
}

impl RedundantCopEnableDirective {
    pub fn name(&self) -> (r: &'static str)
        ensures
            r@ == "Lint/RedundantCopEnableDirective"@,
    {
        "Lint/RedundantCopEnableDirective"
    }

    pub fn default_severity(&self) -> (r: Severity)
        ensures
            r == Severity::Warning,
    {
        Severity::Warning
    }

    /// Checks the directives of `source`, line by line, tracking which cops
    /// are disabled: one report per `rubocop:enable` of a cop (or of `all`)
    /// that was not disabled. Directives whose `#` lies in a string are
    /// ignored.
    pub fn check_source(&self, source: &SourceFile, code: &CodeMap, diagnostics: &mut Vec<Diagnostic>)
        ensures
            extends_with_reports(
                old(diagnostics)@,
                final(diagnostics)@,
                source.spec_path(),
                "Lint/RedundantCopEnableDirective"@,
                Severity::Warning,
                lines_run(source@, *code, 0, Set::empty()),
                false,
            ),
    {
        let ghost cop = "Lint/RedundantCopEnableDirective"@;
        let ghost path = source.spec_path();
        let bytes = source.as_bytes();
        let ghost s = bytes@;
        let n = bytes.len();
        let mut disabled: Vec<Vec<u8>> = Vec::new();
        assert(set_view(disabled@) =~= Set::<Seq<u8>>::empty());
        let ghost mut acc = Seq::<(int, int, Seq<char>)>::empty();
        proof {
            lemma_reports_empty(diagnostics@, path, cop, Severity::Warning, false);
        }
        let mut p: usize = 0;
        loop
            invariant
                p <= n == s.len(),
                s == bytes@,
                s == source@,
                path == source.spec_path(),
                cop == "Lint/RedundantCopEnableDirective"@,
                acc + lines_run(s, *code, p as int, set_view(disabled@)) == lines_run(
                    s,
                    *code,
                    0,
                    Set::empty(),
                ),
                extends_with_reports(old(diagnostics)@, diagnostics@, path, cop, Severity::Warning, acc, false),
            decreases n - p,
        {
            let e = crate::cop::util::line_end_exec(bytes, p);
            let ghost st = set_view(disabled@);
            let ghost whole_p = lines_run(s, *code, p as int, st);
            let ghost d0 = diagnostics@;
            let ghost mut emitted: Seq<(int, int, Seq<char>)> = Seq::empty();
            let line_bytes = vstd::slice::slice_subrange(bytes, p, e);
            if is_valid_utf8(line_bytes) {
                let (line, _) = source.offset_to_line_col(p);
                run_line(source, bytes, code, p, e, line, &mut disabled, diagnostics);
                proof {
                    emitted = dirs_run(
                        s,
                        *code,
                        p as int,
                        e as int,
                        line as int,
                        directives_from(s, p as int, e as int, p as int),
                        0,
                        st,
                    ).0;
                    lemma_reports_concat(old(diagnostics)@, d0, diagnostics@, path, cop, Severity::Warning, acc, emitted, false);
                }
            } else {
                assert(acc + emitted =~= acc);
            }
            if e >= n {
                proof {
                    assert(whole_p == emitted);
                    acc = acc + emitted;
                }
                return;
            }
            proof {
                assert(whole_p == emitted + lines_run(s, *code, e + 1, set_view(disabled@)));
                assert(acc + whole_p =~= (acc + emitted) + lines_run(s, *code, e + 1, set_view(disabled@)));
                acc = acc + emitted;
            }
            p = e + 1;
        }
    }
}

} // verus!
