use vstd::prelude::*;

verus! {

/// What a list of byte strings holds.
pub open spec fn views(v: Seq<Vec<u8>>) -> Seq<Seq<u8>> {
    v.map_values(|x: Vec<u8>| x@)
}

/// The parts of `s` between the bytes `sep`, as `str::split` gives them: one
/// more part than there are separators, empty ones included.
pub open spec fn split_on(s: Seq<u8>, sep: u8) -> Seq<Seq<u8>>
    decreases s.len(),
{
    if s.len() == 0 {
        seq![Seq::empty()]
    } else {
        let r = split_on(s.drop_last(), sep);
        if s.last() == sep {
            r.push(Seq::empty())
        } else {
            r.update(r.len() - 1, r.last().push(s.last()))
        }
    }
}

pub proof fn lemma_split_nonempty(s: Seq<u8>, sep: u8)
    ensures
        split_on(s, sep).len() >= 1,
    decreases s.len(),
{
    if s.len() > 0 {
        lemma_split_nonempty(s.drop_last(), sep);
    }
}

/// The parts joined with `sep` between them, as `join` gives it.
pub open spec fn join_with(parts: Seq<Seq<u8>>, sep: Seq<u8>) -> Seq<u8>
    decreases parts.len(),
{
    if parts.len() == 0 {
        Seq::empty()
    } else if parts.len() == 1 {
        parts[0]
    } else {
        join_with(parts.drop_last(), sep) + sep + parts.last()
    }
}

/// ASCII upper-case letters made lower-case.
pub open spec fn ascii_lower(s: Seq<u8>) -> Seq<u8> {
    s.map_values(|b: u8| if 65u8 <= b <= 90u8 { (b + 32) as u8 } else { b })
}

/// ASCII lower-case letters made upper-case.
pub open spec fn ascii_upper(s: Seq<u8>) -> Seq<u8> {
    s.map_values(|b: u8| if 97u8 <= b <= 122u8 { (b - 32) as u8 } else { b })
}

/// `t` occurs in `s`.
pub open spec fn text_contains(s: Seq<char>, t: Seq<char>) -> bool {
    exists|i: int| 0 <= i && i + t.len() <= s.len() && #[trigger] s.subrange(i, i + t.len()) == t
}

/// Whether `t` occurs in `s`, as `str::contains` answers it.
pub fn text_contains_exec(s: &str, t: &str) -> (r: bool)
    ensures
        r == text_contains(s@, t@),
{
    let n = s.unicode_len();
    let m = t.unicode_len();
    if m > n {
        assert forall|i: int| 0 <= i && i + t@.len() <= s@.len() implies #[trigger] s@.subrange(i, i + t@.len()) != t@ by {}
        return false;
    }
    if m == 0 {
        assert(s@.subrange(0int, 0int + t@.len()) =~= t@);
        return true;
    }
    let mut i: usize = 0;
    while i <= n - m
        invariant
            n == s@.len(),
            m == t@.len(),
            0 < m <= n,
            forall|k: int| 0 <= k < i ==> #[trigger] s@.subrange(k, k + t@.len()) != t@,
        decreases n - m + 1 - i,
    {
        let mut j: usize = 0;
        let mut same = true;
        while j < m && same
            invariant
                n == s@.len(),
                m == t@.len(),
                i + m <= n,
                j <= m,
                same ==> forall|q: int| 0 <= q < j ==> s@[i + q] == t@[q],
                !same ==> s@.subrange(i as int, i + t@.len()) != t@,
            decreases m - j + (if same { 1int } else { 0int }),
        {
            if s.get_char(i + j) != t.get_char(j) {
                assert(s@.subrange(i as int, i + t@.len())[j as int] == s@[i + j]);
                same = false;
            } else {
                j = j + 1;
            }
        }
        if same {
            assert(s@.subrange(i as int, i + t@.len()) =~= t@);
            return true;
        }
        i = i + 1;
    }
    false
}

pub fn split_on_exec(s: &[u8], sep: u8) -> (r: Vec<Vec<u8>>)
    ensures
        views(r@) == split_on(s@, sep),
{
    let mut out: Vec<Vec<u8>> = Vec::new();
    let mut cur: Vec<u8> = Vec::new();
    let mut i: usize = 0;
    assert(s@.subrange(0, 0) =~= Seq::<u8>::empty());
    assert(views(out@).push(cur@) =~= split_on(s@.subrange(0, 0), sep));
    while i < s.len()
        invariant
            i <= s@.len(),
            views(out@).push(cur@) == split_on(s@.subrange(0, i as int), sep),
        decreases s@.len() - i,
    {
        let ghost before = views(out@).push(cur@);
        assert(s@.subrange(0, i + 1).drop_last() =~= s@.subrange(0, i as int));
        if s[i] == sep {
            out.push(cur);
            cur = Vec::new();
            assert(views(out@).push(cur@) =~= before.push(Seq::empty()));
        } else {
            let ghost old_cur = cur@;
            cur.push(s[i]);
            assert(views(out@).push(cur@) =~= before.update(before.len() - 1, old_cur.push(s@[i as int])));
        }
        i = i + 1;
    }
    assert(s@.subrange(0, s@.len() as int) =~= s@);
    out.push(cur);
    out
}

pub fn join_exec(parts: &Vec<Vec<u8>>, sep: &[u8]) -> (r: Vec<u8>)
    ensures
        r@ == join_with(views(parts@), sep@),
{
    let mut out: Vec<u8> = Vec::new();
    let mut k: usize = 0;
    while k < parts.len()
        invariant
            k <= parts@.len(),
            out@ == join_with(views(parts@.subrange(0, k as int)), sep@),
        decreases parts@.len() - k,
    {
        let ghost before = out@;
        if k > 0 {
            let mut j: usize = 0;
            while j < sep.len()
                invariant
                    j <= sep@.len(),
                    out@ == before + sep@.subrange(0, j as int),
                decreases sep@.len() - j,
            {
                out.push(sep[j]);
                assert(before + sep@.subrange(0, j + 1) =~= (before + sep@.subrange(0, j as int)).push(sep@[j as int]));
                j = j + 1;
            }
            assert(sep@.subrange(0, sep@.len() as int) =~= sep@);
        }
        let ghost mid = out@;
        let p = &parts[k];
        let mut j: usize = 0;
        while j < p.len()
            invariant
                j <= p@.len(),
                out@ == mid + p@.subrange(0, j as int),
            decreases p@.len() - j,
        {
            out.push(p[j]);
            assert(mid + p@.subrange(0, j + 1) =~= (mid + p@.subrange(0, j as int)).push(p@[j as int]));
            j = j + 1;
        }
        assert(p@.subrange(0, p@.len() as int) =~= p@);
        let ghost vs = views(parts@.subrange(0, k + 1));
        assert(vs.drop_last() =~= views(parts@.subrange(0, k as int)));
        assert(vs.last() == p@);
        if k == 0 {
            assert(before =~= Seq::<u8>::empty());
            assert(out@ =~= p@);
        }
        k = k + 1;
    }
    assert(parts@.subrange(0, parts@.len() as int) =~= parts@);
    out
}

pub fn ascii_lower_exec(s: &[u8]) -> (r: Vec<u8>)
    ensures
        r@ == ascii_lower(s@),
{
    let mut out: Vec<u8> = Vec::new();
    let mut i: usize = 0;
    while i < s.len()
        invariant
            i <= s@.len(),
            out@ == ascii_lower(s@.subrange(0, i as int)),
        decreases s@.len() - i,
    {
        let b = s[i];
        let c = if 65u8 <= b && b <= 90u8 {
            b + 32
        } else {
            b
        };
        out.push(c);
        assert(ascii_lower(s@.subrange(0, i + 1)) =~= ascii_lower(s@.subrange(0, i as int)).push(c));
        i = i + 1;
    }
    assert(s@.subrange(0, s@.len() as int) =~= s@);
    out
}

pub fn ascii_upper_exec(s: &[u8]) -> (r: Vec<u8>)
    ensures
        r@ == ascii_upper(s@),
{
    let mut out: Vec<u8> = Vec::new();
    let mut i: usize = 0;
    while i < s.len()
        invariant
            i <= s@.len(),
            out@ == ascii_upper(s@.subrange(0, i as int)),
        decreases s@.len() - i,
    {
        let b = s[i];
        let c = if 97u8 <= b && b <= 122u8 {
            b - 32
        } else {
            b
        };
        out.push(c);
        assert(ascii_upper(s@.subrange(0, i + 1)) =~= ascii_upper(s@.subrange(0, i as int)).push(c));
        i = i + 1;
    }
    assert(s@.subrange(0, s@.len() as int) =~= s@);
    out
}

/// The bytes of `a` followed by those of `b`.
pub fn concat_bytes(a: &[u8], b: &[u8]) -> (r: Vec<u8>)
    ensures
        r@ == a@ + b@,
{
    let mut out: Vec<u8> = Vec::new();
    let mut k: usize = 0;
    while k < a.len()
        invariant
            k <= a@.len(),
            out@ == a@.subrange(0, k as int),
        decreases a@.len() - k,
    {
        out.push(a[k]);
        assert(a@.subrange(0, k + 1) =~= a@.subrange(0, k as int).push(a@[k as int]));
        k = k + 1;
    }
    assert(a@.subrange(0, a@.len() as int) =~= a@);
    let mut k: usize = 0;
    while k < b.len()
        invariant
            k <= b@.len(),
            out@ == a@ + b@.subrange(0, k as int),
        decreases b@.len() - k,
    {
        out.push(b[k]);
        assert(a@ + b@.subrange(0, k + 1) =~= (a@ + b@.subrange(0, k as int)).push(b@[k as int]));
        k = k + 1;
    }
    assert(b@.subrange(0, b@.len() as int) =~= b@);
    out
}

} // verus!
