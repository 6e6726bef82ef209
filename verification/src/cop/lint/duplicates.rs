use vstd::prelude::*;

verus! {

/// Rust's `u8::is_ascii_whitespace`: space, tab, line feed, form feed and
/// carriage return.
pub open spec fn spec_ascii_ws(b: u8) -> bool {
    b == 32 || b == 9 || b == 10 || b == 12 || b == 13
}

/// The item at `(g, i)` of a list of groups has the key of an item before it,
/// the groups taken in order.
pub open spec fn is_dup(keys: Seq<Seq<Seq<u8>>>, g: int, i: int) -> bool {
    exists|h: int, j: int|
        #![trigger keys[h][j]]
        ((0 <= h < g && 0 <= j < keys[h].len()) || (h == g && 0 <= j < i)) && keys[h][j]
            == keys[g][i]
}

/// The positions of the duplicates that come before `(g, i)`, in order.
pub open spec fn dup_positions(keys: Seq<Seq<Seq<u8>>>, g: nat, i: nat) -> Seq<(int, int)>
    decreases g, i,
{
    if i == 0 {
        if g == 0 {
            Seq::empty()
        } else {
            dup_positions(keys, (g - 1) as nat, keys[g - 1].len())
        }
    } else {
        let r = dup_positions(keys, g, (i - 1) as nat);
        if is_dup(keys, g as int, i - 1) {
            r.push((g as int, i - 1))
        } else {
            r
        }
    }
}

/// The positions of all duplicates, in order.
pub open spec fn all_dups(keys: Seq<Seq<Seq<u8>>>) -> Seq<(int, int)> {
    dup_positions(keys, keys.len(), 0)
}

/// What a grid of keys holds.
pub open spec fn grid_view(v: Seq<Vec<Vec<u8>>>) -> Seq<Seq<Seq<u8>>> {
    v.map_values(|r: Vec<Vec<u8>>| r@.map_values(|k: Vec<u8>| k@))
}

/// Byte-wise equality.
pub fn bytes_eq(a: &[u8], b: &[u8]) -> (r: bool)
    ensures
        r == (a@ == b@),
{
    if a.len() != b.len() {
        return false;
    }
    let mut k: usize = 0;
    while k < a.len()
        invariant
            a@.len() == b@.len(),
            k <= a@.len(),
            forall|j: int| 0 <= j < k ==> a@[j] == b@[j],
        decreases a@.len() - k,
    {
        if a[k] != b[k] {
            return false;
        }
        k = k + 1;
    }
    assert(a@ =~= b@);
    true
}

/// Whether the item at `(g, i)` repeats the key of an earlier item.
pub fn dup_at(keys: &Vec<Vec<Vec<u8>>>, g: usize, i: usize) -> (r: bool)
    requires
        g < keys@.len(),
        i < keys@[g as int]@.len(),
    ensures
        r == is_dup(grid_view(keys@), g as int, i as int),
{
    let ghost kv = grid_view(keys@);
    let key = &keys[g][i];
    assert(kv[g as int][i as int] == key@);
    let mut h: usize = 0;
    while h < g
        invariant
            h <= g < keys@.len(),
            i < keys@[g as int]@.len(),
            kv == grid_view(keys@),
            key@ == kv[g as int][i as int],
            forall|hh: int, j: int|
                0 <= hh < h && 0 <= j < kv[hh].len() ==> kv[hh][j] != kv[g as int][i as int],
        decreases g - h,
    {
        let row = &keys[h];
        let mut j: usize = 0;
        while j < row.len()
            invariant
                h < g < keys@.len(),
                row@ == keys@[h as int]@,
                kv == grid_view(keys@),
                key@ == kv[g as int][i as int],
                j <= row@.len(),
                forall|jj: int| 0 <= jj < j ==> kv[h as int][jj] != kv[g as int][i as int],
            decreases row@.len() - j,
        {
            assert(kv[h as int][j as int] == row@[j as int]@);
            if bytes_eq(row[j].as_slice(), key.as_slice()) {
                assert(kv[h as int][j as int] == kv[g as int][i as int]);
                return true;
            }
            j = j + 1;
        }
        h = h + 1;
    }
    let row = &keys[g];
    let mut j: usize = 0;
    while j < i
        invariant
            g < keys@.len(),
            i < keys@[g as int]@.len(),
            row@ == keys@[g as int]@,
            kv == grid_view(keys@),
            key@ == kv[g as int][i as int],
            j <= i,
            forall|hh: int, jj: int|
                0 <= hh < g && 0 <= jj < kv[hh].len() ==> kv[hh][jj] != kv[g as int][i as int],
            forall|jj: int| 0 <= jj < j ==> kv[g as int][jj] != kv[g as int][i as int],
        decreases i - j,
    {
        assert(kv[g as int][j as int] == row@[j as int]@);
        if bytes_eq(row[j].as_slice(), key.as_slice()) {
            assert(kv[g as int][j as int] == kv[g as int][i as int]);
            return true;
        }
        j = j + 1;
    }
    false
}

/// The start of the run of ASCII white space that ends at `p`.
pub open spec fn ws_back(s: Seq<u8>, p: int) -> int
    decreases p,
{
    if 0 < p <= s.len() && spec_ascii_ws(s[p - 1]) {
        ws_back(s, p - 1)
    } else {
        p
    }
}

pub proof fn lemma_ws_back_bounds(s: Seq<u8>, p: int)
    requires
        0 <= p <= s.len(),
    ensures
        0 <= ws_back(s, p) <= p,
    decreases p,
{
    if 0 < p && spec_ascii_ws(s[p - 1]) {
        lemma_ws_back_bounds(s, p - 1);
    }
}

pub fn ws_back_exec(bytes: &[u8], p: usize) -> (r: usize)
    requires
        p <= bytes@.len(),
    ensures
        r == ws_back(bytes@, p as int),
        r <= p,
{
    let mut q = p;
    while q > 0 && (bytes[q - 1] == 32 || bytes[q - 1] == 9 || bytes[q - 1] == 10 || bytes[q - 1]
        == 12 || bytes[q - 1] == 13)
        invariant
            q <= p <= bytes@.len(),
            ws_back(bytes@, q as int) == ws_back(bytes@, p as int),
        decreases q,
    {
        q = q - 1;
    }
    q
}

/// The edit that removes item `idx` from a written list of items (each
/// `(start, end)`), when the list has at least two: up to the start of the next
/// item, or, for the last item, from the comma before it and the white space
/// around that comma. `None` where that span is empty.
pub open spec fn list_removal(s: Seq<u8>, items: Seq<(usize, usize)>, idx: int) -> Option<
    (int, int, Seq<char>),
> {
    if items.len() <= 1 {
        None
    } else {
        let (a, b) = if idx + 1 < items.len() {
            (items[idx].0 as int, items[idx + 1].0 as int)
        } else {
            let w = ws_back(s, items[idx].0 as int);
            let c = if w > 0 && s[w - 1] == 44u8 {
                ws_back(s, w - 1)
            } else {
                w
            };
            (c, items[idx].1 as int)
        };
        if a < b {
            Some((a, b, Seq::empty()))
        } else {
            None
        }
    }
}

/// The items lie in order in the text.
pub open spec fn items_in_bounds(s: Seq<u8>, items: Seq<(usize, usize)>) -> bool {
    forall|k: int| 0 <= k < items.len() ==> #[trigger] items[k].0 <= items[k].1 <= s.len()
}

pub fn list_removal_exec(bytes: &[u8], items: &Vec<(usize, usize)>, idx: usize) -> (r: Option<
    (usize, usize, String),
>)
    requires
        idx < items@.len(),
        items_in_bounds(bytes@, items@),
    ensures
        match list_removal(bytes@, items@, idx as int) {
            None => r is None,
            Some((a, b, t)) => r matches Some((x, y, z)) && x == a && y == b && z@ == t,
        },
{
    if items.len() <= 1 {
        return None;
    }
    let (a, b) = if idx + 1 < items.len() {
        (items[idx].0, items[idx + 1].0)
    } else {
        let w = ws_back_exec(bytes, items[idx].0);
        let c = if w > 0 && bytes[w - 1] == 44u8 {
            ws_back_exec(bytes, w - 1)
        } else {
            w
        };
        (c, items[idx].1)
    };
    if a < b {
        let t = String::new();
        proof {
            assert(t@ =~= Seq::<char>::empty());
        }
        Some((a, b, t))
    } else {
        None
    }
}


/// Where the removal of a branch that starts at `start` begins: with the line
/// break before it, if there is one.
pub open spec fn removal_start(s: Seq<u8>, start: int) -> int {
    if start > 0 && s[start - 1] == 10u8 {
        start - 1
    } else {
        start
    }
}

} // verus!
