use vstd::prelude::*;
use vstd::utf8::encode_utf8;

verus! {

/// A replacement of the bytes `start..end` of a source by `replacement`.
#[derive(Debug)]
pub struct Correction {
    pub start: usize,
    pub end: usize,
    pub replacement: String,
    pub cop_name: String,
    pub cop_index: usize,
}

/// The UTF-8 bytes of a correction's replacement text.
pub open spec fn repl_bytes(c: Correction) -> Seq<u8> {
    encode_utf8(c.replacement@)
}

/// Two corrections touch a common byte.
pub open spec fn overlaps(a: Correction, b: Correction) -> bool {
    a.start < b.end && b.start < a.end
}

/// Every correction is a well-formed range and each one ends before the next
/// one starts.
pub open spec fn sorted_disjoint(cs: Seq<Correction>) -> bool {
    &&& forall|i: int| 0 <= i < cs.len() ==> cs[i].start <= cs[i].end
    &&& forall|i: int, j: int| 0 <= i < j < cs.len() ==> cs[i].end <= cs[j].start
}

/// Some correction of `cs` overlaps `c`.
pub open spec fn conflicts(cs: Seq<Correction>, c: Correction) -> bool {
    exists|i: int| 0 <= i < cs.len() && overlaps(cs[i], c)
}

/// Number of corrections of `cs` that end at or before `c` starts.
pub open spec fn insertion_index(cs: Seq<Correction>, c: Correction) -> int
    decreases cs.len(),
{
    if cs.len() == 0 {
        0
    } else if cs[0].end <= c.start {
        1 + insertion_index(cs.drop_first(), c)
    } else {
        0
    }
}

/// Offers `c` to an accepted set: a well-formed correction that overlaps no
/// accepted one joins the set in order; any other is dropped.
pub open spec fn accept(cs: Seq<Correction>, c: Correction) -> Seq<Correction> {
    if c.start <= c.end && !conflicts(cs, c) {
        cs.insert(insertion_index(cs, c), c)
    } else {
        cs
    }
}

/// Offers the corrections of `todo`, first to last, to the accepted set `cs`.
pub open spec fn accept_all(cs: Seq<Correction>, todo: Seq<Correction>) -> Seq<Correction>
    decreases todo.len(),
{
    if todo.len() == 0 {
        cs
    } else {
        accept_all(accept(cs, todo[0]), todo.drop_first())
    }
}

/// The source `s` from `cursor` on, with the corrections `cs` applied in turn;
/// a correction that starts before the cursor or ends past the source is skipped.
pub open spec fn apply_from(s: Seq<u8>, cs: Seq<Correction>, cursor: int) -> Seq<u8>
    decreases cs.len(),
{
    if cs.len() == 0 {
        s.subrange(cursor, s.len() as int)
    } else {
        let c = cs[0];
        if cursor <= c.start && c.start <= c.end && c.end <= s.len() {
            s.subrange(cursor, c.start as int) + repl_bytes(c) + apply_from(
                s,
                cs.drop_first(),
                c.end as int,
            )
        } else {
            apply_from(s, cs.drop_first(), cursor)
        }
    }
}

proof fn lemma_insertion_index(cs: Seq<Correction>, c: Correction)
    requires
        sorted_disjoint(cs),
    ensures
        0 <= insertion_index(cs, c) <= cs.len(),
        forall|i: int| 0 <= i < insertion_index(cs, c) ==> cs[i].end <= c.start,
        forall|i: int| insertion_index(cs, c) <= i < cs.len() ==> cs[i].end > c.start,
    decreases cs.len(),
{
    if cs.len() > 0 {
        lemma_insertion_index(cs.drop_first(), c);
        if cs[0].end <= c.start {
            assert forall|i: int| 1 <= i < insertion_index(cs, c) implies cs[i].end <= c.start by {
                assert(cs[i] == cs.drop_first()[i - 1]);
            }
            assert forall|i: int| insertion_index(cs, c) <= i < cs.len() implies cs[i].end
                > c.start by {
                assert(cs[i] == cs.drop_first()[i - 1]);
            }
        } else {
            assert forall|i: int| 0 <= i < cs.len() implies cs[i].end > c.start by {
                if i > 0 {
                    assert(cs[0].end <= cs[i].start);
                }
            }
        }
    }
}

pub proof fn lemma_accept_sorted(cs: Seq<Correction>, c: Correction)
    requires
        sorted_disjoint(cs),
    ensures
        sorted_disjoint(accept(cs, c)),
{
    if c.start <= c.end && !conflicts(cs, c) {
        lemma_insertion_index(cs, c);
        let k = insertion_index(cs, c);
        let r = cs.insert(k, c);
        assert forall|i: int| k < i < r.len() implies c.end <= r[i].start by {
            assert(r[i] == cs[i - 1]);
            if !(c.end <= cs[i - 1].start) {
                assert(overlaps(cs[i - 1], c));
            }
        }
        assert forall|i: int, j: int| 0 <= i < j < r.len() implies r[i].end <= r[j].start by {
            if j < k {
            } else if j == k {
            } else if i < k {
                assert(cs[i].end <= cs[j - 1].start);
            } else if i == k {
            } else {
                assert(cs[i - 1].end <= cs[j - 1].start);
            }
        }
    }
}

pub proof fn lemma_accept_all_sorted(cs: Seq<Correction>, todo: Seq<Correction>)
    requires
        sorted_disjoint(cs),
    ensures
        sorted_disjoint(accept_all(cs, todo)),
    decreases todo.len(),
{
    if todo.len() > 0 {
        lemma_accept_sorted(cs, todo[0]);
        lemma_accept_all_sorted(accept(cs, todo[0]), todo.drop_first());
    }
}

/// An ordered set of non-overlapping corrections.
pub struct CorrectionSet {
    corrections: Vec<Correction>,
}

impl View for CorrectionSet {
    type V = Seq<Correction>;

    closed spec fn view(&self) -> Seq<Correction> {
        self.corrections@
    }
}

fn insertion_index_exec(cs: &Vec<Correction>, c: &Correction) -> (r: usize)
    requires
        sorted_disjoint(cs@),
    ensures
        r == insertion_index(cs@, *c),
{
    proof {
        lemma_insertion_index(cs@, *c);
    }
    let mut i: usize = 0;
    while i < cs.len() && cs[i].end <= c.start
        invariant
            i <= cs@.len(),
            sorted_disjoint(cs@),
            forall|j: int| 0 <= j < i ==> cs@[j].end <= c.start,
            0 <= insertion_index(cs@, *c) <= cs@.len(),
            forall|j: int| 0 <= j < insertion_index(cs@, *c) ==> cs@[j].end <= c.start,
            forall|j: int| insertion_index(cs@, *c) <= j < cs@.len() ==> cs@[j].end > c.start,
        decreases cs@.len() - i,
    {
        i = i + 1;
    }
    proof {
        let k = insertion_index(cs@, *c);
        if (i as int) < k {
            assert(cs@[i as int].end <= c.start);
        }
        if k < (i as int) {
            assert(cs@[k].end <= c.start);
        }
    }
    i
}

fn conflicts_exec(cs: &Vec<Correction>, c: &Correction) -> (r: bool)
    ensures
        r == conflicts(cs@, *c),
{
    let mut i: usize = 0;
    while i < cs.len()
        invariant
            i <= cs@.len(),
            forall|j: int| 0 <= j < i ==> !overlaps(cs@[j], *c),
        decreases cs@.len() - i,
    {
        if cs[i].start < c.end && c.start < cs[i].end {
            return true;
        }
        i = i + 1;
    }
    false
}

impl CorrectionSet {
    /// Builds the set from corrections offered first to last: a correction
    /// joins unless it is malformed or overlaps one that joined before it.
    pub fn from_vec(v: Vec<Correction>) -> (r: CorrectionSet)
        ensures
            r@ == accept_all(Seq::empty(), v@),
            sorted_disjoint(r@),
    {
        let ghost orig = v@;
        let mut acc: Vec<Correction> = Vec::new();
        let mut todo = v;
        proof {
            lemma_accept_all_sorted(Seq::empty(), orig);
        }
        while todo.len() > 0
            invariant
                sorted_disjoint(acc@),
                accept_all(acc@, todo@) == accept_all(Seq::<Correction>::empty(), orig),
            decreases todo@.len(),
        {
            let ghost before = acc@;
            let ghost whole = todo@;
            let c = todo.remove(0);
            assert(todo@ =~= whole.drop_first());
            if c.start <= c.end && !conflicts_exec(&acc, &c) {
                let k = insertion_index_exec(&acc, &c);
                proof {
                    lemma_insertion_index(acc@, c);
                }
                acc.insert(k, c);
            }
            proof {
                lemma_accept_sorted(before, c);
            }
        }
        CorrectionSet { corrections: acc }
    }

    /// The source `input` with every correction of the set applied.
    pub fn apply(&self, input: &[u8]) -> (r: Vec<u8>)
        ensures
            r@ == apply_from(input@, self@, 0),
    {
        let cs = &self.corrections;
        let mut out: Vec<u8> = Vec::new();
        let mut cursor: usize = 0;
        let mut i: usize = 0;
        assert(cs@.subrange(0, cs@.len() as int) =~= cs@);
        while i < cs.len()
            invariant
                i <= cs@.len(),
                cursor <= input@.len(),
                out@ + apply_from(input@, cs@.subrange(i as int, cs@.len() as int), cursor as int)
                    == apply_from(input@, cs@, 0),
            decreases cs@.len() - i,
        {
            let ghost tail = cs@.subrange(i as int, cs@.len() as int);
            assert(tail.drop_first() =~= cs@.subrange(i + 1, cs@.len() as int));
            let c = &cs[i];
            if cursor <= c.start && c.start <= c.end && c.end <= input.len() {
                let ghost out0 = out@;
                copy_range(input, cursor, c.start, &mut out);
                let rb = c.replacement.as_str().as_bytes();
                out.extend_from_slice(rb);
                assert(out@ =~= out0 + input@.subrange(cursor as int, c.start as int) + repl_bytes(*c));
                cursor = c.end;
            }
            i = i + 1;
        }
        assert(cs@.subrange(i as int, cs@.len() as int) =~= Seq::<Correction>::empty());
        copy_range(input, cursor, input.len(), &mut out);
        out
    }
}

/// Appends `input[from..to]` to `out`.
fn copy_range(input: &[u8], from: usize, to: usize, out: &mut Vec<u8>)
    requires
        from <= to <= input@.len(),
    ensures
        final(out)@ == old(out)@ + input@.subrange(from as int, to as int),
{
    let ghost start = out@;
    let mut k = from;
    while k < to
        invariant
            from <= k <= to <= input@.len(),
            out@ == start + input@.subrange(from as int, k as int),
        decreases to - k,
    {
        out.push(input[k]);
        assert(input@.subrange(from as int, k + 1) =~= input@.subrange(from as int, k as int).push(
            input@[k as int],
        ));
        k = k + 1;
    }
}

} // verus!
