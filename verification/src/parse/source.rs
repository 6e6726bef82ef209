use vstd::prelude::*;

verus! {

/// The byte value of a line feed.
pub const NEWLINE: u8 = 10u8;

/// Start of the line that contains byte offset `off`: the greatest
/// position `p <= off` that is 0 or follows a line feed.
pub open spec fn line_start(s: Seq<u8>, off: int) -> int
    decreases off,
{
    if off <= 0 {
        0
    } else if s[off - 1] == NEWLINE {
        off
    } else {
        line_start(s, off - 1)
    }
}

/// Number of line feeds among the first `off` bytes.
pub open spec fn newline_count(s: Seq<u8>, off: int) -> nat
    decreases off,
{
    if off <= 0 {
        0
    } else {
        newline_count(s, off - 1) + (if s[off - 1] == NEWLINE { 1nat } else { 0nat })
    }
}

/// A byte that begins a UTF-8 code point (not a continuation byte).
pub open spec fn is_char_start(b: u8) -> bool {
    b < 0x80u8 || b >= 0xC0u8
}

/// Number of code points that begin in `s[a..b)`.
pub open spec fn char_count(s: Seq<u8>, a: int, b: int) -> nat
    decreases b - a,
{
    if b <= a {
        0
    } else {
        char_count(s, a, b - 1) + (if is_char_start(s[b - 1]) { 1nat } else { 0nat })
    }
}

/// 1-based line number of byte offset `off`.
pub open spec fn line_of(s: Seq<u8>, off: int) -> nat {
    newline_count(s, off) + 1
}

/// 0-based column of byte offset `off`, counted in code points from the
/// start of its line.
pub open spec fn col_of(s: Seq<u8>, off: int) -> nat {
    char_count(s, line_start(s, off), off)
}

/// First position `p` with `from <= p <= s.len()` at which exactly `k` line
/// feeds precede it, or -1 when there is none.
pub open spec fn first_pos_with_count(s: Seq<u8>, k: nat, from: int) -> int
    decreases s.len() + 1 - from,
{
    if from > s.len() || from < 0 {
        -1
    } else if newline_count(s, from) == k {
        from
    } else {
        first_pos_with_count(s, k, from + 1)
    }
}

/// Offset of (1-based `line`, byte column `col`), when the line exists and the
/// offset stays within the source.
pub open spec fn spec_line_col_to_offset(s: Seq<u8>, line: int, col: int) -> Option<int> {
    if line < 1 {
        None
    } else {
        let p = first_pos_with_count(s, (line - 1) as nat, 0);
        if p < 0 || p + col > s.len() {
            None
        } else {
            Some(p + col)
        }
    }
}

/// End of the line that starts at or contains `p`: the first line feed at or
/// after `p`, or the end of the source.
pub open spec fn line_end(s: Seq<u8>, p: int) -> int
    decreases s.len() - p,
{
    if p >= s.len() || p < 0 {
        s.len() as int
    } else if s[p] == NEWLINE {
        p
    } else {
        line_end(s, p + 1)
    }
}

pub proof fn lemma_line_start_bounds(s: Seq<u8>, off: int)
    requires
        0 <= off <= s.len(),
    ensures
        0 <= line_start(s, off) <= off,
        line_start(s, off) == 0 || s[line_start(s, off) - 1] == NEWLINE,
        forall|q: int| line_start(s, off) <= q < off ==> s[q] != NEWLINE,
    decreases off,
{
    if off > 0 && s[off - 1] != NEWLINE {
        lemma_line_start_bounds(s, off - 1);
    }
}

pub proof fn lemma_line_end_bounds(s: Seq<u8>, p: int)
    requires
        0 <= p <= s.len(),
    ensures
        p <= line_end(s, p) <= s.len(),
        line_end(s, p) == s.len() || s[line_end(s, p)] == NEWLINE,
        forall|q: int| p <= q < line_end(s, p) ==> s[q] != NEWLINE,
    decreases s.len() - p,
{
    if p < s.len() && s[p] != NEWLINE {
        lemma_line_end_bounds(s, p + 1);
    }
}


/// A position that `k` line feeds precede is found by the search for the
/// first such position.
pub proof fn lemma_first_pos_found(s: Seq<u8>, k: nat, from: int, p: int)
    requires
        0 <= from <= p <= s.len(),
        newline_count(s, p) == k,
    ensures
        from <= first_pos_with_count(s, k, from) <= p,
    decreases p - from,
{
    if newline_count(s, from) != k {
        lemma_first_pos_found(s, k, from + 1, p);
    }
}

/// Without line feeds in `s[a..b)`, as many line feeds precede `b` as `a`.
pub proof fn lemma_newline_count_flat(s: Seq<u8>, a: int, b: int)
    requires
        0 <= a <= b <= s.len(),
        forall|q: int| a <= q < b ==> s[q] != NEWLINE,
    ensures
        newline_count(s, b) == newline_count(s, a),
    decreases b - a,
{
    if a < b {
        lemma_newline_count_flat(s, a, b - 1);
    }
}

/// The line of every offset starts somewhere: line `line_of(s, p)` has a
/// start offset.
pub proof fn lemma_line_has_start(s: Seq<u8>, p: int)
    requires
        0 <= p <= s.len(),
    ensures
        spec_line_col_to_offset(s, line_of(s, p) as int, 0) is Some,
{
    lemma_first_pos_found(s, newline_count(s, p), 0, p);
}


/// At most `p` line feeds precede offset `p`.
pub proof fn lemma_newline_count_le(s: Seq<u8>, p: int)
    requires
        0 <= p <= s.len(),
    ensures
        newline_count(s, p) <= p,
    decreases p,
{
    if p > 0 {
        lemma_newline_count_le(s, p - 1);
    }
}

/// A Ruby source file: its path and its bytes. Its length is below
/// `usize::MAX`, so that every line number fits in a `usize`.
pub struct SourceFile {
    path: String,
    bytes: Vec<u8>,
}

impl View for SourceFile {
    type V = Seq<u8>;

    closed spec fn view(&self) -> Seq<u8> {
        self.bytes@
    }
}

impl SourceFile {
    #[verifier::type_invariant]
    spec fn inv(self) -> bool {
        self.bytes@.len() < usize::MAX
    }

    /// The path the file was read from.
    pub closed spec fn spec_path(&self) -> Seq<char> {
        self.path@
    }

    pub fn from_bytes(path: &str, bytes: Vec<u8>) -> (r: SourceFile)
        requires
            bytes@.len() < usize::MAX,
        ensures
            r.spec_path() == path@,
            r@ == bytes@,
    {
        SourceFile { path: path.to_owned(), bytes }
    }

    pub fn as_bytes(&self) -> (r: &[u8])
        ensures
            r@ == self@,
            r@.len() < usize::MAX,
    {
        proof {
            use_type_invariant(self);
        }
        self.bytes.as_slice()
    }

    pub fn path_str(&self) -> (r: &str)
        ensures
            r@ == self.spec_path(),
    {
        self.path.as_str()
    }

    /// Converts a byte offset to a (1-based line, 0-based code-point column).
    pub fn offset_to_line_col(&self, offset: usize) -> (r: (usize, usize))
        requires
            offset <= self@.len(),
        ensures
            r.0 == line_of(self@, offset as int),
            r.1 == col_of(self@, offset as int),
    {
        offset_to_line_col(self.as_bytes(), offset)
    }

    /// Converts a (1-based line, 0-based byte column) to a byte offset.
    pub fn line_col_to_offset(&self, line: usize, col: usize) -> (r: Option<usize>)
        ensures
            r matches Some(o) ==> spec_line_col_to_offset(self@, line as int, col as int) == Some(
                o as int,
            ),
            r is None ==> spec_line_col_to_offset(self@, line as int, col as int) is None,
    {
        line_col_to_offset(self.as_bytes(), line, col)
    }
}

/// Converts a byte offset to a (1-based line, 0-based code-point column).
pub fn offset_to_line_col(bytes: &[u8], offset: usize) -> (r: (usize, usize))
    requires
        offset <= bytes@.len() < usize::MAX,
    ensures
        r.0 == line_of(bytes@, offset as int),
        r.1 == col_of(bytes@, offset as int),
{
    let ghost s = bytes@;
    let mut i: usize = 0;
    let mut line: usize = 1;
    let mut col: usize = 0;
    while i < offset
        invariant
            s == bytes@,
            i <= offset <= s.len(),
            s.len() < usize::MAX,
            line == newline_count(s, i as int) + 1,
            col == char_count(s, line_start(s, i as int), i as int),
            line <= i + 1,
            col <= i,
        decreases offset - i,
    {
        let b = bytes[i];
        proof {
            lemma_line_start_bounds(s, i as int);
        }
        if b == NEWLINE {
            line = line + 1;
            col = 0;
        } else if b < 0x80u8 || b >= 0xC0u8 {
            col = col + 1;
        }
        i = i + 1;
    }
    (line, col)
}

/// Converts a (1-based line, 0-based byte column) to a byte offset.
pub fn line_col_to_offset(bytes: &[u8], line: usize, col: usize) -> (r: Option<usize>)
    requires
        bytes@.len() < usize::MAX,
    ensures
        r matches Some(o) ==> spec_line_col_to_offset(bytes@, line as int, col as int) == Some(
            o as int,
        ),
        r is None ==> spec_line_col_to_offset(bytes@, line as int, col as int) is None,
{
    let ghost s = bytes@;
    if line < 1 {
        return None;
    }
    let target: usize = line - 1;
    let mut i: usize = 0;
    let mut count: usize = 0;
    while i <= bytes.len() && count != target
        invariant
            s == bytes@,
            i <= s.len() + 1,
            s.len() < usize::MAX,
            i <= s.len() ==> count == newline_count(s, i as int),
            count <= i,
            first_pos_with_count(s, target as nat, 0) == first_pos_with_count(s, target as nat, i as int),
        decreases s.len() + 1 - i,
    {
        if i == bytes.len() {
            i = i + 1;
        } else {
            if bytes[i] == NEWLINE {
                count = count + 1;
            }
            i = i + 1;
        }
    }
    if i > bytes.len() {
        return None;
    }
    if col > bytes.len() - i {
        return None;
    }
    Some(i + col)
}

} // verus!
