use vstd::prelude::*;

verus! {

/// Which bytes of a source are code: the byte ranges of comments and of
/// string contents (and other literal text) are not.
pub struct CodeMap {
    /// The ranges `[start, end)` of comments.
    pub comments: Vec<(usize, usize)>,
    /// The ranges `[start, end)` of string contents and other literal text.
    pub strings: Vec<(usize, usize)>,
    /// The ranges of the code inside `#{}` interpolations of heredocs (which
    /// lie inside `strings`).
    pub heredoc_interpolations: Vec<(usize, usize)>,
    /// The ranges of literal text nested inside those interpolations.
    pub heredoc_interpolation_literals: Vec<(usize, usize)>,
}

/// Byte `i` lies in none of `ranges`.
pub open spec fn outside_all(ranges: Seq<(usize, usize)>, i: int) -> bool {
    forall|k: int| 0 <= k < ranges.len() ==> !(#[trigger] ranges[k].0 <= i && i < ranges[k].1)
}

fn outside_all_exec(ranges: &Vec<(usize, usize)>, i: usize) -> (r: bool)
    ensures
        r == outside_all(ranges@, i as int),
{
    let mut k: usize = 0;
    while k < ranges.len()
        invariant
            k <= ranges@.len(),
            forall|j: int| 0 <= j < k ==> !(#[trigger] ranges@[j].0 <= i && i < ranges@[j].1),
        decreases ranges@.len() - k,
    {
        let (a, b) = ranges[k];
        if a <= i && i < b {
            return false;
        }
        k = k + 1;
    }
    true
}

impl CodeMap {
    /// Byte `i` is code: in no comment and no string.
    pub open spec fn spec_is_code(&self, i: int) -> bool {
        outside_all(self.comments@, i) && outside_all(self.strings@, i)
    }

    /// Byte `i` is not in a string.
    pub open spec fn spec_is_not_string(&self, i: int) -> bool {
        outside_all(self.strings@, i)
    }

    /// Byte `i` lies inside a heredoc's interpolation.
    pub open spec fn spec_is_heredoc_interpolation(&self, i: int) -> bool {
        !outside_all(self.heredoc_interpolations@, i)
    }

    /// Byte `i` lies in literal text nested inside a heredoc's interpolation.
    pub open spec fn spec_is_non_code_in_heredoc_interpolation(&self, i: int) -> bool {
        !outside_all(self.heredoc_interpolation_literals@, i)
    }

    pub fn is_heredoc_interpolation(&self, i: usize) -> (r: bool)
        ensures
            r == self.spec_is_heredoc_interpolation(i as int),
    {
        !outside_all_exec(&self.heredoc_interpolations, i)
    }

    pub fn is_non_code_in_heredoc_interpolation(&self, i: usize) -> (r: bool)
        ensures
            r == self.spec_is_non_code_in_heredoc_interpolation(i as int),
    {
        !outside_all_exec(&self.heredoc_interpolation_literals, i)
    }

    /// Whether byte `i` is code.
    pub fn is_code(&self, i: usize) -> (r: bool)
        ensures
            r == self.spec_is_code(i as int),
    {
        outside_all_exec(&self.comments, i) && outside_all_exec(&self.strings, i)
    }

    /// Whether byte `i` is outside strings.
    pub fn is_not_string(&self, i: usize) -> (r: bool)
        ensures
            r == self.spec_is_not_string(i as int),
    {
        outside_all_exec(&self.strings, i)
    }
}

} // verus!
