use crate::cop::report::{
    extends_with_edits, extends_with_reports, lemma_edits_empty, lemma_edits_push,
    lemma_reports_empty, lemma_reports_push, push_offense,
};
use crate::cop::util::{is_alpha, is_word, spec_is_alpha, spec_is_word, starts_with_at, starts_with_at_exec};
use crate::correction::Correction;
use crate::diagnostic::{new_diagnostic, reports, Diagnostic, Severity};
use crate::parse::codemap::CodeMap;
use crate::parse::source::{col_of, line_of, SourceFile};
use vstd::prelude::*;

verus! {

/// Layout/SpaceAroundKeyword: a keyword is separated from what comes before
/// and after it by a space (or an accepted character).
pub struct SpaceAroundKeyword;

/// The number of keywords checked.
pub const KEYWORD_COUNT: usize = 26;

/// The index of `end` among the keywords.
pub const END_INDEX: usize = 8;

/// The index of `super` among the keywords.
pub const SUPER_INDEX: usize = 17;

/// The index of `defined?` among the keywords.
pub const DEFINED_INDEX: usize = 4;

/// The bytes of keyword number `k`.
pub open spec fn keyword_bytes(k: int) -> Seq<u8> {
    if k == 0 {
        seq![97u8, 110u8, 100u8]
    } else if k == 1 {
        seq![98u8, 101u8, 103u8, 105u8, 110u8]
    } else if k == 2 {
        seq![98u8, 114u8, 101u8, 97u8, 107u8]
    } else if k == 3 {
        seq![99u8, 97u8, 115u8, 101u8]
    } else if k == 4 {
        seq![100u8, 101u8, 102u8, 105u8, 110u8, 101u8, 100u8, 63u8]
    } else if k == 5 {
        seq![100u8, 111u8]
    } else if k == 6 {
        seq![101u8, 108u8, 115u8, 101u8]
    } else if k == 7 {
        seq![101u8, 108u8, 115u8, 105u8, 102u8]
    } else if k == 8 {
        seq![101u8, 110u8, 100u8]
    } else if k == 9 {
        seq![101u8, 110u8, 115u8, 117u8, 114u8, 101u8]
    } else if k == 10 {
        seq![105u8, 102u8]
    } else if k == 11 {
        seq![105u8, 110u8]
    } else if k == 12 {
        seq![110u8, 101u8, 120u8, 116u8]
    } else if k == 13 {
        seq![110u8, 111u8, 116u8]
    } else if k == 14 {
        seq![111u8, 114u8]
    } else if k == 15 {
        seq![114u8, 101u8, 115u8, 99u8, 117u8, 101u8]
    } else if k == 16 {
        seq![114u8, 101u8, 116u8, 117u8, 114u8, 110u8]
    } else if k == 17 {
        seq![115u8, 117u8, 112u8, 101u8, 114u8]
    } else if k == 18 {
        seq![116u8, 104u8, 101u8, 110u8]
    } else if k == 19 {
        seq![117u8, 110u8, 108u8, 101u8, 115u8, 115u8]
    } else if k == 20 {
        seq![117u8, 110u8, 116u8, 105u8, 108u8]
    } else if k == 21 {
        seq![119u8, 104u8, 101u8, 110u8]
    } else if k == 22 {
        seq![119u8, 104u8, 105u8, 108u8, 101u8]
    } else if k == 23 {
        seq![121u8, 105u8, 101u8, 108u8, 100u8]
    } else if k == 24 {
        seq![66u8, 69u8, 71u8, 73u8, 78u8]
    } else {
        seq![69u8, 78u8, 68u8]
    }
}

/// Keyword number `k`.
pub open spec fn keyword_str(k: int) -> Seq<char> {
    if k == 0 {
        "and"@
    } else if k == 1 {
        "begin"@
    } else if k == 2 {
        "break"@
    } else if k == 3 {
        "case"@
    } else if k == 4 {
        "defined?"@
    } else if k == 5 {
        "do"@
    } else if k == 6 {
        "else"@
    } else if k == 7 {
        "elsif"@
    } else if k == 8 {
        "end"@
    } else if k == 9 {
        "ensure"@
    } else if k == 10 {
        "if"@
    } else if k == 11 {
        "in"@
    } else if k == 12 {
        "next"@
    } else if k == 13 {
        "not"@
    } else if k == 14 {
        "or"@
    } else if k == 15 {
        "rescue"@
    } else if k == 16 {
        "return"@
    } else if k == 17 {
        "super"@
    } else if k == 18 {
        "then"@
    } else if k == 19 {
        "unless"@
    } else if k == 20 {
        "until"@
    } else if k == 21 {
        "when"@
    } else if k == 22 {
        "while"@
    } else if k == 23 {
        "yield"@
    } else if k == 24 {
        "BEGIN"@
    } else {
        "END"@
    }
}

fn keyword_bytes_exec(k: usize) -> (r: Vec<u8>)
    requires
        k < KEYWORD_COUNT,
    ensures
        r@ == keyword_bytes(k as int),
{
    if k == 0 {
        vec![97u8, 110u8, 100u8]
    } else if k == 1 {
        vec![98u8, 101u8, 103u8, 105u8, 110u8]
    } else if k == 2 {
        vec![98u8, 114u8, 101u8, 97u8, 107u8]
    } else if k == 3 {
        vec![99u8, 97u8, 115u8, 101u8]
    } else if k == 4 {
        vec![100u8, 101u8, 102u8, 105u8, 110u8, 101u8, 100u8, 63u8]
    } else if k == 5 {
        vec![100u8, 111u8]
    } else if k == 6 {
        vec![101u8, 108u8, 115u8, 101u8]
    } else if k == 7 {
        vec![101u8, 108u8, 115u8, 105u8, 102u8]
    } else if k == 8 {
        vec![101u8, 110u8, 100u8]
    } else if k == 9 {
        vec![101u8, 110u8, 115u8, 117u8, 114u8, 101u8]
    } else if k == 10 {
        vec![105u8, 102u8]
    } else if k == 11 {
        vec![105u8, 110u8]
    } else if k == 12 {
        vec![110u8, 101u8, 120u8, 116u8]
    } else if k == 13 {
        vec![110u8, 111u8, 116u8]
    } else if k == 14 {
        vec![111u8, 114u8]
    } else if k == 15 {
        vec![114u8, 101u8, 115u8, 99u8, 117u8, 101u8]
    } else if k == 16 {
        vec![114u8, 101u8, 116u8, 117u8, 114u8, 110u8]
    } else if k == 17 {
        vec![115u8, 117u8, 112u8, 101u8, 114u8]
    } else if k == 18 {
        vec![116u8, 104u8, 101u8, 110u8]
    } else if k == 19 {
        vec![117u8, 110u8, 108u8, 101u8, 115u8, 115u8]
    } else if k == 20 {
        vec![117u8, 110u8, 116u8, 105u8, 108u8]
    } else if k == 21 {
        vec![119u8, 104u8, 101u8, 110u8]
    } else if k == 22 {
        vec![119u8, 104u8, 105u8, 108u8, 101u8]
    } else if k == 23 {
        vec![121u8, 105u8, 101u8, 108u8, 100u8]
    } else if k == 24 {
        vec![66u8, 69u8, 71u8, 73u8, 78u8]
    } else {
        vec![69u8, 78u8, 68u8]
    }
}

fn keyword_str_exec(k: usize) -> (r: &'static str)
    requires
        k < KEYWORD_COUNT,
    ensures
        r@ == keyword_str(k as int),
{
    if k == 0 {
        "and"
    } else if k == 1 {
        "begin"
    } else if k == 2 {
        "break"
    } else if k == 3 {
        "case"
    } else if k == 4 {
        "defined?"
    } else if k == 5 {
        "do"
    } else if k == 6 {
        "else"
    } else if k == 7 {
        "elsif"
    } else if k == 8 {
        "end"
    } else if k == 9 {
        "ensure"
    } else if k == 10 {
        "if"
    } else if k == 11 {
        "in"
    } else if k == 12 {
        "next"
    } else if k == 13 {
        "not"
    } else if k == 14 {
        "or"
    } else if k == 15 {
        "rescue"
    } else if k == 16 {
        "return"
    } else if k == 17 {
        "super"
    } else if k == 18 {
        "then"
    } else if k == 19 {
        "unless"
    } else if k == 20 {
        "until"
    } else if k == 21 {
        "when"
    } else if k == 22 {
        "while"
    } else if k == 23 {
        "yield"
    } else if k == 24 {
        "BEGIN"
    } else {
        "END"
    }
}

/// Keywords that may be followed directly by `(`.
pub open spec fn accepts_left_paren(k: int) -> bool {
    k == 2 || k == 4 || k == 12 || k == 13 || k == 15 || k == 17 || k == 23
}

/// Keywords that may be followed directly by `[`.
pub open spec fn accepts_left_bracket(k: int) -> bool {
    k == 17 || k == 23
}

/// The first keyword, by index from `k` on, written at `i`.
pub open spec fn keyword_index_from(s: Seq<u8>, i: int, k: int) -> Option<int>
    decreases KEYWORD_COUNT - k,
{
    if k < 0 || k >= KEYWORD_COUNT {
        None
    } else if starts_with_at(s, i, s.len() as int, keyword_bytes(k)) {
        Some(k)
    } else {
        keyword_index_from(s, i, k + 1)
    }
}

/// A character before a keyword that needs no space in between.
pub open spec fn accepted_before(c: u8) -> bool {
    c == 32u8 || c == 9u8 || c == 10u8 || c == 13u8 || c == 40u8 || c == 124u8 || c == 123u8 || c
        == 91u8 || c == 59u8 || c == 44u8 || c == 42u8 || c == 61u8 || c == 33u8 || c == 43u8 || c
        == 45u8 || c == 47u8 || c == 60u8 || c == 62u8 || c == 38u8 || c == 46u8 || c == 63u8
}

/// A character after a keyword that needs no space in between.
pub open spec fn accepted_after(c: u8) -> bool {
    c == 32u8 || c == 9u8 || c == 10u8 || c == 13u8 || c == 59u8 || c == 44u8 || c == 35u8 || c
        == 92u8 || c == 41u8 || c == 125u8 || c == 93u8 || c == 46u8
}

pub open spec fn is_any_space(c: u8) -> bool {
    c == 32u8 || c == 9u8 || c == 10u8 || c == 13u8
}

/// From `j` back, the first position that is 0 or not whitespace.
pub open spec fn back_skip_space(s: Seq<u8>, j: int) -> int
    decreases j,
{
    if j > 0 && is_any_space(s[j]) {
        back_skip_space(s, j - 1)
    } else {
        j
    }
}

/// The word at `i` follows `.`, `&.` or `::`: a method call.
pub open spec fn is_method_call(s: Seq<u8>, i: int) -> bool {
    i > 0 && {
        let j = back_skip_space(s, i - 1);
        s[j] == 46u8 || (s[j] == 58u8 && j > 0 && s[j - 1] == 58u8)
    }
}

/// The word at `i` follows `def `.
pub open spec fn preceded_by_def(s: Seq<u8>, i: int) -> bool {
    i >= 4 && s[i - 4] == 100u8 && s[i - 3] == 101u8 && s[i - 2] == 102u8 && s[i - 1] == 32u8
}

/// The word at `i` follows a single `:`: a symbol.
pub open spec fn is_symbol_literal(s: Seq<u8>, i: int) -> bool {
    i > 0 && s[i - 1] == 58u8 && !(i >= 2 && s[i - 2] == 58u8)
}

/// The word ending at `e` is followed by a single `:`: a hash key.
pub open spec fn is_hash_key(s: Seq<u8>, e: int) -> bool {
    e < s.len() && s[e] == 58u8 && !(e + 1 < s.len() && s[e + 1] == 58u8)
}

/// The byte before `i` continues a word or names a variable (`@`, `$`).
pub open spec fn is_word_before(s: Seq<u8>, i: int) -> bool {
    i > 0 && (spec_is_alpha(s[i - 1]) || s[i - 1] == 95u8 || s[i - 1] == 64u8 || s[i - 1] == 36u8)
}

/// The keyword that is checked at `i`, if any: written there as a whole
/// word, in code, and used as a keyword (not a method name, a symbol or a
/// hash key); an `end` of a method, class or module (listed in `skips`) is
/// not checked.
pub open spec fn checked_keyword(s: Seq<u8>, code: CodeMap, skips: Seq<usize>, i: int) -> Option<int> {
    let n = s.len() as int;
    match keyword_index_from(s, i, 0) {
        None => None,
        Some(k) => {
            let e = i + keyword_bytes(k).len();
            if (e < n && spec_is_word(s[e])) || is_word_before(s, i) || !code.spec_is_code(i)
                || is_method_call(s, i) || preceded_by_def(s, i) || is_symbol_literal(s, i) || (e < n
                && (s[e] == 33u8 || (k != DEFINED_INDEX && s[e] == 63u8))) || is_hash_key(s, e) || (k
                == END_INDEX && skips.contains(i as usize)) {
                None
            } else {
                Some(k)
            }
        },
    }
}

pub open spec fn space_before_missing(s: Seq<u8>, i: int) -> bool {
    i > 0 && !accepted_before(s[i - 1])
}

pub open spec fn space_after_missing(s: Seq<u8>, k: int, i: int) -> bool {
    let n = s.len() as int;
    let e = i + keyword_bytes(k).len();
    k != END_INDEX && e < n && !(accepted_after(s[e]) || (s[e] == 40u8 && accepts_left_paren(k))
        || (s[e] == 91u8 && accepts_left_bracket(k)) || (s[e] == 58u8 && k == SUPER_INDEX && e + 1
        < n && s[e + 1] == 58u8) || (s[e] == 38u8 && e + 1 < n && s[e + 1] == 46u8))
}

/// The offenses at `i`: space before missing, then space after missing.
pub open spec fn offenses_at(s: Seq<u8>, code: CodeMap, skips: Seq<usize>, i: int) -> Seq<
    (int, int, Seq<char>),
> {
    match checked_keyword(s, code, skips, i) {
        None => Seq::empty(),
        Some(k) => {
            let line = line_of(s, i) as int;
            let col = col_of(s, i) as int;
            let b = if space_before_missing(s, i) {
                seq![(line, col, "Space before keyword `"@ + keyword_str(k) + "` is missing."@)]
            } else {
                Seq::empty()
            };
            let a = if space_after_missing(s, k, i) {
                seq![(line, col, "Space after keyword `"@ + keyword_str(k) + "` is missing."@)]
            } else {
                Seq::empty()
            };
            b + a
        },
    }
}

/// The corrections at `i`: a space inserted before, then after, the keyword.
pub open spec fn edits_at(s: Seq<u8>, code: CodeMap, skips: Seq<usize>, i: int) -> Seq<
    (int, int, Seq<char>),
> {
    match checked_keyword(s, code, skips, i) {
        None => Seq::empty(),
        Some(k) => {
            let e = i + keyword_bytes(k).len();
            let b = if space_before_missing(s, i) {
                seq![(i, i, " "@)]
            } else {
                Seq::empty()
            };
            let a = if space_after_missing(s, k, i) {
                seq![(e, e, " "@)]
            } else {
                Seq::empty()
            };
            b + a
        },
    }
}

/// The offenses at the positions before `p`, in order.
pub open spec fn keyword_offenses(s: Seq<u8>, code: CodeMap, skips: Seq<usize>, p: int) -> Seq<
    (int, int, Seq<char>),
>
    decreases p,
{
    if p <= 0 {
        Seq::empty()
    } else {
        keyword_offenses(s, code, skips, p - 1) + offenses_at(s, code, skips, p - 1)
    }
}

/// The corrections at the positions before `p`, in order.
pub open spec fn keyword_edits(s: Seq<u8>, code: CodeMap, skips: Seq<usize>, p: int) -> Seq<
    (int, int, Seq<char>),
>
    decreases p,
{
    if p <= 0 {
        Seq::empty()
    } else {
        keyword_edits(s, code, skips, p - 1) + edits_at(s, code, skips, p - 1)
    }
}

proof fn lemma_keyword_found(s: Seq<u8>, i: int, k0: int)
    requires
        keyword_index_from(s, i, k0) is Some,
    ensures
        ({
            let k = keyword_index_from(s, i, k0).unwrap();
            &&& 0 <= k < KEYWORD_COUNT
            &&& starts_with_at(s, i, s.len() as int, keyword_bytes(k))
        }),
    decreases KEYWORD_COUNT - k0,
{
    if !(k0 < 0 || k0 >= KEYWORD_COUNT) && !starts_with_at(s, i, s.len() as int, keyword_bytes(k0)) {
        lemma_keyword_found(s, i, k0 + 1);
    }
}

fn keyword_at_exec(bytes: &[u8], i: usize) -> (r: Option<usize>)
    requires
        i <= bytes@.len(),
    ensures
        match r {
            Some(k) => k < KEYWORD_COUNT && keyword_index_from(bytes@, i as int, 0) == Some(k as int),
            None => keyword_index_from(bytes@, i as int, 0) is None,
        },
{
    let n = bytes.len();
    let mut k: usize = 0;
    while k < KEYWORD_COUNT
        invariant
            k <= KEYWORD_COUNT,
            n == bytes@.len(),
            i <= n,
            keyword_index_from(bytes@, i as int, 0) == keyword_index_from(bytes@, i as int, k as int),
        decreases KEYWORD_COUNT - k,
    {
        let kw = keyword_bytes_exec(k);
        if starts_with_at_exec(bytes, i, n, kw.as_slice()) {
            return Some(k);
        }
        k = k + 1;
    }
    None
}

fn accepted_before_exec(c: u8) -> (r: bool)
    ensures
        r == accepted_before(c),
{
    c == 32u8 || c == 9u8 || c == 10u8 || c == 13u8 || c == 40u8 || c == 124u8 || c == 123u8 || c
        == 91u8 || c == 59u8 || c == 44u8 || c == 42u8 || c == 61u8 || c == 33u8 || c == 43u8 || c
        == 45u8 || c == 47u8 || c == 60u8 || c == 62u8 || c == 38u8 || c == 46u8 || c == 63u8
}

fn accepted_after_exec(c: u8) -> (r: bool)
    ensures
        r == accepted_after(c),
{
    c == 32u8 || c == 9u8 || c == 10u8 || c == 13u8 || c == 59u8 || c == 44u8 || c == 35u8 || c
        == 92u8 || c == 41u8 || c == 125u8 || c == 93u8 || c == 46u8
}

fn is_method_call_exec(bytes: &[u8], i: usize) -> (r: bool)
    requires
        i <= bytes@.len(),
    ensures
        r == is_method_call(bytes@, i as int),
{
    if i == 0 {
        return false;
    }
    let mut j = i - 1;
    while j > 0 && (bytes[j] == 32u8 || bytes[j] == 9u8 || bytes[j] == 10u8 || bytes[j] == 13u8)
        invariant
            j < i <= bytes@.len(),
            back_skip_space(bytes@, i - 1) == back_skip_space(bytes@, j as int),
        decreases j,
    {
        j = j - 1;
    }
    bytes[j] == 46u8 || (bytes[j] == 58u8 && j > 0 && bytes[j - 1] == 58u8)
}

fn contains_pos(skips: &[usize], i: usize) -> (r: bool)
    ensures
        r == skips@.contains(i),
{
    let mut k: usize = 0;
    while k < skips.len()
        invariant
            k <= skips@.len(),
            forall|j: int| 0 <= j < k ==> skips@[j] != i,
        decreases skips@.len() - k,
    {
        if skips[k] == i {
            assert(skips@[k as int] == i);
            return true;
        }
        k = k + 1;
    }
    false
}

fn checked_keyword_exec(bytes: &[u8], code: &CodeMap, skips: &[usize], i: usize) -> (r: Option<usize>)
    requires
        i < bytes@.len(),
        bytes@.len() < usize::MAX,
    ensures
        match r {
            Some(k) => k < KEYWORD_COUNT && checked_keyword(bytes@, *code, skips@, i as int)
                == Some(k as int),
            None => checked_keyword(bytes@, *code, skips@, i as int) is None,
        },
{
    let n = bytes.len();
    let k = match keyword_at_exec(bytes, i) {
        Some(k) => k,
        None => {
            return None;
        },
    };
    let kw = keyword_bytes_exec(k);
    proof {
        lemma_keyword_found(bytes@, i as int, 0);
    }
    let e = i + kw.len();
    if (e < n && is_word(bytes[e])) || (i > 0 && (is_alpha(bytes[i - 1]) || bytes[i - 1] == 95u8
        || bytes[i - 1] == 64u8 || bytes[i - 1] == 36u8)) || !code.is_code(i) || is_method_call_exec(
        bytes,
        i,
    ) || (i >= 4 && bytes[i - 4] == 100u8 && bytes[i - 3] == 101u8 && bytes[i - 2] == 102u8
        && bytes[i - 1] == 32u8) || (i > 0 && bytes[i - 1] == 58u8 && !(i >= 2 && bytes[i - 2]
        == 58u8)) || (e < n && (bytes[e] == 33u8 || (k != DEFINED_INDEX && bytes[e] == 63u8))) || (e
        < n && bytes[e] == 58u8 && !(e + 1 < n && bytes[e + 1] == 58u8)) || (k == END_INDEX
        && contains_pos(skips, i)) {
        None
    } else {
        Some(k)
    }
}

fn accepts_left_paren_exec(k: usize) -> (r: bool)
    ensures
        r == accepts_left_paren(k as int),
{
    k == 2 || k == 4 || k == 12 || k == 13 || k == 15 || k == 17 || k == 23
}

fn accepts_left_bracket_exec(k: usize) -> (r: bool)
    ensures
        r == accepts_left_bracket(k as int),
{
    k == 17 || k == 23
}

fn space_after_missing_exec(bytes: &[u8], k: usize, i: usize) -> (r: bool)
    requires
        k < KEYWORD_COUNT,
        i < bytes@.len(),
        bytes@.len() < usize::MAX,
        starts_with_at(bytes@, i as int, bytes@.len() as int, keyword_bytes(k as int)),
    ensures
        r == space_after_missing(bytes@, k as int, i as int),
{
    let n = bytes.len();
    let kw = keyword_bytes_exec(k);
    let e = i + kw.len();
    if k == END_INDEX || e >= n {
        return false;
    }
    let c = bytes[e];
    !(accepted_after_exec(c) || (c == 40u8 && accepts_left_paren_exec(k)) || (c == 91u8
        && accepts_left_bracket_exec(k)) || (c == 58u8 && k == SUPER_INDEX && e + 1 < n && bytes[e
        + 1] == 58u8) || (c == 38u8 && e + 1 < n && bytes[e + 1] == 46u8))
}

impl SpaceAroundKeyword {
    pub fn name(&self) -> (r: &'static str)
        ensures
            r@ == "Layout/SpaceAroundKeyword"@,
    {
        "Layout/SpaceAroundKeyword"
    }

    pub fn default_severity(&self) -> (r: Severity)
        ensures
            r == Severity::Convention,
    {
        Severity::Convention
    }

    pub fn supports_autocorrect(&self) -> (r: bool)
        ensures
            r == true,
    {
        true
    }
    /// Checks every keyword of `source`: `code` tells code from comments and
    /// literal text, `skips` lists the `end` keywords of methods, classes and
    /// modules. One report per missing space and, with `autocorrect`, the
    /// space to insert.
    pub fn check_source(
        &self,
        source: &SourceFile,
        code: &CodeMap,
        skips: &[usize],
        diagnostics: &mut Vec<Diagnostic>,
        corrections: &mut Vec<Correction>,
        autocorrect: bool,
    )
        ensures
            extends_with_reports(
                old(diagnostics)@,
                final(diagnostics)@,
                source.spec_path(),
                "Layout/SpaceAroundKeyword"@,
                Severity::Convention,
                keyword_offenses(source@, *code, skips@, source@.len() as int),
                autocorrect,
            ),
            autocorrect ==> extends_with_edits(
                old(corrections)@,
                final(corrections)@,
                "Layout/SpaceAroundKeyword"@,
                keyword_edits(source@, *code, skips@, source@.len() as int),
            ),
            !autocorrect ==> final(corrections)@ == old(corrections)@,
    {
        let cop = "Layout/SpaceAroundKeyword";
        let bytes = source.as_bytes();
        let n = bytes.len();
        let ghost s = bytes@;
        let ghost path = source.spec_path();
        let ghost cs = *code;
        proof {
            lemma_reports_empty(diagnostics@, path, cop@, Severity::Convention, autocorrect);
            lemma_edits_empty(corrections@, cop@);
        }
        let mut i: usize = 0;
        while i < n
            invariant
                i <= n,
                n == s.len(),
                s == bytes@,
                s == source@,
                s.len() < usize::MAX,
                path == source.spec_path(),
                cs == *code,
                cop@ == "Layout/SpaceAroundKeyword"@,
                extends_with_reports(
                    old(diagnostics)@,
                    diagnostics@,
                    path,
                    cop@,
                    Severity::Convention,
                    keyword_offenses(s, cs, skips@, i as int),
                    autocorrect,
                ),
                autocorrect ==> extends_with_edits(
                    old(corrections)@,
                    corrections@,
                    cop@,
                    keyword_edits(s, cs, skips@, i as int),
                ),
                !autocorrect ==> corrections@ == old(corrections)@,
            decreases n - i,
        {
            let ghost offs0 = keyword_offenses(s, cs, skips@, i as int);
            let ghost eds0 = keyword_edits(s, cs, skips@, i as int);
            match checked_keyword_exec(bytes, code, skips, i) {
                None => {
                    assert(offs0 + offenses_at(s, cs, skips@, i as int) =~= offs0);
                    assert(eds0 + edits_at(s, cs, skips@, i as int) =~= eds0);
                },
                Some(k) => {
                    proof {
                        lemma_keyword_found(s, i as int, 0);
                    }
                    let kw = keyword_bytes_exec(k);
                    let name = keyword_str_exec(k);
                    let e = i + kw.len();
                    let (line, col) = source.offset_to_line_col(i);
                    let ghost offs = offs0;
                    let ghost eds = eds0;
                    if i > 0 && !accepted_before_exec(bytes[i - 1]) {
                        let mut msg = "Space before keyword `".to_owned();
                        msg.append(name);
                        msg.append("` is missing.");
                        let ghost d0 = diagnostics@;
                        let ghost c0 = corrections@;
                        let ghost o = (line as int, col as int, msg@);
                        push_offense(
                            diagnostics,
                            corrections,
                            autocorrect,
                            source,
                            cop,
                            Severity::Convention,
                            line,
                            col,
                            msg,
                            i,
                            i,
                            " ",
                        );
                        proof {
                            lemma_reports_push(old(diagnostics)@, d0, diagnostics@, path, cop@, Severity::Convention, offs, o, autocorrect);
                            if autocorrect {
                                lemma_edits_push(old(corrections)@, c0, corrections@, cop@, eds, (i as int, i as int, " "@));
                            }
                            offs = offs.push(o);
                            eds = eds.push((i as int, i as int, " "@));
                        }
                    }
                    if space_after_missing_exec(bytes, k, i) {
                        let mut msg = "Space after keyword `".to_owned();
                        msg.append(name);
                        msg.append("` is missing.");
                        let ghost d0 = diagnostics@;
                        let ghost c0 = corrections@;
                        let ghost o = (line as int, col as int, msg@);
                        push_offense(
                            diagnostics,
                            corrections,
                            autocorrect,
                            source,
                            cop,
                            Severity::Convention,
                            line,
                            col,
                            msg,
                            e,
                            e,
                            " ",
                        );
                        proof {
                            lemma_reports_push(old(diagnostics)@, d0, diagnostics@, path, cop@, Severity::Convention, offs, o, autocorrect);
                            if autocorrect {
                                lemma_edits_push(old(corrections)@, c0, corrections@, cop@, eds, (e as int, e as int, " "@));
                            }
                            offs = offs.push(o);
                            eds = eds.push((e as int, e as int, " "@));
                        }
                    }
                    assert(offs =~= offs0 + offenses_at(s, cs, skips@, i as int));
                    assert(eds =~= eds0 + edits_at(s, cs, skips@, i as int));
                },
            }
            i = i + 1;
        }
    }
}

} // verus!
