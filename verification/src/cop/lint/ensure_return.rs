use crate::cop::report::{adds_offenses, emit_offense, lemma_offenses_empty, lemma_offenses_push};
use crate::correction::Correction;
use crate::diagnostic::{Diagnostic, Severity};
use crate::parse::source::{col_of, line_of, SourceFile};
use vstd::prelude::*;

verus! {

/// Checks for `return` from an `ensure` block.
pub struct EnsureReturn;

/// An ASCII white-space byte (space, tab, line feed, form feed, carriage return).
pub open spec fn is_ascii_ws(b: u8) -> bool {
    b == 32u8 || b == 9u8 || b == 10u8 || b == 12u8 || b == 13u8
}

/// Where the edit of a `return` with a value starting at `a` ends: after the
/// keyword and one white-space byte that follows it.
pub open spec fn keyword_edit_end(s: Seq<u8>, a: usize) -> int {
    let e = if a + 6 <= usize::MAX { a + 6 } else { usize::MAX as int };
    if 0 <= e < s.len() && is_ascii_ws(s[e]) {
        if e + 1 <= usize::MAX { e + 1 } else { usize::MAX as int }
    } else {
        e
    }
}

/// The offense of a `return` in an `ensure` block: (start, has a value). A
/// return with a value loses its keyword, and the value stays.
pub open spec fn ensure_offense(s: Seq<u8>, r: (usize, bool)) -> (int, int, Seq<char>, Option<(int, int, Seq<char>)>) {
    (
        line_of(s, r.0 as int) as int,
        col_of(s, r.0 as int) as int,
        "Do not return from an `ensure` block."@,
        if r.1 {
            Some((r.0 as int, keyword_edit_end(s, r.0), Seq::empty()))
        } else {
            None
        },
    )
}

pub open spec fn ensure_offenses(s: Seq<u8>, rets: Seq<(usize, bool)>) -> Seq<
    (int, int, Seq<char>, Option<(int, int, Seq<char>)>),
> {
    Seq::new(rets.len(), |j: int| ensure_offense(s, rets[j]))
}

impl EnsureReturn {
    pub fn name(&self) -> (r: &'static str)
        ensures
            r@ == "Lint/EnsureReturn"@,
    {
        "Lint/EnsureReturn"
    }

    pub fn default_severity(&self) -> (r: Severity)
        ensures
            r == Severity::Warning,
    {
        Severity::Warning
    }

    pub fn supports_autocorrect(&self) -> (r: bool)
        ensures
            r == true,
    {
        true
    }

    /// Checks the `return`s found in the statements of one `ensure` clause,
    /// in order: where each starts and whether it has a value.
    pub fn check_ensure(
        &self,
        source: &SourceFile,
        found: &Vec<(usize, bool)>,
        diagnostics: &mut Vec<Diagnostic>,
        corrections: &mut Vec<Correction>,
        autocorrect: bool,
    )
        requires
            forall|k: int| 0 <= k < found@.len() ==> #[trigger] found@[k].0 <= source@.len(),
        ensures
            adds_offenses(
                old(diagnostics)@,
                final(diagnostics)@,
                old(corrections)@,
                final(corrections)@,
                source.spec_path(),
                "Lint/EnsureReturn"@,
                Severity::Warning,
                ensure_offenses(source@, found@),
                autocorrect,
            ),
    {
        let bytes = source.as_bytes();
        proof {
            lemma_offenses_empty(
                diagnostics@,
                corrections@,
                source.spec_path(),
                "Lint/EnsureReturn"@,
                Severity::Warning,
                autocorrect,
            );
            assert(ensure_offenses(source@, found@.subrange(0, 0)) =~= Seq::empty());
        }
        let mut k: usize = 0;
        while k < found.len()
            invariant
                k <= found@.len(),
                bytes@ == source@,
                forall|j: int| 0 <= j < found@.len() ==> #[trigger] found@[j].0 <= source@.len(),
                adds_offenses(
                    old(diagnostics)@,
                    diagnostics@,
                    old(corrections)@,
                    corrections@,
                    source.spec_path(),
                    "Lint/EnsureReturn"@,
                    Severity::Warning,
                    ensure_offenses(source@, found@.subrange(0, k as int)),
                    autocorrect,
                ),
            decreases found@.len() - k,
        {
            let (a, has_value) = found[k];
            assert(found@[k as int].0 <= source@.len());
            let (line, col) = source.offset_to_line_col(a);
            let edit = if has_value {
                let mut end = if a <= usize::MAX - 6 {
                    a + 6
                } else {
                    usize::MAX
                };
                if end < bytes.len() {
                    let b = bytes[end];
                    if b == 32u8 || b == 9u8 || b == 10u8 || b == 12u8 || b == 13u8 {
                        end = if end < usize::MAX {
                            end + 1
                        } else {
                            usize::MAX
                        };
                    }
                }
                let empty = String::new();
                assert(empty@ =~= Seq::<char>::empty());
                Some((a, end, empty))
            } else {
                None
            };
            let ghost mid_d = diagnostics@;
            let ghost mid_c = corrections@;
            emit_offense(
                diagnostics,
                corrections,
                autocorrect,
                source,
                "Lint/EnsureReturn",
                Severity::Warning,
                line,
                col,
                "Do not return from an `ensure` block.".to_owned(),
                edit,
            );
            proof {
                let o = ensure_offense(source@, found@[k as int]);
                lemma_offenses_push(
                    old(diagnostics)@,
                    mid_d,
                    diagnostics@,
                    old(corrections)@,
                    mid_c,
                    corrections@,
                    source.spec_path(),
                    "Lint/EnsureReturn"@,
                    Severity::Warning,
                    ensure_offenses(source@, found@.subrange(0, k as int)),
                    o,
                    autocorrect,
                );
                assert(ensure_offenses(source@, found@.subrange(0, k + 1)) =~= ensure_offenses(
                    source@,
                    found@.subrange(0, k as int),
                ).push(o));
            }
            k = k + 1;
        }
        assert(found@.subrange(0, found@.len() as int) =~= found@);
    }
}

} // verus!
