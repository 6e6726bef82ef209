use crate::cop::node::ConstantReceiver;
use crate::cop::report::{edits, extends_with_edits, lemma_edits_empty, lemma_edits_push};
use crate::cop::util::string_is;
use crate::correction::Correction;
use crate::diagnostic::{new_diagnostic, reports, Diagnostic, Severity};
use crate::parse::source::{col_of, line_of, SourceFile};
use vstd::prelude::*;

verus! {

/// Checks for `BigDecimal.new()`, which is deprecated in favor of `BigDecimal()`.
pub struct BigDecimalNew;

/// A call: its name, its receiver with where that lies, and where its
/// method name lies (the whole call when it has none).
pub struct NewCall {
    pub name: String,
    pub receiver: Option<(ConstantReceiver, usize, usize)>,
    pub message: (usize, usize),
}

/// The constant receiver's last name is `BigDecimal`.
pub open spec fn is_big_decimal(r: ConstantReceiver) -> bool {
    match r {
        ConstantReceiver::Read(n) => n@ == "BigDecimal"@,
        ConstantReceiver::Path { name: Some(n), .. } => n@ == "BigDecimal"@,
        _ => false,
    }
}

/// `BigDecimal.new` (or `X::BigDecimal.new`).
pub open spec fn is_big_decimal_new(c: NewCall) -> bool {
    c.name@ == "new"@ && (c.receiver matches Some((r, _, _)) && is_big_decimal(r))
}

/// The edits of the call: `.new` goes, and so does the `::` of a receiver
/// written `::BigDecimal`.
pub open spec fn big_decimal_edits(s: Seq<u8>, c: NewCall) -> Seq<(int, int, Seq<char>)> {
    match c.receiver {
        Some((r, a, b)) => {
            let drop_new = seq![(b as int, c.message.1 as int, Seq::<char>::empty())];
            if (r matches ConstantReceiver::Path { has_parent: false, .. }) && a + 1 < s.len()
                && s[a as int] == 58u8 && s[a + 1] == 58u8 {
                drop_new.push((a as int, a + 2, Seq::empty()))
            } else {
                drop_new
            }
        },
        None => Seq::empty(),
    }
}

impl BigDecimalNew {
    pub fn name(&self) -> (r: &'static str)
        ensures
            r@ == "Lint/BigDecimalNew"@,
    {
        "Lint/BigDecimalNew"
    }

    pub fn default_severity(&self) -> (r: Severity)
        ensures
            r == Severity::Warning,
    {
        Severity::Warning
    }

    pub fn supports_autocorrect(&self) -> (r: bool)
        ensures
            r == true,
    {
        true
    }

    /// Checks one call; with `autocorrect`, rewrites `BigDecimal.new(x)` to
    /// `BigDecimal(x)`.
    pub fn check_call(
        &self,
        source: &SourceFile,
        call: &NewCall,
        diagnostics: &mut Vec<Diagnostic>,
        corrections: &mut Vec<Correction>,
        autocorrect: bool,
    )
        requires
            call.message.0 <= source@.len(),
            call.receiver matches Some((_, a, b)) ==> a <= b,
        ensures
            is_big_decimal_new(*call) ==> {
                &&& final(diagnostics)@.len() == old(diagnostics)@.len() + 1
                &&& final(diagnostics)@.drop_last() == old(diagnostics)@
                &&& reports(
                    final(diagnostics)@.last(),
                    source.spec_path(),
                    "Lint/BigDecimalNew"@,
                    Severity::Warning,
                    line_of(source@, call.message.0 as int) as int,
                    col_of(source@, call.message.0 as int) as int,
                    "`BigDecimal.new()` is deprecated. Use `BigDecimal()` instead."@,
                    autocorrect,
                )
                &&& extends_with_edits(
                    old(corrections)@,
                    final(corrections)@,
                    "Lint/BigDecimalNew"@,
                    if autocorrect {
                        big_decimal_edits(source@, *call)
                    } else {
                        Seq::empty()
                    },
                )
            },
            !is_big_decimal_new(*call) ==> final(diagnostics)@ == old(diagnostics)@ && final(corrections)@ == old(
                corrections,
            )@,
    {
        if !string_is(&call.name, "new") {
            return;
        }
        let (r, a, b) = match &call.receiver {
            Some(x) => x,
            None => {
                return;
            },
        };
        let big = match r {
            ConstantReceiver::Read(n) => string_is(n, "BigDecimal"),
            ConstantReceiver::Path { name: Some(n), .. } => string_is(n, "BigDecimal"),
            _ => false,
        };
        if !big {
            return;
        }
        let (line, col) = source.offset_to_line_col(call.message.0);
        let mut d = new_diagnostic(
            source,
            "Lint/BigDecimalNew",
            Severity::Warning,
            line,
            col,
            "`BigDecimal.new()` is deprecated. Use `BigDecimal()` instead.".to_owned(),
        );
        let ghost cop = "Lint/BigDecimalNew"@;
        proof {
            lemma_edits_empty(corrections@, cop);
        }
        if autocorrect {
            let empty = String::new();
            assert(empty@ =~= Seq::<char>::empty());
            corrections.push(
                Correction {
                    start: *b,
                    end: call.message.1,
                    replacement: empty,
                    cop_name: "Lint/BigDecimalNew".to_owned(),
                    cop_index: 0,
                },
            );
            proof {
                assert(corrections@.drop_last() =~= old(corrections)@);
                lemma_edits_push(
                    old(corrections)@,
                    old(corrections)@,
                    corrections@,
                    cop,
                    Seq::empty(),
                    (*b as int, call.message.1 as int, Seq::<char>::empty()),
                );
            }
            let top = match r {
                ConstantReceiver::Path { has_parent: false, .. } => true,
                _ => false,
            };
            let bytes = source.as_bytes();
            let ghost first = seq![(*b as int, call.message.1 as int, Seq::<char>::empty())];
            assert(Seq::<(int, int, Seq<char>)>::empty().push((*b as int, call.message.1 as int, Seq::<char>::empty())) =~= first);
            if top && bytes.len() > 1 && *a < bytes.len() - 1 && bytes[*a] == 58u8 && bytes[*a + 1] == 58u8 {
                let empty2 = String::new();
                assert(empty2@ =~= Seq::<char>::empty());
                let ghost mid = corrections@;
                corrections.push(
                    Correction {
                        start: *a,
                        end: *a + 2,
                        replacement: empty2,
                        cop_name: "Lint/BigDecimalNew".to_owned(),
                        cop_index: 0,
                    },
                );
                proof {
                    assert(corrections@.drop_last() =~= mid);
                    lemma_edits_push(
                        old(corrections)@,
                        mid,
                        corrections@,
                        cop,
                        first,
                        (*a as int, *a + 2, Seq::<char>::empty()),
                    );
                }
            }
            d.corrected = true;
        }
        diagnostics.push(d);
        assert(diagnostics@.drop_last() =~= old(diagnostics)@);
    }
}

} // verus!
