use crate::cop::report::{adds_offenses, emit_offense, lemma_offenses_empty, lemma_offenses_push};
use crate::cop::util::{is_valid_utf8, string_is, text_of};
use crate::correction::Correction;
use crate::diagnostic::{Diagnostic, Severity};
use crate::parse::source::{col_of, line_of, SourceFile};
use vstd::prelude::*;
use vstd::utf8::valid_utf8;

verus! {

/// The `FactoryBot/FactoryClassName` cop: `class:` given as a string, not a
/// constant.
pub struct FactoryClassName;

/// The value of a hash pair, as far as the cop reads it.
pub enum ClassValue {
    /// A constant (`Foo` or `A::Foo`) spanning `start..end`, with its last
    /// name if it has one.
    Constant { start: usize, end: usize, name: Option<String> },
    Other,
}

/// A pair of a hash argument: its key's unescaped bytes when the key is a
/// symbol, and its value. Other hash elements (splats) are left out.
pub struct ClassPair {
    pub key: Option<Vec<u8>>,
    pub value: ClassValue,
}

/// Constants that stand for plain data, not a model class.
pub open spec fn is_allowed_constant(n: Option<String>) -> bool {
    match n {
        Some(n) => n@ == "Hash"@ || n@ == "OpenStruct"@,
        None => false,
    }
}

/// The constant's text, or `<unknown>` when it is not UTF-8.
pub open spec fn constant_text(s: Seq<u8>, a: int, b: int) -> Seq<char> {
    if valid_utf8(s.subrange(a, b)) {
        vstd::utf8::decode_utf8(s.subrange(a, b))
    } else {
        "<unknown>"@
    }
}

/// The offense of pair `k`: a `class:` key with a constant value, rewritten
/// to the constant's text in single quotes.
pub open spec fn class_offense(s: Seq<u8>, p: ClassPair) -> Option<
    (int, int, Seq<char>, Option<(int, int, Seq<char>)>),
> {
    match p.key {
        Some(k) => if k@ == seq![99u8, 108u8, 97u8, 115u8, 115u8] {
            match p.value {
                ClassValue::Constant { start, end, name } => if is_allowed_constant(name) {
                    None
                } else {
                    let t = constant_text(s, start as int, end as int);
                    Some(
                        (
                            line_of(s, start as int) as int,
                            col_of(s, start as int) as int,
                            "Pass '"@ + t + "' string instead of `"@ + t + "` constant."@,
                            Some(
                                (
                                    start as int,
                                    end as int,
                                    "'"@ + (if valid_utf8(s.subrange(start as int, end as int)) {
                                        vstd::utf8::decode_utf8(s.subrange(start as int, end as int))
                                    } else {
                                        Seq::empty()
                                    }) + "'"@,
                                ),
                            ),
                        ),
                    )
                },
                ClassValue::Other => None,
            }
        } else {
            None
        },
        None => None,
    }
}

/// The offenses of the first `n` pairs, in order.
pub open spec fn class_offenses(s: Seq<u8>, pairs: Seq<ClassPair>, n: int) -> Seq<
    (int, int, Seq<char>, Option<(int, int, Seq<char>)>),
>
    decreases n,
{
    if n <= 0 {
        Seq::empty()
    } else {
        let r = class_offenses(s, pairs, n - 1);
        match class_offense(s, pairs[n - 1]) {
            Some(o) => r.push(o),
            None => r,
        }
    }
}

/// The offenses of a call: only `factory` calls are checked.
pub open spec fn factory_class_offenses(s: Seq<u8>, name: Seq<char>, pairs: Seq<ClassPair>) -> Seq<
    (int, int, Seq<char>, Option<(int, int, Seq<char>)>),
> {
    if name == "factory"@ {
        class_offenses(s, pairs, pairs.len() as int)
    } else {
        Seq::empty()
    }
}

pub open spec fn pairs_in_bounds(s: Seq<u8>, pairs: Seq<ClassPair>) -> bool {
    forall|k: int|
        0 <= k < pairs.len() ==> match (#[trigger] pairs[k]).value {
            ClassValue::Constant { start, end, .. } => start <= end <= s.len(),
            ClassValue::Other => true,
        }
}

impl FactoryClassName {
    pub fn name(&self) -> (r: &'static str)
        ensures
            r@ == "FactoryBot/FactoryClassName"@,
    {
        "FactoryBot/FactoryClassName"
    }

    pub fn default_severity(&self) -> (r: Severity)
        ensures
            r == Severity::Convention,
    {
        Severity::Convention
    }

    pub fn supports_autocorrect(&self) -> (r: bool)
        ensures
            r == true,
    {
        true
    }

    /// Checks one call, given its name and the pairs of its hash arguments in
    /// order.
    pub fn check_call(
        &self,
        source: &SourceFile,
        name: &String,
        pairs: &Vec<ClassPair>,
        diagnostics: &mut Vec<Diagnostic>,
        corrections: &mut Vec<Correction>,
        autocorrect: bool,
    )
        requires
            pairs_in_bounds(source@, pairs@),
        ensures
            adds_offenses(
                old(diagnostics)@,
                final(diagnostics)@,
                old(corrections)@,
                final(corrections)@,
                source.spec_path(),
                "FactoryBot/FactoryClassName"@,
                Severity::Convention,
                factory_class_offenses(source@, name@, pairs@),
                autocorrect,
            ),
    {
        proof {
            lemma_offenses_empty(
                diagnostics@,
                corrections@,
                source.spec_path(),
                "FactoryBot/FactoryClassName"@,
                Severity::Convention,
                autocorrect,
            );
        }
        if !string_is(name, "factory") {
            return;
        }
        let bytes = source.as_bytes();
        let class_key = vec![99u8, 108u8, 97u8, 115u8, 115u8];
        assert(class_key@ =~= seq![99u8, 108u8, 97u8, 115u8, 115u8]);
        let mut k: usize = 0;
        while k < pairs.len()
            invariant
                k <= pairs@.len(),
                bytes@ == source@,
                class_key@ == seq![99u8, 108u8, 97u8, 115u8, 115u8],
                pairs_in_bounds(source@, pairs@),
                adds_offenses(
                    old(diagnostics)@,
                    diagnostics@,
                    old(corrections)@,
                    corrections@,
                    source.spec_path(),
                    "FactoryBot/FactoryClassName"@,
                    Severity::Convention,
                    class_offenses(source@, pairs@, k as int),
                    autocorrect,
                ),
            decreases pairs@.len() - k,
        {
            let ghost prev = class_offenses(source@, pairs@, k as int);
            let p = &pairs[k];
            let is_class = match &p.key {
                Some(key) => crate::cop::lint::duplicates::bytes_eq(key.as_slice(), class_key.as_slice()),
                None => false,
            };
            if is_class {
                match &p.value {
                    ClassValue::Constant { start, end, name } => {
                        let allowed = match name {
                            Some(n) => string_is(n, "Hash") || string_is(n, "OpenStruct"),
                            None => false,
                        };
                        if !allowed {
                            let start = *start;
                            let end = *end;
                            assert(start <= end <= source@.len());
                            let slice = vstd::slice::slice_subrange(bytes, start, end);
                            let valid = is_valid_utf8(slice);
                            let t = if valid {
                                text_of(slice)
                            } else {
                                "<unknown>".to_owned()
                            };
                            let mut msg = "Pass '".to_owned();
                            msg.append(t.as_str());
                            msg.append("' string instead of `");
                            msg.append(t.as_str());
                            msg.append("` constant.");
                            let mut repl = "'".to_owned();
                            if valid {
                                repl.append(t.as_str());
                            }
                            repl.append("'");
                            let (line, col) = source.offset_to_line_col(start);
                            let ghost mid_d = diagnostics@;
                            let ghost mid_c = corrections@;
                            let ghost o = class_offense(source@, pairs@[k as int]);
                            emit_offense(
                                diagnostics,
                                corrections,
                                autocorrect,
                                source,
                                "FactoryBot/FactoryClassName",
                                Severity::Convention,
                                line,
                                col,
                                msg,
                                Some((start, end, repl)),
                            );
                            proof {
                                lemma_offenses_push(
                                    old(diagnostics)@,
                                    mid_d,
                                    diagnostics@,
                                    old(corrections)@,
                                    mid_c,
                                    corrections@,
                                    source.spec_path(),
                                    "FactoryBot/FactoryClassName"@,
                                    Severity::Convention,
                                    prev,
                                    o->0,
                                    autocorrect,
                                );
                            }
                        }
                    },
                    ClassValue::Other => {},
                }
            }
            k = k + 1;
        }
    }
}

} // verus!
