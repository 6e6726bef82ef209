use crate::cop::config::{spec_get_bool, spec_get_str, CopConfig};
use crate::cop::factory_bot::language::{
    factory_bot_method, factory_call, is_factory_bot_method, is_factory_call,
};
use crate::cop::node::ConstantReceiver;
use crate::cop::report::{adds_offense, emit_offense};
use crate::cop::util::{
    is_alnum, is_alpha, is_valid_utf8, lossy_text, spec_is_alnum, spec_is_alpha, string_is,
    text_of,
};
use crate::correction::Correction;
use crate::diagnostic::{Diagnostic, Severity};
use crate::parse::source::{col_of, line_of, SourceFile};
use vstd::prelude::*;
use vstd::utf8::valid_utf8;

verus! {

/// The `FactoryBot/FactoryNameStyle` cop: factories named by symbols (or,
/// with style `string`, by strings).
pub struct FactoryNameStyle;

/// The first argument of a FactoryBot call, as far as the cop reads it.
pub enum NameArg {
    /// A plain string literal, with its unescaped bytes.
    Str { start: usize, end: usize, value: Vec<u8> },
    /// A symbol literal, with its unescaped bytes.
    Sym { start: usize, end: usize, value: Vec<u8> },
    Other,
}

/// A method call, as far as the cop reads it.
pub struct FactoryNameCall {
    pub name: String,
    pub receiver: Option<ConstantReceiver>,
    pub first_arg: Option<NameArg>,
}

/// The bytes when they are UTF-8, else none.
pub open spec fn utf8_or_empty(v: Seq<u8>) -> Seq<u8> {
    if valid_utf8(v) {
        v
    } else {
        Seq::empty()
    }
}

/// A name that a bare symbol can carry: a letter or `_`, then letters,
/// digits and `_`.
pub open spec fn is_plain_name(v: Seq<u8>) -> bool {
    &&& v.len() > 0
    &&& (v[0] == 95u8 || spec_is_alpha(v[0]))
    &&& forall|i: int| 0 <= i < v.len() ==> (#[trigger] v[i] == 95u8 || spec_is_alnum(v[i]))
}

/// The bytes with `\` and `"` escaped by a backslash.
pub open spec fn escape_quoted(v: Seq<u8>) -> Seq<u8>
    decreases v.len(),
{
    if v.len() == 0 {
        Seq::empty()
    } else {
        let r = escape_quoted(v.drop_last());
        let c = v.last();
        if c == 92u8 || c == 34u8 {
            r + seq![92u8, c]
        } else {
            r.push(c)
        }
    }
}

/// The symbol literal for a name: `:name`, or `:"name"` quoted.
pub open spec fn symbol_literal(v: Seq<u8>) -> Seq<u8> {
    if is_plain_name(v) {
        seq![58u8] + v
    } else {
        seq![58u8, 34u8] + escape_quoted(v) + seq![34u8]
    }
}

/// The double-quoted string literal for a name.
pub open spec fn string_literal(v: Seq<u8>) -> Seq<u8> {
    seq![34u8] + escape_quoted(v) + seq![34u8]
}

/// The name holds `/` (a namespace) or a line feed, carriage return or tab.
pub open spec fn not_a_name(v: Seq<u8>) -> bool {
    exists|i: int|
        0 <= i < v.len() && (#[trigger] v[i] == 47u8 || v[i] == 10u8 || v[i] == 13u8 || v[i] == 9u8)
}

/// The offense of a call of a FactoryBot method (on `FactoryBot`, or bare
/// unless `ExplicitOnly`): with style `symbol` a string name, with style
/// `string` a symbol name, each rewritten to the other form.
pub open spec fn name_style_offense(s: Seq<u8>, c: FactoryNameCall, config: CopConfig) -> Option<
    (int, int, Seq<char>, Option<(int, int, Seq<char>)>),
> {
    let explicit_only = spec_get_bool(config.options@, "ExplicitOnly"@, false);
    let style = spec_get_str(config.options@, "EnforcedStyle"@, "symbol"@);
    if !is_factory_bot_method(c.name@) || !is_factory_call(c.receiver, explicit_only) {
        None
    } else {
        match c.first_arg {
            Some(NameArg::Str { start, end, value }) => {
                let v = utf8_or_empty(value@);
                if style == "symbol"@ && !not_a_name(v) {
                    Some(
                        (
                            line_of(s, start as int) as int,
                            col_of(s, start as int) as int,
                            "Use symbol to refer to a factory."@,
                            Some((start as int, end as int, lossy_text(symbol_literal(v)))),
                        ),
                    )
                } else {
                    None
                }
            },
            Some(NameArg::Sym { start, end, value }) => if style == "string"@ {
                Some(
                    (
                        line_of(s, start as int) as int,
                        col_of(s, start as int) as int,
                        "Use string to refer to a factory."@,
                        Some((start as int, end as int, lossy_text(string_literal(utf8_or_empty(value@))))),
                    ),
                )
            } else {
                None
            },
            _ => None,
        }
    }
}

fn escape_quoted_exec(v: &[u8], out: &mut Vec<u8>)
    ensures
        final(out)@ == old(out)@ + escape_quoted(v@),
{
    let mut i: usize = 0;
    while i < v.len()
        invariant
            i <= v@.len(),
            out@ == old(out)@ + escape_quoted(v@.subrange(0, i as int)),
        decreases v@.len() - i,
    {
        let c = v[i];
        let ghost before = out@;
        assert(v@.subrange(0, i + 1).drop_last() =~= v@.subrange(0, i as int));
        if c == 92u8 || c == 34u8 {
            out.push(92u8);
            out.push(c);
            assert(out@ =~= before + seq![92u8, c]);
        } else {
            out.push(c);
        }
        i = i + 1;
    }
    assert(v@.subrange(0, v@.len() as int) =~= v@);
}

fn plain_name(v: &[u8]) -> (r: bool)
    ensures
        r == is_plain_name(v@),
{
    if v.len() == 0 || !(v[0] == 95u8 || is_alpha(v[0])) {
        return false;
    }
    let mut i: usize = 0;
    while i < v.len()
        invariant
            i <= v@.len(),
            forall|j: int| 0 <= j < i ==> (#[trigger] v@[j] == 95u8 || spec_is_alnum(v@[j])),
        decreases v@.len() - i,
    {
        if !(v[i] == 95u8 || is_alnum(v[i])) {
            return false;
        }
        i = i + 1;
    }
    true
}

fn has_not_name_byte(v: &[u8]) -> (r: bool)
    ensures
        r == not_a_name(v@),
{
    let mut i: usize = 0;
    while i < v.len()
        invariant
            i <= v@.len(),
            forall|j: int| 0 <= j < i ==> !(#[trigger] v@[j] == 47u8 || v@[j] == 10u8 || v@[j] == 13u8 || v@[j] == 9u8),
        decreases v@.len() - i,
    {
        let c = v[i];
        if c == 47u8 || c == 10u8 || c == 13u8 || c == 9u8 {
            return true;
        }
        i = i + 1;
    }
    false
}

fn utf8_or_empty_exec(v: &Vec<u8>) -> (r: Vec<u8>)
    ensures
        r@ == utf8_or_empty(v@),
{
    if is_valid_utf8(v.as_slice()) {
        v.clone()
    } else {
        Vec::new()
    }
}

impl FactoryNameStyle {
    pub fn name(&self) -> (r: &'static str)
        ensures
            r@ == "FactoryBot/FactoryNameStyle"@,
    {
        "FactoryBot/FactoryNameStyle"
    }

    pub fn default_severity(&self) -> (r: Severity)
        ensures
            r == Severity::Convention,
    {
        Severity::Convention
    }

    pub fn supports_autocorrect(&self) -> (r: bool)
        ensures
            r == true,
    {
        true
    }

    /// Checks one call; options `EnforcedStyle` (default `symbol`) and
    /// `ExplicitOnly` (default off).
    pub fn check_call(
        &self,
        source: &SourceFile,
        call: &FactoryNameCall,
        config: &CopConfig,
        diagnostics: &mut Vec<Diagnostic>,
        corrections: &mut Vec<Correction>,
        autocorrect: bool,
    )
        requires
            match call.first_arg {
                Some(NameArg::Str { start, end, .. }) => start <= end <= source@.len(),
                Some(NameArg::Sym { start, end, .. }) => start <= end <= source@.len(),
                _ => true,
            },
        ensures
            adds_offense(
                old(diagnostics)@,
                final(diagnostics)@,
                old(corrections)@,
                final(corrections)@,
                source.spec_path(),
                "FactoryBot/FactoryNameStyle"@,
                Severity::Convention,
                name_style_offense(source@, *call, *config),
                autocorrect,
            ),
    {
        let explicit_only = config.get_bool("ExplicitOnly", false);
        let style = config.get_str("EnforcedStyle", "symbol");
        if !factory_bot_method(&call.name) || !factory_call(&call.receiver, explicit_only) {
            return;
        }
        match &call.first_arg {
            Some(NameArg::Str { start, end, value }) => {
                if !string_is(&style, "symbol") {
                    return;
                }
                let v = utf8_or_empty_exec(value);
                if has_not_name_byte(v.as_slice()) {
                    return;
                }
                let mut lit: Vec<u8> = Vec::new();
                if plain_name(v.as_slice()) {
                    lit.push(58u8);
                    let mut i: usize = 0;
                    while i < v.len()
                        invariant
                            i <= v@.len(),
                            lit@ == seq![58u8] + v@.subrange(0, i as int),
                        decreases v@.len() - i,
                    {
                        lit.push(v[i]);
                        assert(seq![58u8] + v@.subrange(0, i + 1) =~= (seq![58u8] + v@.subrange(0, i as int)).push(v@[i as int]));
                        i = i + 1;
                    }
                    assert(v@.subrange(0, v@.len() as int) =~= v@);
                } else {
                    lit.push(58u8);
                    lit.push(34u8);
                    escape_quoted_exec(v.as_slice(), &mut lit);
                    lit.push(34u8);
                    assert(lit@ =~= seq![58u8, 34u8] + escape_quoted(v@) + seq![34u8]);
                }
                let repl = text_of(lit.as_slice());
                let (line, col) = source.offset_to_line_col(*start);
                emit_offense(
                    diagnostics,
                    corrections,
                    autocorrect,
                    source,
                    "FactoryBot/FactoryNameStyle",
                    Severity::Convention,
                    line,
                    col,
                    "Use symbol to refer to a factory.".to_owned(),
                    Some((*start, *end, repl)),
                );
            },
            Some(NameArg::Sym { start, end, value }) => {
                if !string_is(&style, "string") {
                    return;
                }
                let v = utf8_or_empty_exec(value);
                let mut lit: Vec<u8> = Vec::new();
                lit.push(34u8);
                escape_quoted_exec(v.as_slice(), &mut lit);
                lit.push(34u8);
                assert(lit@ =~= seq![34u8] + escape_quoted(v@) + seq![34u8]);
                let repl = text_of(lit.as_slice());
                let (line, col) = source.offset_to_line_col(*start);
                emit_offense(
                    diagnostics,
                    corrections,
                    autocorrect,
                    source,
                    "FactoryBot/FactoryNameStyle",
                    Severity::Convention,
                    line,
                    col,
                    "Use string to refer to a factory.".to_owned(),
                    Some((*start, *end, repl)),
                );
            },
            _ => {},
        }
    }
}

} // verus!
