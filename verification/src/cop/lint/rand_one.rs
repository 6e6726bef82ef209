use crate::diagnostic::Severity;
use crate::cop::node::ConstantReceiver;
use crate::cop::report::{adds_offense, emit_offense};
use crate::cop::util::{is_valid_utf8, string_is, text_of};
use crate::correction::Correction;
use crate::diagnostic::Diagnostic;
use crate::parse::source::{col_of, line_of, SourceFile};
use vstd::utf8::valid_utf8;
use vstd::prelude::*;

verus! {

/// The `Lint/RandOne` cop.
pub struct RandOne;

/// An argument of `rand`, with the source text of its number literal.
pub enum RandArg {
    Integer(Vec<u8>),
    Float(Vec<u8>),
    /// `-` applied to an integer literal.
    NegatedInteger(Vec<u8>),
    /// `-` applied to a float literal.
    NegatedFloat(Vec<u8>),
    Other,
}

/// A call, as far as the cop reads it.
pub struct RandCall {
    pub name: String,
    pub receiver: Option<ConstantReceiver>,
    pub args: Vec<RandArg>,
    pub start: usize,
    pub end: usize,
}

/// The argument is one (or minus one).
pub open spec fn is_one_value(a: RandArg) -> bool {
    match a {
        RandArg::Integer(t) => t@ == seq![49u8] || t@ == seq![45u8, 49u8],
        RandArg::Float(t) => t@ == seq![49u8, 46u8, 48u8] || t@ == seq![45u8, 49u8, 46u8, 48u8],
        RandArg::NegatedInteger(t) => t@ == seq![49u8],
        RandArg::NegatedFloat(t) => t@ == seq![49u8, 46u8, 48u8],
        RandArg::Other => false,
    }
}

/// The receiver is absent or a constant named `Kernel`.
pub open spec fn is_kernel_or_none(r: Option<ConstantReceiver>) -> bool {
    match r {
        None => true,
        Some(ConstantReceiver::Read(n)) => n@ == "Kernel"@,
        Some(ConstantReceiver::Path { name: Some(n), .. }) => n@ == "Kernel"@,
        Some(_) => false,
    }
}

/// The offense of a call: `rand(1)` always returns 0, and becomes `0`.
pub open spec fn rand_one_offense(s: Seq<u8>, c: RandCall) -> Option<
    (int, int, Seq<char>, Option<(int, int, Seq<char>)>),
> {
    if c.name@ == "rand"@ && is_kernel_or_none(c.receiver) && c.args@.len() == 1 && is_one_value(
        c.args@[0],
    ) {
        let src = s.subrange(c.start as int, c.end as int);
        let text = if valid_utf8(src) {
            vstd::utf8::decode_utf8(src)
        } else {
            "rand(1)"@
        };
        Some(
            (
                line_of(s, c.start as int) as int,
                col_of(s, c.start as int) as int,
                "`"@ + text + "` always returns `0`. Perhaps you meant `rand(2)` or `rand`?"@,
                Some((c.start as int, c.end as int, "0"@)),
            ),
        )
    } else {
        None
    }
}

fn bytes_are(v: &Vec<u8>, t: &[u8]) -> (r: bool)
    ensures
        r == (v@ == t@),
{
    let r = crate::cop::util::range_eq(v.as_slice(), 0, v.len(), t);
    assert(v@.subrange(0, v@.len() as int) =~= v@);
    r
}

fn is_one_value_exec(a: &RandArg) -> (r: bool)
    ensures
        r == is_one_value(*a),
{
    let one: Vec<u8> = vec![49u8];
    let minus_one: Vec<u8> = vec![45u8, 49u8];
    let one_f: Vec<u8> = vec![49u8, 46u8, 48u8];
    let minus_one_f: Vec<u8> = vec![45u8, 49u8, 46u8, 48u8];
    assert(one@ =~= seq![49u8]);
    assert(minus_one@ =~= seq![45u8, 49u8]);
    assert(one_f@ =~= seq![49u8, 46u8, 48u8]);
    assert(minus_one_f@ =~= seq![45u8, 49u8, 46u8, 48u8]);
    match a {
        RandArg::Integer(t) => bytes_are(t, one.as_slice()) || bytes_are(t, minus_one.as_slice()),
        RandArg::Float(t) => bytes_are(t, one_f.as_slice()) || bytes_are(t, minus_one_f.as_slice()),
        RandArg::NegatedInteger(t) => bytes_are(t, one.as_slice()),
        RandArg::NegatedFloat(t) => bytes_are(t, one_f.as_slice()),
        RandArg::Other => false,
    }
}

impl RandOne {
    pub fn name(&self) -> (r: &'static str)
        ensures
            r@ == "Lint/RandOne"@,
    {
        "Lint/RandOne"
    }

    pub fn default_severity(&self) -> (r: Severity)
        ensures
            r == Severity::Warning,
    {
        Severity::Warning
    }

    pub fn supports_autocorrect(&self) -> (r: bool)
        ensures
            r == true,
    {
        true
    }

    /// Checks one call.
    pub fn check_node(
        &self,
        source: &SourceFile,
        call: &RandCall,
        diagnostics: &mut Vec<Diagnostic>,
        corrections: &mut Vec<Correction>,
        autocorrect: bool,
    )
        requires
            call.start <= call.end <= source@.len(),
        ensures
            adds_offense(
                old(diagnostics)@,
                final(diagnostics)@,
                old(corrections)@,
                final(corrections)@,
                source.spec_path(),
                "Lint/RandOne"@,
                Severity::Warning,
                rand_one_offense(source@, *call),
                autocorrect,
            ),
    {
        if !string_is(&call.name, "rand") {
            return;
        }
        let kernel = match &call.receiver {
            None => true,
            Some(ConstantReceiver::Read(n)) => string_is(n, "Kernel"),
            Some(ConstantReceiver::Path { name: Some(n), .. }) => string_is(n, "Kernel"),
            Some(_) => false,
        };
        if !kernel || call.args.len() != 1 || !is_one_value_exec(&call.args[0]) {
            return;
        }
        let src = vstd::slice::slice_subrange(source.as_bytes(), call.start, call.end);
        let mut msg = "`".to_owned();
        if is_valid_utf8(src) {
            let t = text_of(src);
            msg.append(t.as_str());
        } else {
            msg.append("rand(1)");
        }
        msg.append("` always returns `0`. Perhaps you meant `rand(2)` or `rand`?");
        let (line, col) = source.offset_to_line_col(call.start);
        emit_offense(
            diagnostics,
            corrections,
            autocorrect,
            source,
            "Lint/RandOne",
            Severity::Warning,
            line,
            col,
            msg,
            Some((call.start, call.end, "0".to_owned())),
        );
    }
}

} // verus!
