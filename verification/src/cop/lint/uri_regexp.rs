use crate::cop::node::ConstantReceiver;
use crate::cop::report::{adds_offense, emit_offense};
use crate::cop::util::{is_valid_utf8, slice_text, slice_text_exec, string_is, text_of};
use crate::correction::Correction;
use crate::diagnostic::{Diagnostic, Severity};
use crate::parse::source::{col_of, line_of, SourceFile};
use vstd::prelude::*;
use vstd::utf8::valid_utf8;

verus! {

/// Checks for `URI.regexp`, which is obsolete.
pub struct UriRegexp;

/// A call: its name, its receiver with where that lies, where its method
/// name starts, where the call lies and where its first argument lies.
pub struct RegexpCall {
    pub name: String,
    pub receiver: Option<(ConstantReceiver, usize, usize)>,
    pub message_start: usize,
    pub span: (usize, usize),
    pub first_arg: Option<(usize, usize)>,
}

/// The constant receiver's last name is `URI`.
pub open spec fn is_uri(r: ConstantReceiver) -> bool {
    match r {
        ConstantReceiver::Read(n) => n@ == "URI"@,
        ConstantReceiver::Path { name: Some(n), .. } => n@ == "URI"@,
        _ => false,
    }
}

/// The replacement of the call: `URI::DEFAULT_PARSER.make_regexp`, with the
/// first argument when its text is valid UTF-8.
pub open spec fn uri_replacement(s: Seq<u8>, c: RegexpCall) -> Seq<char> {
    let recv = match c.receiver {
        Some((_, a, b)) => slice_text(s, a as int, b as int, "URI"@),
        None => "URI"@,
    };
    match c.first_arg {
        Some((a, b)) => if valid_utf8(s.subrange(a as int, b as int)) {
            recv + "::DEFAULT_PARSER.make_regexp("@ + vstd::utf8::decode_utf8(s.subrange(a as int, b as int)) + ")"@
        } else {
            recv + "::DEFAULT_PARSER.make_regexp"@
        },
        None => recv + "::DEFAULT_PARSER.make_regexp"@,
    }
}

/// The offense of `URI.regexp`: the call becomes `URI::DEFAULT_PARSER.make_regexp`.
pub open spec fn uri_regexp_offense(s: Seq<u8>, c: RegexpCall) -> Option<
    (int, int, Seq<char>, Option<(int, int, Seq<char>)>),
> {
    if c.name@ == "regexp"@ && (c.receiver matches Some((r, _, _)) && is_uri(r)) {
        Some(
            (
                line_of(s, c.message_start as int) as int,
                col_of(s, c.message_start as int) as int,
                "`URI.regexp` is obsolete and should not be used."@,
                Some((c.span.0 as int, c.span.1 as int, uri_replacement(s, c))),
            ),
        )
    } else {
        None
    }
}

pub open spec fn regexp_call_in_bounds(s: Seq<u8>, c: RegexpCall) -> bool {
    &&& c.message_start <= s.len()
    &&& (c.receiver matches Some((_, a, b)) ==> a <= b <= s.len())
    &&& (c.first_arg matches Some((a, b)) ==> a <= b <= s.len())
}

impl UriRegexp {
    pub fn name(&self) -> (r: &'static str)
        ensures
            r@ == "Lint/UriRegexp"@,
    {
        "Lint/UriRegexp"
    }

    pub fn default_severity(&self) -> (r: Severity)
        ensures
            r == Severity::Warning,
    {
        Severity::Warning
    }

    pub fn supports_autocorrect(&self) -> (r: bool)
        ensures
            r == true,
    {
        true
    }

    /// Checks one call.
    pub fn check_call(
        &self,
        source: &SourceFile,
        call: &RegexpCall,
        diagnostics: &mut Vec<Diagnostic>,
        corrections: &mut Vec<Correction>,
        autocorrect: bool,
    )
        requires
            regexp_call_in_bounds(source@, *call),
        ensures
            adds_offense(
                old(diagnostics)@,
                final(diagnostics)@,
                old(corrections)@,
                final(corrections)@,
                source.spec_path(),
                "Lint/UriRegexp"@,
                Severity::Warning,
                uri_regexp_offense(source@, *call),
                autocorrect,
            ),
    {
        if !string_is(&call.name, "regexp") {
            return;
        }
        let (r, ra, rb) = match &call.receiver {
            Some(x) => x,
            None => {
                return;
            },
        };
        let uri = match r {
            ConstantReceiver::Read(n) => string_is(n, "URI"),
            ConstantReceiver::Path { name: Some(n), .. } => string_is(n, "URI"),
            _ => false,
        };
        if !uri {
            return;
        }
        let bytes = source.as_bytes();
        let mut replacement = slice_text_exec(bytes, *ra, *rb, "URI");
        let ghost recv = replacement@;
        match call.first_arg {
            Some((a, b)) => {
                let sub = vstd::slice::slice_subrange(bytes, a, b);
                if is_valid_utf8(sub) {
                    replacement.append("::DEFAULT_PARSER.make_regexp(");
                    let t = text_of(sub);
                    replacement.append(t.as_str());
                    replacement.append(")");
                } else {
                    replacement.append("::DEFAULT_PARSER.make_regexp");
                }
            },
            None => {
                replacement.append("::DEFAULT_PARSER.make_regexp");
            },
        }
        assert(replacement@ == uri_replacement(source@, *call));
        let (line, col) = source.offset_to_line_col(call.message_start);
        emit_offense(
            diagnostics,
            corrections,
            autocorrect,
            source,
            "Lint/UriRegexp",
            Severity::Warning,
            line,
            col,
            "`URI.regexp` is obsolete and should not be used.".to_owned(),
            Some((call.span.0, call.span.1, replacement)),
        );
    }
}

} // verus!
