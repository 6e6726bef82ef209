use crate::cop::config::{spec_get_bool, CopConfig};
use crate::cop::layout::multiline_array_line_breaks::{last_line, last_line_exec};
use crate::cop::report::adds_report;
use crate::diagnostic::{new_diagnostic, Diagnostic, Severity};
use crate::parse::source::{col_of, line_of, SourceFile};
use vstd::prelude::*;

verus! {

/// Checks for a line break before the first element in a multi-line hash.
pub struct FirstHashElementLineBreak;

/// A hash literal: its braces (absent for keyword arguments) and where each
/// element starts and ends.
pub struct HashLiteral {
    pub opening: Option<(usize, usize)>,
    pub closing: Option<(usize, usize)>,
    pub elements: Vec<(usize, usize)>,
}

/// The span `[a, b)` is the single byte `c`.
pub open spec fn span_is(s: Seq<u8>, span: Option<(usize, usize)>, c: u8) -> bool {
    match span {
        Some((a, b)) => b == a + 1 && s[a as int] == c,
        None => false,
    }
}

/// The offense of a hash in braces that spans lines: its first element
/// starts on the line of `{` while the elements span more than one line
/// (with `allow_final`, not when the last element spans lines itself).
pub open spec fn first_element_offense(s: Seq<u8>, h: HashLiteral, allow_final: bool) -> Option<
    (int, int, Seq<char>),
> {
    if !span_is(s, h.opening, 123u8) || !span_is(s, h.closing, 125u8) || h.elements@.len() == 0 {
        None
    } else {
        let open_at = match h.opening {
            Some((a, _)) => a as int,
            None => 0,
        };
        let close_at = match h.closing {
            Some((a, _)) => a as int,
            None => 0,
        };
        let open_line = line_of(s, open_at);
        let first = h.elements@[0];
        let last = h.elements@.last();
        let first_line = line_of(s, first.0 as int) as int;
        if open_line == line_of(s, close_at) {
            None
        } else if first_line == last_line(s, last.1) {
            None
        } else if allow_final && last_line(s, last.1) > line_of(s, last.0 as int) {
            None
        } else if first_line == open_line {
            Some(
                (
                    first_line,
                    col_of(s, first.0 as int) as int,
                    "Add a line break before the first element of a multi-line hash."@,
                ),
            )
        } else {
            None
        }
    }
}

pub open spec fn hash_in_bounds(s: Seq<u8>, h: HashLiteral) -> bool {
    &&& forall|k: int|
        0 <= k < h.elements@.len() ==> #[trigger] h.elements@[k].0 <= s.len() && h.elements@[k].1 <= s.len()
    &&& (h.opening matches Some((a, b)) ==> a <= b <= s.len())
    &&& (h.closing matches Some((a, b)) ==> a <= b <= s.len())
}

fn span_is_exec(bytes: &[u8], span: Option<(usize, usize)>, c: u8) -> (r: bool)
    requires
        span matches Some((a, b)) ==> a <= b <= bytes@.len(),
    ensures
        r == span_is(bytes@, span, c),
{
    match span {
        Some((a, b)) => b - a == 1 && bytes[a] == c,
        None => false,
    }
}

impl FirstHashElementLineBreak {
    pub fn name(&self) -> (r: &'static str)
        ensures
            r@ == "Layout/FirstHashElementLineBreak"@,
    {
        "Layout/FirstHashElementLineBreak"
    }

    pub fn default_enabled(&self) -> (r: bool)
        ensures
            r == false,
    {
        false
    }

    /// Checks one hash literal. Option `AllowMultilineFinalElement`.
    pub fn check_hash(
        &self,
        source: &SourceFile,
        hash: &HashLiteral,
        config: &CopConfig,
        diagnostics: &mut Vec<Diagnostic>,
    )
        requires
            hash_in_bounds(source@, *hash),
        ensures
            adds_report(
                old(diagnostics)@,
                final(diagnostics)@,
                source.spec_path(),
                "Layout/FirstHashElementLineBreak"@,
                Severity::Convention,
                first_element_offense(
                    source@,
                    *hash,
                    spec_get_bool(config.options@, "AllowMultilineFinalElement"@, false),
                ),
            ),
    {
        let allow_final = config.get_bool("AllowMultilineFinalElement", false);
        let bytes = source.as_bytes();
        if !span_is_exec(bytes, hash.opening, 123u8) || !span_is_exec(bytes, hash.closing, 125u8)
            || hash.elements.len() == 0 {
            return;
        }
        let (oa, _) = hash.opening.unwrap();
        let (ca, _) = hash.closing.unwrap();
        let open_line = source.offset_to_line_col(oa).0;
        if open_line == source.offset_to_line_col(ca).0 {
            return;
        }
        let n = hash.elements.len();
        let first = hash.elements[0];
        let last = hash.elements[n - 1];
        assert(hash.elements@[0].0 <= source@.len());
        assert(hash.elements@[n - 1].0 <= source@.len() && hash.elements@[n - 1].1 <= source@.len());
        let (first_line, first_col) = source.offset_to_line_col(first.0);
        let last_end = last_line_exec(source, last.1);
        if first_line == last_end {
            return;
        }
        if allow_final && last_end > source.offset_to_line_col(last.0).0 {
            return;
        }
        if first_line == open_line {
            let d = new_diagnostic(
                source,
                "Layout/FirstHashElementLineBreak",
                Severity::Convention,
                first_line,
                first_col,
                "Add a line break before the first element of a multi-line hash.".to_owned(),
            );
            diagnostics.push(d);
            assert(diagnostics@.drop_last() =~= old(diagnostics)@);
        }
    }
}

} // verus!
