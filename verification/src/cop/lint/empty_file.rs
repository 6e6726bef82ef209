use crate::cop::config::{spec_get_bool, CopConfig};
use crate::cop::report::{edits, push_offense};
use crate::cop::util::is_trailing_space;
use crate::correction::Correction;
use crate::diagnostic::{reports, Diagnostic, Severity};
use crate::parse::source::{lemma_line_end_bounds, line_end, SourceFile};
use vstd::prelude::*;

verus! {

/// Lint/EmptyFile: a file without code (with `AllowComments` off, comments
/// do not count as code).
pub struct EmptyFile;

/// First position of `[a, b)` that is not a space, tab or carriage return.
pub open spec fn skip_blank_cr(s: Seq<u8>, a: int, b: int) -> int
    decreases b - a,
{
    if a < b && is_trailing_space(s[a], false) {
        skip_blank_cr(s, a + 1, b)
    } else {
        a
    }
}

/// Some line from the one that starts at `p` on holds code: something other
/// than blanks that does not start with `#`.
pub open spec fn has_code_from(s: Seq<u8>, p: int) -> bool
    decreases s.len() - p,
{
    if p < 0 || p > s.len() {
        false
    } else {
        let e = line_end(s, p);
        let t = skip_blank_cr(s, p, e);
        (t < e && s[t] != 35u8) || (p <= e < s.len() && has_code_from(s, e + 1))
    }
}

/// The offense of a file: the text to insert and where.
pub open spec fn empty_file_offense(s: Seq<u8>, allow_comments: bool) -> Option<(Seq<char>, int)> {
    if s.len() == 0 {
        Some(("nil\n"@, 0))
    } else if !allow_comments && !has_code_from(s, 0) {
        Some(
            (
                if s.last() == 10u8 {
                    "nil\n"@
                } else {
                    "\nnil\n"@
                },
                s.len() as int,
            ),
        )
    } else {
        None
    }
}

fn has_code_exec(bytes: &[u8]) -> (r: bool)
    ensures
        r == has_code_from(bytes@, 0),
{
    let n = bytes.len();
    let mut p: usize = 0;
    loop
        invariant
            p <= n == bytes@.len(),
            has_code_from(bytes@, 0) == has_code_from(bytes@, p as int),
        decreases n - p,
    {
        let e = crate::cop::util::line_end_exec(bytes, p);
        let mut t = p;
        while t < e && (bytes[t] == 32u8 || bytes[t] == 9u8 || bytes[t] == 13u8)
            invariant
                p <= t <= e <= n == bytes@.len(),
                skip_blank_cr(bytes@, p as int, e as int) == skip_blank_cr(bytes@, t as int, e as int),
            decreases e - t,
        {
            t = t + 1;
        }
        if t < e && bytes[t] != 35u8 {
            return true;
        }
        if e >= n {
            return false;
        }
        p = e + 1;
    }
}

impl EmptyFile {
    pub fn name(&self) -> (r: &'static str)
        ensures
            r@ == "Lint/EmptyFile"@,
    {
        "Lint/EmptyFile"
    }

    pub fn default_severity(&self) -> (r: Severity)
        ensures
            r == Severity::Warning,
    {
        Severity::Warning
    }

    pub fn supports_autocorrect(&self) -> (r: bool)
        ensures
            r == true,
    {
        true
    }

    /// Checks a whole file under `AllowComments` (default true): one report
    /// at line 1, column 0, and with `autocorrect` `nil` inserted.
    pub fn check_lines(
        &self,
        source: &SourceFile,
        config: &CopConfig,
        diagnostics: &mut Vec<Diagnostic>,
        corrections: &mut Vec<Correction>,
        autocorrect: bool,
    )
        ensures
            match empty_file_offense(source@, spec_get_bool(config.options@, "AllowComments"@, true)) {
                Some((repl, at)) => {
                    &&& final(diagnostics)@.len() == old(diagnostics)@.len() + 1
                    &&& final(diagnostics)@.drop_last() == old(diagnostics)@
                    &&& reports(
                        final(diagnostics)@.last(),
                        source.spec_path(),
                        "Lint/EmptyFile"@,
                        Severity::Warning,
                        1,
                        0,
                        "Empty file detected."@,
                        autocorrect,
                    )
                    &&& autocorrect ==> final(corrections)@.len() == old(corrections)@.len() + 1
                    &&& autocorrect ==> final(corrections)@.drop_last() == old(corrections)@
                    &&& autocorrect ==> edits(final(corrections)@.last(), "Lint/EmptyFile"@, at, at, repl)
                    &&& !autocorrect ==> final(corrections)@ == old(corrections)@
                },
                None => {
                    &&& final(diagnostics)@ == old(diagnostics)@
                    &&& final(corrections)@ == old(corrections)@
                },
            },
    {
        let bytes = source.as_bytes();
        let n = bytes.len();
        if n == 0 {
            push_offense(
                diagnostics,
                corrections,
                autocorrect,
                source,
                "Lint/EmptyFile",
                Severity::Warning,
                1,
                0,
                "Empty file detected.".to_owned(),
                0,
                0,
                "nil\n",
            );
            return;
        }
        let allow_comments = config.get_bool("AllowComments", true);
        if !allow_comments && !has_code_exec(bytes) {
            let repl = if bytes[n - 1] == 10u8 {
                "nil\n"
            } else {
                "\nnil\n"
            };
            push_offense(
                diagnostics,
                corrections,
                autocorrect,
                source,
                "Lint/EmptyFile",
                Severity::Warning,
                1,
                0,
                "Empty file detected.".to_owned(),
                n,
                n,
                repl,
            );
        }
    }
}

} // verus!
