use crate::cop::config::{spec_get_bool, CopConfig};
use crate::cop::lint::ensure_return::is_ascii_ws;
use crate::cop::report::adds_report;
use crate::cop::util::line_end_exec;
use crate::diagnostic::{new_diagnostic, Diagnostic, Severity};
use crate::parse::source::{col_of, line_end, line_of, SourceFile};
use vstd::prelude::*;

verus! {

/// Checks for `when` branches without a body.
pub struct EmptyWhen;

/// First position of `[a, b)` that is not ASCII white space, or `b`.
pub open spec fn skip_ascii_ws(s: Seq<u8>, a: int, b: int) -> int
    decreases b - a,
{
    if a >= b {
        b
    } else if is_ascii_ws(s[a]) {
        skip_ascii_ws(s, a + 1, b)
    } else {
        a
    }
}

/// Where the run of blank and comment lines that starts at `pos` ends
/// (`end` when there is none): the end of its last line.
pub open spec fn comment_run_end(s: Seq<u8>, pos: int, end: int) -> int
    decreases s.len() - pos,
{
    if pos < 0 || pos >= s.len() {
        end
    } else {
        let nl = line_end(s, pos);
        let t = skip_ascii_ws(s, pos, nl);
        if t >= nl || s[t] == 35u8 {
            if nl < s.len() && nl >= pos {
                comment_run_end(s, nl + 1, nl)
            } else {
                end
            }
        } else {
            end
        }
    }
}

/// Where the comments that may explain an empty `when` at `w` may start:
/// from `w` to the end of its line and of the blank or comment lines that
/// follow.
pub open spec fn comment_window_end(s: Seq<u8>, w: int) -> int {
    let le = line_end(s, w);
    if le < s.len() {
        comment_run_end(s, le + 1, le)
    } else {
        le
    }
}

/// The offense of a `when` whose keyword starts at `w`: its body is empty
/// and, when comments are allowed, no comment starts in its window.
pub open spec fn empty_when_offense(s: Seq<u8>, w: usize, body_empty: bool, comments: Seq<usize>, allow: bool) -> Option<
    (int, int, Seq<char>),
> {
    if !body_empty {
        None
    } else if allow && exists|k: int|
        0 <= k < comments.len() && w <= #[trigger] comments[k] && comments[k] <= comment_window_end(s, w as int) {
        None
    } else {
        Some((line_of(s, w as int) as int, col_of(s, w as int) as int, "Avoid empty `when` conditions."@))
    }
}

fn is_ascii_ws_exec(c: u8) -> (r: bool)
    ensures
        r == is_ascii_ws(c),
{
    c == 32u8 || c == 9u8 || c == 10u8 || c == 12u8 || c == 13u8
}

fn skip_ascii_ws_exec(bytes: &[u8], a: usize, b: usize) -> (r: usize)
    requires
        a <= b <= bytes@.len(),
    ensures
        r == skip_ascii_ws(bytes@, a as int, b as int),
        a <= r <= b,
{
    let mut k = a;
    while k < b && is_ascii_ws_exec(bytes[k])
        invariant
            a <= k <= b <= bytes@.len(),
            skip_ascii_ws(bytes@, a as int, b as int) == skip_ascii_ws(bytes@, k as int, b as int),
        decreases b - k,
    {
        k = k + 1;
    }
    k
}

fn comment_window_end_exec(bytes: &[u8], w: usize) -> (r: usize)
    requires
        w <= bytes@.len(),
    ensures
        r == comment_window_end(bytes@, w as int),
{
    let n = bytes.len();
    let le = line_end_exec(bytes, w);
    if le >= n {
        return le;
    }
    let mut end = le;
    let mut pos = le + 1;
    while pos < n
        invariant
            pos <= n == bytes@.len(),
            comment_window_end(bytes@, w as int) == comment_run_end(bytes@, pos as int, end as int),
        decreases n - pos,
    {
        let nl = line_end_exec(bytes, pos);
        let t = skip_ascii_ws_exec(bytes, pos, nl);
        if t >= nl || bytes[t] == 35u8 {
            if nl < n {
                end = nl;
                pos = nl + 1;
            } else {
                return end;
            }
        } else {
            return end;
        }
    }
    end
}

impl EmptyWhen {
    pub fn name(&self) -> (r: &'static str)
        ensures
            r@ == "Lint/EmptyWhen"@,
    {
        "Lint/EmptyWhen"
    }

    pub fn default_severity(&self) -> (r: Severity)
        ensures
            r == Severity::Warning,
    {
        Severity::Warning
    }

    /// Checks one `when` whose keyword starts at `keyword_start`; `comments`
    /// are where the comments of the file start. Option `AllowComments`
    /// (default on).
    pub fn check_when(
        &self,
        source: &SourceFile,
        keyword_start: usize,
        body_empty: bool,
        comments: &Vec<usize>,
        config: &CopConfig,
        diagnostics: &mut Vec<Diagnostic>,
    )
        requires
            keyword_start <= source@.len(),
        ensures
            adds_report(
                old(diagnostics)@,
                final(diagnostics)@,
                source.spec_path(),
                "Lint/EmptyWhen"@,
                Severity::Warning,
                empty_when_offense(
                    source@,
                    keyword_start,
                    body_empty,
                    comments@,
                    spec_get_bool(config.options@, "AllowComments"@, true),
                ),
            ),
    {
        if !body_empty {
            return;
        }
        let allow = config.get_bool("AllowComments", true);
        if allow {
            let end = comment_window_end_exec(source.as_bytes(), keyword_start);
            let mut k: usize = 0;
            let mut explained = false;
            while k < comments.len() && !explained
                invariant
                    k <= comments@.len(),
                    end == comment_window_end(source@, keyword_start as int),
                    !explained ==> forall|j: int| 0 <= j < k ==> !(keyword_start <= #[trigger] comments@[j] && comments@[j] <= end),
                    explained ==> exists|j: int| 0 <= j < comments@.len() && keyword_start <= #[trigger] comments@[j] && comments@[j] <= end,
                decreases comments@.len() - k + (if explained { 0int } else { 1int }),
            {
                let c = comments[k];
                if keyword_start <= c && c <= end {
                    assert(keyword_start <= comments@[k as int] && comments@[k as int] <= end);
                    explained = true;
                } else {
                    k = k + 1;
                }
            }
            if explained {
                return;
            }
        }
        let (line, col) = source.offset_to_line_col(keyword_start);
        let d = new_diagnostic(
            source,
            "Lint/EmptyWhen",
            Severity::Warning,
            line,
            col,
            "Avoid empty `when` conditions.".to_owned(),
        );
        diagnostics.push(d);
        assert(diagnostics@.drop_last() =~= old(diagnostics)@);
    }
}

} // verus!
