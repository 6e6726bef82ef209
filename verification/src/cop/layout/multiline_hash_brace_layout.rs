use crate::cop::config::{spec_get_str, CopConfig};
use crate::cop::report::{edits, push_offense};
use crate::cop::util::{line_indent, spec_line_indent, string_is};
use crate::correction::Correction;
use crate::diagnostic::{reports, Diagnostic, Severity};
use crate::parse::source::{col_of, line_of, SourceFile};
use vstd::prelude::*;

verus! {

/// Layout/MultilineHashBraceLayout: the closing brace of a multi-line hash
/// literal is placed on the line of the last element or on the line after
/// it, as the enforced style says.
pub struct MultilineHashBraceLayout;

/// A hash literal, as far as the cop reads it.
#[derive(Clone, Copy, Debug)]
pub struct HashSite {
    /// The hash is written with `{` and `}`.
    pub braces: bool,
    /// Start of the opening brace.
    pub opening_start: usize,
    /// Start and end of the closing brace.
    pub closing_start: usize,
    pub closing_end: usize,
    /// Number of elements.
    pub element_count: usize,
    /// Start of the first element and end of the last.
    pub first_start: usize,
    pub last_end: usize,
    /// The last element holds a heredoc.
    pub last_has_heredoc: bool,
}

pub open spec fn site_in_bounds(s: Seq<u8>, h: HashSite) -> bool {
    &&& h.opening_start <= s.len()
    &&& h.closing_start <= h.closing_end <= s.len()
    &&& h.first_start <= s.len()
    &&& h.last_end <= h.closing_start
}

/// `n` spaces.
pub open spec fn spaces(n: nat) -> Seq<char> {
    Seq::new(n, |_i: int| ' ')
}

/// The offense of the hash `h` under style `style`: (line, column, message,
/// replaced range start, end, replacement).
pub open spec fn hash_brace_offense(s: Seq<u8>, style: Seq<char>, h: HashSite) -> Option<
    (int, int, Seq<char>, int, int, Seq<char>),
> {
    if !h.braces || h.element_count == 0 || h.last_has_heredoc {
        None
    } else {
        let open_line = line_of(s, h.opening_start as int);
        let close_line = line_of(s, h.closing_start as int);
        let close_col = col_of(s, h.closing_start as int) as int;
        let first_line = line_of(s, h.first_start as int);
        let last_line = line_of(s, if h.last_end > 0 {
            h.last_end - 1
        } else {
            0
        });
        let same_first = open_line == first_line;
        let same_last = close_line == last_line;
        let join = (
            close_line as int,
            close_col,
            h.last_end as int,
            h.closing_end as int,
            "}"@,
        );
        let split = (
            close_line as int,
            close_col,
            h.last_end as int,
            h.closing_start as int,
            "\n"@ + spaces(spec_line_indent(s, h.opening_start as int)),
        );
        let msg = if open_line == close_line {
            None
        } else if style == "symmetrical"@ && same_first && !same_last {
            Some((true, "Closing hash brace must be on the same line as the last hash element when opening brace is on the same line as the first hash element."@))
        } else if style == "symmetrical"@ && !same_first && same_last {
            Some((false, "Closing hash brace must be on the line after the last hash element when opening brace is on a separate line from the first hash element."@))
        } else if style == "new_line"@ && same_last {
            Some((false, "Closing hash brace must be on the line after the last hash element."@))
        } else if style == "same_line"@ && !same_last {
            Some((true, "Closing hash brace must be on the same line as the last hash element."@))
        } else {
            None
        };
        match msg {
            None => None,
            Some((true, m)) => Some((join.0, join.1, m, join.2, join.3, join.4)),
            Some((false, m)) => Some((split.0, split.1, m, split.2, split.3, split.4)),
        }
    }
}

fn spaces_exec(n: usize) -> (r: String)
    ensures
        r@ == "\n"@ + spaces(n as nat),
{
    let mut r = "\n".to_owned();
    let mut i: usize = 0;
    while i < n
        invariant
            i <= n,
            r@ == "\n"@ + spaces(i as nat),
        decreases n - i,
    {
        r.append(" ");
        proof {
            reveal_strlit(" ");
            assert(spaces((i + 1) as nat) =~= spaces(i as nat) + " "@);
            assert("\n"@ + spaces((i + 1) as nat) =~= "\n"@ + spaces(i as nat) + " "@);
        }
        i = i + 1;
    }
    r
}

impl MultilineHashBraceLayout {
    pub fn name(&self) -> (r: &'static str)
        ensures
            r@ == "Layout/MultilineHashBraceLayout"@,
    {
        "Layout/MultilineHashBraceLayout"
    }

    pub fn default_severity(&self) -> (r: Severity)
        ensures
            r == Severity::Convention,
    {
        Severity::Convention
    }

    pub fn supports_autocorrect(&self) -> (r: bool)
        ensures
            r == true,
    {
        true
    }

    /// The offense of the hash `h` of `source` under style `style`, if any.
    pub fn hash_offense(&self, source: &SourceFile, style: &String, h: &HashSite) -> (r: Option<
        (usize, usize, String, usize, usize, String),
    >)
        requires
            site_in_bounds(source@, *h),
        ensures
            match r {
                Some(o) => hash_brace_offense(source@, style@, *h) == Some(
                    (o.0 as int, o.1 as int, o.2@, o.3 as int, o.4 as int, o.5@),
                ),
                None => hash_brace_offense(source@, style@, *h) is None,
            },
    {
        if !h.braces || h.element_count == 0 || h.last_has_heredoc {
            return None;
        }
        let (open_line, _) = source.offset_to_line_col(h.opening_start);
        let (close_line, close_col) = source.offset_to_line_col(h.closing_start);
        let (first_line, _) = source.offset_to_line_col(h.first_start);
        let last_pos = if h.last_end > 0 {
            h.last_end - 1
        } else {
            0
        };
        let (last_line, _) = source.offset_to_line_col(last_pos);
        if open_line == close_line {
            return None;
        }
        let same_first = open_line == first_line;
        let same_last = close_line == last_line;
        let (want_same_line, msg) = if string_is(style, "symmetrical") && same_first && !same_last {
            (true, "Closing hash brace must be on the same line as the last hash element when opening brace is on the same line as the first hash element.")
        } else if string_is(style, "symmetrical") && !same_first && same_last {
            (false, "Closing hash brace must be on the line after the last hash element when opening brace is on a separate line from the first hash element.")
        } else if string_is(style, "new_line") && same_last {
            (false, "Closing hash brace must be on the line after the last hash element.")
        } else if string_is(style, "same_line") && !same_last {
            (true, "Closing hash brace must be on the same line as the last hash element.")
        } else {
            return None;
        };
        if want_same_line {
            Some((close_line, close_col, msg.to_owned(), h.last_end, h.closing_end, "}".to_owned()))
        } else {
            let indent = line_indent(source.as_bytes(), h.opening_start);
            Some((close_line, close_col, msg.to_owned(), h.last_end, h.closing_start, spaces_exec(indent)))
        }
    }

    /// Checks one hash literal under the configured `EnforcedStyle` (default
    /// `symmetrical`): at most one report, at the closing brace, and with
    /// `autocorrect` the brace moved.
    pub fn check_node(
        &self,
        source: &SourceFile,
        config: &CopConfig,
        h: &HashSite,
        diagnostics: &mut Vec<Diagnostic>,
        corrections: &mut Vec<Correction>,
        autocorrect: bool,
    )
        requires
            site_in_bounds(source@, *h),
        ensures
            match hash_brace_offense(
                source@,
                spec_get_str(config.options@, "EnforcedStyle"@, "symmetrical"@),
                *h,
            ) {
                Some(o) => {
                    &&& final(diagnostics)@.len() == old(diagnostics)@.len() + 1
                    &&& final(diagnostics)@.drop_last() == old(diagnostics)@
                    &&& reports(
                        final(diagnostics)@.last(),
                        source.spec_path(),
                        "Layout/MultilineHashBraceLayout"@,
                        Severity::Convention,
                        o.0,
                        o.1,
                        o.2,
                        autocorrect,
                    )
                    &&& autocorrect ==> final(corrections)@.len() == old(corrections)@.len() + 1
                    &&& autocorrect ==> final(corrections)@.drop_last() == old(corrections)@
                    &&& autocorrect ==> edits(
                        final(corrections)@.last(),
                        "Layout/MultilineHashBraceLayout"@,
                        o.3,
                        o.4,
                        o.5,
                    )
                    &&& !autocorrect ==> final(corrections)@ == old(corrections)@
                },
                None => {
                    &&& final(diagnostics)@ == old(diagnostics)@
                    &&& final(corrections)@ == old(corrections)@
                },
            },
    {
        let style = config.get_str("EnforcedStyle", "symmetrical");
        match self.hash_offense(source, &style, h) {
            Some((line, col, msg, start, end, repl)) => {
                push_offense(
                    diagnostics,
                    corrections,
                    autocorrect,
                    source,
                    "Layout/MultilineHashBraceLayout",
                    Severity::Convention,
                    line,
                    col,
                    msg,
                    start,
                    end,
                    repl.as_str(),
                );
            },
            None => {},
        }
    }
}

} // verus!
