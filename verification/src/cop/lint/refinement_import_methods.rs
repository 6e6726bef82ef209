use crate::cop::config::{spec_get_version, version_at_least, CopConfig};
use crate::cop::report::{extends_with_reports, lemma_reports_empty, lemma_reports_push};
use crate::cop::util::string_is;
use crate::diagnostic::{new_diagnostic, Diagnostic, Severity};
use crate::parse::source::{col_of, line_of, SourceFile};
use vstd::prelude::*;

verus! {

/// Checks if `include` or `prepend` is called in a `refine` block. These methods are
/// deprecated and should be replaced with `import_methods`.
pub struct RefinementImportMethods;

/// A call made as a statement of a block body.
pub struct BodyCall {
    pub name: String,
    pub has_receiver: bool,
    /// Where its method name starts (where the call starts when it has none).
    pub message_start: usize,
}

/// A method call, with the statements of its block body when it has a block
/// (not a block argument) whose body is a list of statements: each a call,
/// or `None` for any other statement.
pub struct RefineCall {
    pub name: String,
    pub has_receiver: bool,
    pub body: Option<Vec<Option<BodyCall>>>,
}

/// The target Ruby version: option `TargetRubyVersion`, 2.7 by default.
pub open spec fn target_version(config: CopConfig) -> (u64, u64) {
    spec_get_version(config.options@, "TargetRubyVersion"@, (2, 7))
}

/// The offense of one statement of a `refine` block: a receiverless
/// `include` or `prepend`.
pub open spec fn statement_offense(s: Seq<u8>, st: Option<BodyCall>) -> Option<(int, int, Seq<char>)> {
    match st {
        Some(c) => if (c.name@ == "include"@ || c.name@ == "prepend"@) && !c.has_receiver {
            Some(
                (
                    line_of(s, c.message_start as int) as int,
                    col_of(s, c.message_start as int) as int,
                    "Use `import_methods` instead of `"@ + c.name@
                        + "` because it is deprecated in Ruby 3.1."@,
                ),
            )
        } else {
            None
        },
        None => None,
    }
}

/// The offenses of the statements, in order.
pub open spec fn statement_offenses(s: Seq<u8>, sts: Seq<Option<BodyCall>>) -> Seq<(int, int, Seq<char>)>
    decreases sts.len(),
{
    if sts.len() == 0 {
        Seq::empty()
    } else {
        let r = statement_offenses(s, sts.drop_last());
        match statement_offense(s, sts.last()) {
            Some(o) => r.push(o),
            None => r,
        }
    }
}

/// The offenses of a call: those of the statements of the block of a
/// receiverless `refine`, when the target Ruby version is 3.1 or later.
pub open spec fn refine_offenses(s: Seq<u8>, c: RefineCall, v: (u64, u64)) -> Seq<(int, int, Seq<char>)> {
    if !version_at_least(v, (3, 1)) || c.name@ != "refine"@ || c.has_receiver {
        Seq::empty()
    } else {
        match c.body {
            Some(b) => statement_offenses(s, b@),
            None => Seq::empty(),
        }
    }
}

pub open spec fn statements_in_bounds(s: Seq<u8>, c: RefineCall) -> bool {
    c.body matches Some(b) ==> forall|k: int|
        0 <= k < b@.len() ==> (#[trigger] b@[k] matches Some(x) ==> x.message_start <= s.len())
}

impl RefinementImportMethods {
    pub fn name(&self) -> (r: &'static str)
        ensures
            r@ == "Lint/RefinementImportMethods"@,
    {
        "Lint/RefinementImportMethods"
    }

    pub fn default_severity(&self) -> (r: Severity)
        ensures
            r == Severity::Warning,
    {
        Severity::Warning
    }

    pub fn default_enabled(&self) -> (r: bool)
        ensures
            r == false,
    {
        false
    }

    /// Checks one call. Option `TargetRubyVersion`.
    pub fn check_call(
        &self,
        source: &SourceFile,
        call: &RefineCall,
        config: &CopConfig,
        diagnostics: &mut Vec<Diagnostic>,
    )
        requires
            statements_in_bounds(source@, *call),
        ensures
            extends_with_reports(
                old(diagnostics)@,
                final(diagnostics)@,
                source.spec_path(),
                "Lint/RefinementImportMethods"@,
                Severity::Warning,
                refine_offenses(source@, *call, target_version(*config)),
                false,
            ),
    {
        proof {
            lemma_reports_empty(
                diagnostics@,
                source.spec_path(),
                "Lint/RefinementImportMethods"@,
                Severity::Warning,
                false,
            );
        }
        let v = config.get_version("TargetRubyVersion", (2, 7));
        if !(v.0 > 3 || (v.0 == 3 && v.1 >= 1)) || !string_is(&call.name, "refine") || call.has_receiver {
            return;
        }
        let body = match &call.body {
            Some(b) => b,
            None => {
                return;
            },
        };
        let mut k: usize = 0;
        while k < body.len()
            invariant
                k <= body@.len(),
                call.body == Some(*body),
                statements_in_bounds(source@, *call),
                extends_with_reports(
                    old(diagnostics)@,
                    diagnostics@,
                    source.spec_path(),
                    "Lint/RefinementImportMethods"@,
                    Severity::Warning,
                    statement_offenses(source@, body@.subrange(0, k as int)),
                    false,
                ),
            decreases body@.len() - k,
        {
            assert(body@.subrange(0, k + 1).drop_last() =~= body@.subrange(0, k as int));
            match &body[k] {
                Some(c) => {
                    if (string_is(&c.name, "include") || string_is(&c.name, "prepend")) && !c.has_receiver {
                        assert(body@[k as int] matches Some(x) ==> x.message_start <= source@.len());
                        let (line, col) = source.offset_to_line_col(c.message_start);
                        let mut msg = "Use `import_methods` instead of `".to_owned();
                        msg.append(c.name.as_str());
                        msg.append("` because it is deprecated in Ruby 3.1.");
                        let ghost m = msg@;
                        let d = new_diagnostic(
                            source,
                            "Lint/RefinementImportMethods",
                            Severity::Warning,
                            line,
                            col,
                            msg,
                        );
                        let ghost before = diagnostics@;
                        diagnostics.push(d);
                        proof {
                            assert(diagnostics@.drop_last() =~= before);
                            lemma_reports_push(
                                old(diagnostics)@,
                                before,
                                diagnostics@,
                                source.spec_path(),
                                "Lint/RefinementImportMethods"@,
                                Severity::Warning,
                                statement_offenses(source@, body@.subrange(0, k as int)),
                                (line as int, col as int, m),
                                false,
                            );
                        }
                    }
                },
                None => {},
            }
            k = k + 1;
        }
        assert(body@.subrange(0, body@.len() as int) =~= body@);
    }
}

} // verus!
