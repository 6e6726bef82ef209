use crate::cop::node::ConstantReceiver;
use crate::cop::report::{adds_offenses, emit_offense, lemma_offenses_empty, lemma_offenses_push};
use crate::cop::util::{slice_text, slice_text_exec, string_is};
use crate::correction::Correction;
use crate::diagnostic::{Diagnostic, Severity};
use crate::parse::source::{col_of, line_of, SourceFile};
use vstd::prelude::*;

verus! {

/// Checks for deprecated `ERB.new` with positional arguments beyond the first. Since Ruby 2.6,
/// non-keyword arguments other than the first one are deprecated.
pub struct ErbNewArguments;

/// An argument of a call: where it lies, whether it is a hash (with or
/// without braces), and whether it is keyword arguments (a hash without braces).
pub struct ErbArg {
    pub start: usize,
    pub end: usize,
    pub is_hash: bool,
    pub is_keyword_hash: bool,
}

/// A call, as far as the cop reads it: its arguments when it has any.
pub struct ErbCall {
    pub name: String,
    pub receiver: Option<ConstantReceiver>,
    pub args: Option<Vec<ErbArg>>,
}

/// The receiver is a constant whose last name is `ERB`.
pub open spec fn is_erb_constant(r: Option<ConstantReceiver>) -> bool {
    match r {
        Some(ConstantReceiver::Read(n)) => n@ == "ERB"@,
        Some(ConstantReceiver::Path { name: Some(n), .. }) => n@ == "ERB"@,
        _ => false,
    }
}

/// `ERB.new` with a positional argument after the first.
pub open spec fn is_deprecated_call(c: ErbCall) -> bool {
    &&& c.name@ == "new"@
    &&& is_erb_constant(c.receiver)
    &&& c.args is Some
    &&& c.args->0@.len() > 1
    &&& !(c.args->0@.len() == 2 && c.args->0@[1].is_keyword_hash)
}

pub open spec fn arg_text(s: Seq<u8>, a: ErbArg, default: Seq<char>) -> Seq<char> {
    slice_text(s, a.start as int, a.end as int, default)
}

/// The arguments rewritten: the first, then the third and fourth as
/// `trim_mode:` and `eoutvar:` keyword arguments unless they are hashes; the
/// second is dropped.
pub open spec fn arguments_replacement(s: Seq<u8>, args: Seq<ErbArg>) -> Seq<char> {
    arg_text(s, args[0], ""@) + (if args.len() > 2 && !args[2].is_hash {
        ", trim_mode: "@ + arg_text(s, args[2], ""@)
    } else {
        Seq::empty()
    }) + (if args.len() > 3 && !args[3].is_hash {
        ", eoutvar: "@ + arg_text(s, args[3], ""@)
    } else {
        Seq::empty()
    })
}

/// The edit that rewrites all the arguments.
pub open spec fn arguments_edit(s: Seq<u8>, args: Seq<ErbArg>) -> (int, int, Seq<char>) {
    (args[0].start as int, args.last().end as int, arguments_replacement(s, args))
}

/// The message about the argument at position `i` (1, 2 or 3).
pub open spec fn argument_message(s: Seq<u8>, a: ErbArg, i: int) -> Seq<char> {
    if i == 1 {
        "Passing safe_level with the 2nd argument of `ERB.new` is deprecated. Do not use it, and specify other arguments as keyword arguments."@
    } else if i == 2 {
        "Passing trim_mode with the 3rd argument of `ERB.new` is deprecated. Use keyword argument like `ERB.new(str, trim_mode: "@
            + arg_text(s, a, "..."@) + ")` instead."@
    } else {
        "Passing eoutvar with the 4th argument of `ERB.new` is deprecated. Use keyword argument like `ERB.new(str, eoutvar: "@
            + arg_text(s, a, "..."@) + ")` instead."@
    }
}

/// The offenses of the positional arguments at positions `1..k` (at most
/// 3) that are not hashes, each with the edit of all the arguments.
pub open spec fn argument_offenses(s: Seq<u8>, args: Seq<ErbArg>, k: int) -> Seq<
    (int, int, Seq<char>, Option<(int, int, Seq<char>)>),
>
    decreases k,
{
    if k <= 1 {
        Seq::empty()
    } else {
        let r = argument_offenses(s, args, k - 1);
        let a = args[k - 1];
        if a.is_hash {
            r
        } else {
            r.push(
                (
                    line_of(s, a.start as int) as int,
                    col_of(s, a.start as int) as int,
                    argument_message(s, a, k - 1),
                    Some(arguments_edit(s, args)),
                ),
            )
        }
    }
}

/// The offenses of a call.
pub open spec fn erb_offenses(s: Seq<u8>, c: ErbCall) -> Seq<(int, int, Seq<char>, Option<(int, int, Seq<char>)>)> {
    if is_deprecated_call(c) {
        let args = c.args->0@;
        argument_offenses(s, args, if args.len() < 4 { args.len() as int } else { 4 })
    } else {
        Seq::empty()
    }
}

pub open spec fn erb_args_in_bounds(s: Seq<u8>, c: ErbCall) -> bool {
    c.args matches Some(a) ==> forall|k: int|
        0 <= k < a@.len() ==> #[trigger] a@[k].start <= a@[k].end && a@[k].end <= s.len()
}

fn is_erb_constant_exec(r: &Option<ConstantReceiver>) -> (b: bool)
    ensures
        b == is_erb_constant(*r),
{
    match r {
        Some(ConstantReceiver::Read(n)) => string_is(n, "ERB"),
        Some(ConstantReceiver::Path { name: Some(n), .. }) => string_is(n, "ERB"),
        _ => false,
    }
}

impl ErbNewArguments {
    pub fn name(&self) -> (r: &'static str)
        ensures
            r@ == "Lint/ErbNewArguments"@,
    {
        "Lint/ErbNewArguments"
    }

    pub fn default_severity(&self) -> (r: Severity)
        ensures
            r == Severity::Warning,
    {
        Severity::Warning
    }

    pub fn supports_autocorrect(&self) -> (r: bool)
        ensures
            r == true,
    {
        true
    }

    /// Checks one call.
    pub fn check_call(
        &self,
        source: &SourceFile,
        call: &ErbCall,
        diagnostics: &mut Vec<Diagnostic>,
        corrections: &mut Vec<Correction>,
        autocorrect: bool,
    )
        requires
            erb_args_in_bounds(source@, *call),
        ensures
            adds_offenses(
                old(diagnostics)@,
                final(diagnostics)@,
                old(corrections)@,
                final(corrections)@,
                source.spec_path(),
                "Lint/ErbNewArguments"@,
                Severity::Warning,
                erb_offenses(source@, *call),
                autocorrect,
            ),
    {
        proof {
            lemma_offenses_empty(
                diagnostics@,
                corrections@,
                source.spec_path(),
                "Lint/ErbNewArguments"@,
                Severity::Warning,
                autocorrect,
            );
        }
        if !string_is(&call.name, "new") || !is_erb_constant_exec(&call.receiver) {
            return;
        }
        let args = match &call.args {
            Some(a) => a,
            None => {
                return;
            },
        };
        let n = args.len();
        if n <= 1 || (n == 2 && args[1].is_keyword_hash) {
            return;
        }
        let bytes = source.as_bytes();
        let ghost s = source@;
        let ghost av = args@;
        assert(call.args == Some(*args));
        assert(forall|k: int| 0 <= k < av.len() ==> #[trigger] av[k].start <= av[k].end && av[k].end <= s.len());
        assert(av[0].start <= av[0].end <= s.len());
        assert(av[n - 1].start <= av[n - 1].end <= s.len());
        let mut replacement = slice_text_exec(bytes, args[0].start, args[0].end, "");
        let ghost p0 = replacement@;
        let ghost p2 = if av.len() > 2 && !av[2].is_hash {
            ", trim_mode: "@ + arg_text(s, av[2], ""@)
        } else {
            Seq::<char>::empty()
        };
        let ghost p3 = if av.len() > 3 && !av[3].is_hash {
            ", eoutvar: "@ + arg_text(s, av[3], ""@)
        } else {
            Seq::<char>::empty()
        };
        if n > 2 && !args[2].is_hash {
            assert(av[2].start <= av[2].end <= s.len());
            replacement.append(", trim_mode: ");
            let t = slice_text_exec(bytes, args[2].start, args[2].end, "");
            replacement.append(t.as_str());
            assert(replacement@ =~= p0 + p2);
        } else {
            assert(replacement@ =~= p0 + p2);
        }
        let ghost p02 = replacement@;
        if n > 3 && !args[3].is_hash {
            assert(av[3].start <= av[3].end <= s.len());
            replacement.append(", eoutvar: ");
            let t = slice_text_exec(bytes, args[3].start, args[3].end, "");
            replacement.append(t.as_str());
            assert(replacement@ =~= p02 + p3);
        } else {
            assert(replacement@ =~= p02 + p3);
        }
        assert(replacement@ == arguments_replacement(s, av));
        let edit_start = args[0].start;
        let edit_end = args[n - 1].end;
        let limit = if n < 4 {
            n
        } else {
            4
        };
        let mut i: usize = 1;
        while i < limit
            invariant
                1 <= i <= limit <= n == av.len(),
                limit == (if av.len() < 4 { av.len() as int } else { 4 }),
                av == args@,
                s == source@,
                s == bytes@,
                call.args == Some(*args),
                is_deprecated_call(*call),
                erb_args_in_bounds(s, *call),
                replacement@ == arguments_replacement(s, av),
                edit_start == av[0].start,
                edit_end == av.last().end,
                adds_offenses(
                    old(diagnostics)@,
                    diagnostics@,
                    old(corrections)@,
                    corrections@,
                    source.spec_path(),
                    "Lint/ErbNewArguments"@,
                    Severity::Warning,
                    argument_offenses(s, av, i as int),
                    autocorrect,
                ),
            decreases limit - i,
        {
            let a = &args[i];
            if !a.is_hash {
                assert(av[i as int].start <= av[i as int].end <= s.len());
                let msg = if i == 1 {
                    "Passing safe_level with the 2nd argument of `ERB.new` is deprecated. Do not use it, and specify other arguments as keyword arguments.".to_owned()
                } else if i == 2 {
                    let mut m = "Passing trim_mode with the 3rd argument of `ERB.new` is deprecated. Use keyword argument like `ERB.new(str, trim_mode: ".to_owned();
                    let t = slice_text_exec(bytes, a.start, a.end, "...");
                    m.append(t.as_str());
                    m.append(")` instead.");
                    m
                } else {
                    let mut m = "Passing eoutvar with the 4th argument of `ERB.new` is deprecated. Use keyword argument like `ERB.new(str, eoutvar: ".to_owned();
                    let t = slice_text_exec(bytes, a.start, a.end, "...");
                    m.append(t.as_str());
                    m.append(")` instead.");
                    m
                };
                assert(msg@ == argument_message(s, av[i as int], i as int));
                let (line, col) = source.offset_to_line_col(a.start);
                let ghost mid_d = diagnostics@;
                let ghost mid_c = corrections@;
                emit_offense(
                    diagnostics,
                    corrections,
                    autocorrect,
                    source,
                    "Lint/ErbNewArguments",
                    Severity::Warning,
                    line,
                    col,
                    msg,
                    Some((edit_start, edit_end, replacement.clone())),
                );
                proof {
                    lemma_offenses_push(
                        old(diagnostics)@,
                        mid_d,
                        diagnostics@,
                        old(corrections)@,
                        mid_c,
                        corrections@,
                        source.spec_path(),
                        "Lint/ErbNewArguments"@,
                        Severity::Warning,
                        argument_offenses(s, av, i as int),
                        (
                            line as int,
                            col as int,
                            argument_message(s, av[i as int], i as int),
                            Some(arguments_edit(s, av)),
                        ),
                        autocorrect,
                    );
                }
            }
            i = i + 1;
        }
    }
}

} // verus!
