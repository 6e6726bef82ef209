use crate::cop::config::{spec_get_version, version_at_least, CopConfig};
use crate::cop::node::{is_top_constant, is_top_constant_exec, ConstantReceiver};
use crate::cop::report::{extends_with_reports, lemma_reports_empty, lemma_reports_push};
use crate::cop::util::{range_eq, string_is};
use crate::diagnostic::{new_diagnostic, Diagnostic, Severity};
use crate::parse::source::{col_of, line_of, SourceFile};
use vstd::prelude::*;

verus! {

/// Checks for unnecessary `require` statements: features that the target
/// Ruby version loads by default.
pub struct RedundantRequireStatement;

/// A call that may require a feature.
pub struct RequireCall {
    /// Where the call starts.
    pub start: usize,
    pub name: String,
    pub has_receiver: bool,
    /// Each argument: the unescaped text of a string literal, or `None` for
    /// any other argument.
    pub args: Vec<Option<Vec<u8>>>,
}

/// A call, as far as deciding whether the file uses `pp` reads it.
pub struct PpUse {
    pub name: String,
    pub receiver: ConstantReceiver,
}

/// The Ruby version since which `require` of the feature is redundant
/// (`enumerator` always is).
pub open spec fn redundant_since(f: Seq<u8>) -> Option<(u64, u64)> {
    if f == seq![101u8, 110u8, 117u8, 109u8, 101u8, 114u8, 97u8, 116u8, 111u8, 114u8] {
        Some((0, 0))
    } else if f == seq![116u8, 104u8, 114u8, 101u8, 97u8, 100u8] {
        Some((2, 1))
    } else if f == seq![114u8, 97u8, 116u8, 105u8, 111u8, 110u8, 97u8, 108u8] {
        Some((2, 2))
    } else if f == seq![99u8, 111u8, 109u8, 112u8, 108u8, 101u8, 120u8] {
        Some((2, 2))
    } else if f == seq![112u8, 112u8] {
        Some((2, 5))
    } else if f == seq![114u8, 117u8, 98u8, 121u8, 50u8, 95u8, 107u8, 101u8, 121u8, 119u8, 111u8, 114u8, 100u8, 115u8] {
        Some((2, 7))
    } else if f == seq![102u8, 105u8, 98u8, 101u8, 114u8] {
        Some((3, 1))
    } else if f == seq![115u8, 101u8, 116u8] {
        Some((3, 2))
    } else {
        None
    }
}

/// The feature is loaded by default in Ruby version `v`.
pub open spec fn is_redundant_feature(f: Seq<u8>, v: (u64, u64)) -> bool {
    match redundant_since(f) {
        Some(m) => version_at_least(v, m),
        None => false,
    }
}

/// The target Ruby version: option `TargetRubyVersion`, 2.7 by default.
pub open spec fn target_ruby_version(config: CopConfig) -> (u64, u64) {
    spec_get_version(config.options@, "TargetRubyVersion"@, (2, 7))
}

/// Methods whose use shows that the file needs `require 'pp'`.
pub open spec fn is_pretty_print_method(n: Seq<char>) -> bool {
    n == "pretty_inspect"@ || n == "pretty_print"@ || n == "pretty_print_cycle"@ || n == "pretty_print_inspect"@
        || n == "pretty_print_instance_variables"@
}

/// The file calls a pretty-print method or a method of `PP` (or `::PP`).
pub open spec fn uses_pp(calls: Seq<PpUse>) -> bool {
    exists|k: int|
        0 <= k < calls.len() && (is_pretty_print_method(#[trigger] calls[k].name@) || is_top_constant(
            calls[k].receiver,
            "PP"@,
        ))
}

/// The offense of one call: a receiverless `require` of one string that
/// names a redundant feature (`pp` only when the file does not use it).
pub open spec fn require_offense(s: Seq<u8>, c: RequireCall, v: (u64, u64), needs_pp: bool) -> Option<
    (int, int, Seq<char>),
> {
    if c.name@ == "require"@ && !c.has_receiver && c.args@.len() == 1 && c.args@[0] is Some
        && is_redundant_feature(c.args@[0]->0@, v) && !(c.args@[0]->0@ == seq![112u8, 112u8]
        && needs_pp) {
        Some(
            (
                line_of(s, c.start as int) as int,
                col_of(s, c.start as int) as int,
                "Remove unnecessary `require` statement."@,
            ),
        )
    } else {
        None
    }
}

/// The offenses of the calls, in order.
pub open spec fn require_offenses(s: Seq<u8>, calls: Seq<RequireCall>, v: (u64, u64), needs_pp: bool) -> Seq<
    (int, int, Seq<char>),
>
    decreases calls.len(),
{
    if calls.len() == 0 {
        Seq::empty()
    } else {
        let r = require_offenses(s, calls.drop_last(), v, needs_pp);
        match require_offense(s, calls.last(), v, needs_pp) {
            Some(o) => r.push(o),
            None => r,
        }
    }
}

fn bytes_are(v: &Vec<u8>, t: &[u8]) -> (r: bool)
    ensures
        r == (v@ == t@),
{
    let r = range_eq(v.as_slice(), 0, v.len(), t);
    assert(v@.subrange(0, v@.len() as int) =~= v@);
    r
}

fn redundant_since_exec(f: &Vec<u8>) -> (r: Option<(u64, u64)>)
    ensures
        r == redundant_since(f@),
{
    let w0: Vec<u8> = vec![101u8, 110u8, 117u8, 109u8, 101u8, 114u8, 97u8, 116u8, 111u8, 114u8];
    assert(w0@ =~= seq![101u8, 110u8, 117u8, 109u8, 101u8, 114u8, 97u8, 116u8, 111u8, 114u8]);
    let w1: Vec<u8> = vec![116u8, 104u8, 114u8, 101u8, 97u8, 100u8];
    assert(w1@ =~= seq![116u8, 104u8, 114u8, 101u8, 97u8, 100u8]);
    let w2: Vec<u8> = vec![114u8, 97u8, 116u8, 105u8, 111u8, 110u8, 97u8, 108u8];
    assert(w2@ =~= seq![114u8, 97u8, 116u8, 105u8, 111u8, 110u8, 97u8, 108u8]);
    let w3: Vec<u8> = vec![99u8, 111u8, 109u8, 112u8, 108u8, 101u8, 120u8];
    assert(w3@ =~= seq![99u8, 111u8, 109u8, 112u8, 108u8, 101u8, 120u8]);
    let w4: Vec<u8> = vec![112u8, 112u8];
    assert(w4@ =~= seq![112u8, 112u8]);
    let w5: Vec<u8> = vec![114u8, 117u8, 98u8, 121u8, 50u8, 95u8, 107u8, 101u8, 121u8, 119u8, 111u8, 114u8, 100u8, 115u8];
    assert(w5@ =~= seq![114u8, 117u8, 98u8, 121u8, 50u8, 95u8, 107u8, 101u8, 121u8, 119u8, 111u8, 114u8, 100u8, 115u8]);
    let w6: Vec<u8> = vec![102u8, 105u8, 98u8, 101u8, 114u8];
    assert(w6@ =~= seq![102u8, 105u8, 98u8, 101u8, 114u8]);
    let w7: Vec<u8> = vec![115u8, 101u8, 116u8];
    assert(w7@ =~= seq![115u8, 101u8, 116u8]);
    if bytes_are(f, w0.as_slice()) {
        Some((0, 0))
    } else if bytes_are(f, w1.as_slice()) {
        Some((2, 1))
    } else if bytes_are(f, w2.as_slice()) {
        Some((2, 2))
    } else if bytes_are(f, w3.as_slice()) {
        Some((2, 2))
    } else if bytes_are(f, w4.as_slice()) {
        Some((2, 5))
    } else if bytes_are(f, w5.as_slice()) {
        Some((2, 7))
    } else if bytes_are(f, w6.as_slice()) {
        Some((3, 1))
    } else if bytes_are(f, w7.as_slice()) {
        Some((3, 2))
    } else {
        None
    }
}

fn is_pretty_print_method_exec(n: &String) -> (r: bool)
    ensures
        r == is_pretty_print_method(n@),
{
    string_is(n, "pretty_inspect") || string_is(n, "pretty_print") || string_is(n, "pretty_print_cycle")
        || string_is(n, "pretty_print_inspect") || string_is(n, "pretty_print_instance_variables")
}

/// Whether the file uses `pp`: it calls a pretty-print method or a method of `PP`.
pub fn uses_pp_exec(calls: &Vec<PpUse>) -> (r: bool)
    ensures
        r == uses_pp(calls@),
{
    let mut k: usize = 0;
    while k < calls.len()
        invariant
            k <= calls@.len(),
            forall|j: int|
                0 <= j < k ==> !(is_pretty_print_method(#[trigger] calls@[j].name@) || is_top_constant(
                    calls@[j].receiver,
                    "PP"@,
                )),
        decreases calls@.len() - k,
    {
        if is_pretty_print_method_exec(&calls[k].name) || is_top_constant_exec(&calls[k].receiver, "PP") {
            return true;
        }
        let ghost k0 = k as int;
        assert(!(is_pretty_print_method(calls@[k0].name@) || is_top_constant(calls@[k0].receiver, "PP"@)));
        k = k + 1;
        assert forall|j: int| 0 <= j < k implies !(is_pretty_print_method(#[trigger] calls@[j].name@) || is_top_constant(
                    calls@[j].receiver,
                    "PP"@,
                )) by {
            if j < k0 {
            } else {
                assert(j == k0);
            }
        }
    }
    false
}

impl RedundantRequireStatement {
    pub fn name(&self) -> (r: &'static str)
        ensures
            r@ == "Lint/RedundantRequireStatement"@,
    {
        "Lint/RedundantRequireStatement"
    }

    pub fn default_severity(&self) -> (r: Severity)
        ensures
            r == Severity::Warning,
    {
        Severity::Warning
    }

    /// Whether `require` of the feature is redundant in Ruby version `v`.
    pub fn is_redundant_feature(&self, feature: &Vec<u8>, v: (u64, u64)) -> (r: bool)
        ensures
            r == is_redundant_feature(feature@, v),
    {
        match redundant_since_exec(feature) {
            Some(m) => v.0 > m.0 || (v.0 == m.0 && v.1 >= m.1),
            None => false,
        }
    }

    /// Checks the calls of a file, in order; `pp_uses` are its calls as far
    /// as deciding whether it uses `pp` reads them. Option `TargetRubyVersion`.
    pub fn check_source(
        &self,
        source: &SourceFile,
        calls: &Vec<RequireCall>,
        pp_uses: &Vec<PpUse>,
        config: &CopConfig,
        diagnostics: &mut Vec<Diagnostic>,
    )
        requires
            forall|k: int| 0 <= k < calls@.len() ==> #[trigger] calls@[k].start <= source@.len(),
        ensures
            extends_with_reports(
                old(diagnostics)@,
                final(diagnostics)@,
                source.spec_path(),
                "Lint/RedundantRequireStatement"@,
                Severity::Warning,
                require_offenses(source@, calls@, target_ruby_version(*config), uses_pp(pp_uses@)),
                false,
            ),
    {
        let v = config.get_version("TargetRubyVersion", (2, 7));
        let needs_pp = uses_pp_exec(pp_uses);
        let pp: Vec<u8> = vec![112u8, 112u8];
        assert(pp@ =~= seq![112u8, 112u8]);
        proof {
            lemma_reports_empty(
                diagnostics@,
                source.spec_path(),
                "Lint/RedundantRequireStatement"@,
                Severity::Warning,
                false,
            );
        }
        let mut k: usize = 0;
        while k < calls.len()
            invariant
                k <= calls@.len(),
                v == target_ruby_version(*config),
                needs_pp == uses_pp(pp_uses@),
                pp@ == seq![112u8, 112u8],
                forall|j: int| 0 <= j < calls@.len() ==> #[trigger] calls@[j].start <= source@.len(),
                extends_with_reports(
                    old(diagnostics)@,
                    diagnostics@,
                    source.spec_path(),
                    "Lint/RedundantRequireStatement"@,
                    Severity::Warning,
                    require_offenses(source@, calls@.subrange(0, k as int), v, needs_pp),
                    false,
                ),
            decreases calls@.len() - k,
        {
            let c = &calls[k];
            let ghost done = calls@.subrange(0, k as int);
            assert(calls@.subrange(0, k + 1).drop_last() =~= done);
            assert(calls@.subrange(0, k + 1).last() == *c);
            let mut hit = false;
            if string_is(&c.name, "require") && !c.has_receiver && c.args.len() == 1 {
                match &c.args[0] {
                    Some(f) => {
                        if self.is_redundant_feature(f, v) && !(bytes_are(f, pp.as_slice()) && needs_pp) {
                            hit = true;
                        }
                    },
                    None => {},
                }
            }
            if hit {
                let (line, col) = source.offset_to_line_col(c.start);
                let d = new_diagnostic(
                    source,
                    "Lint/RedundantRequireStatement",
                    Severity::Warning,
                    line,
                    col,
                    "Remove unnecessary `require` statement.".to_owned(),
                );
                let ghost before = diagnostics@;
                diagnostics.push(d);
                proof {
                    assert(diagnostics@.drop_last() =~= before);
                    lemma_reports_push(
                        old(diagnostics)@,
                        before,
                        diagnostics@,
                        source.spec_path(),
                        "Lint/RedundantRequireStatement"@,
                        Severity::Warning,
                        require_offenses(source@, done, v, needs_pp),
                        (line as int, col as int, "Remove unnecessary `require` statement."@),
                        false,
                    );
                }
            }
            k = k + 1;
        }
        assert(calls@.subrange(0, calls@.len() as int) =~= calls@);
    }
}

} // verus!
