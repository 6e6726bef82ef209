use crate::cop::factory_bot::language::{
    factory_bot_method, factory_bot_receiver, is_factory_bot_method, is_factory_bot_receiver,
    is_rspec_example_group, rspec_example_group,
};
use crate::cop::node::{is_top_constant, is_top_constant_exec, ConstantReceiver};
use crate::cop::report::{adds_offense, emit_offense};
use crate::correction::Correction;
use crate::diagnostic::{Diagnostic, Severity};
use crate::parse::source::{col_of, line_of, SourceFile};
use vstd::prelude::*;

verus! {

/// The `FactoryBot/SyntaxMethods` cop: inside RSpec example groups, call
/// the FactoryBot methods without the `FactoryBot.` prefix.
pub struct SyntaxMethods;

/// A method call, as far as the cop reads it.
pub struct SyntaxCall {
    pub name: String,
    /// Its receiver and where that starts, if it has one.
    pub receiver: Option<(ConstantReceiver, usize)>,
    /// Where the call starts.
    pub start: usize,
    /// Where its method name starts, if it is written.
    pub selector: Option<usize>,
    /// The call sits inside an RSpec example group.
    pub in_example_group: bool,
}

/// A call with a block opens an example group: `describe` and its kin, bare
/// or on `RSpec` (or `::RSpec`).
pub open spec fn is_example_group_opener(name: Seq<char>, receiver: Option<ConstantReceiver>, has_block: bool) -> bool {
    has_block && is_rspec_example_group(name) && match receiver {
        None => true,
        Some(r) => is_top_constant(r, "RSpec"@),
    }
}

/// The offense: a FactoryBot method called on `FactoryBot` inside an example
/// group, reported at the receiver; its edit drops the receiver and the dot.
pub open spec fn syntax_offense(s: Seq<u8>, c: SyntaxCall) -> Option<
    (int, int, Seq<char>, Option<(int, int, Seq<char>)>),
> {
    match c.receiver {
        Some((r, rs)) => if c.in_example_group && is_factory_bot_method(c.name@)
            && is_factory_bot_receiver(r) {
            Some(
                (
                    line_of(s, rs as int) as int,
                    col_of(s, rs as int) as int,
                    "Use `"@ + c.name@ + "` from `FactoryBot::Syntax::Methods`."@,
                    match c.selector {
                        Some(sel) => Some((c.start as int, sel as int, Seq::empty())),
                        None => None,
                    },
                ),
            )
        } else {
            None
        },
        None => None,
    }
}

impl SyntaxMethods {
    pub fn name(&self) -> (r: &'static str)
        ensures
            r@ == "FactoryBot/SyntaxMethods"@,
    {
        "FactoryBot/SyntaxMethods"
    }

    pub fn default_severity(&self) -> (r: Severity)
        ensures
            r == Severity::Convention,
    {
        Severity::Convention
    }

    pub fn supports_autocorrect(&self) -> (r: bool)
        ensures
            r == true,
    {
        true
    }

    /// Whether a call opens an RSpec example group, for the walk that tells
    /// calls whether they sit inside one.
    pub fn opens_example_group(
        name: &String,
        receiver: &Option<ConstantReceiver>,
        has_block: bool,
    ) -> (r: bool)
        ensures
            r == is_example_group_opener(name@, *receiver, has_block),
    {
        has_block && rspec_example_group(name) && match receiver {
            None => true,
            Some(r) => is_top_constant_exec(r, "RSpec"),
        }
    }

    /// Checks one call.
    pub fn check_call(
        &self,
        source: &SourceFile,
        call: &SyntaxCall,
        diagnostics: &mut Vec<Diagnostic>,
        corrections: &mut Vec<Correction>,
        autocorrect: bool,
    )
        requires
            call.receiver matches Some((_, rs)) ==> rs <= source@.len(),
        ensures
            adds_offense(
                old(diagnostics)@,
                final(diagnostics)@,
                old(corrections)@,
                final(corrections)@,
                source.spec_path(),
                "FactoryBot/SyntaxMethods"@,
                Severity::Convention,
                syntax_offense(source@, *call),
                autocorrect,
            ),
    {
        let (r, rs) = match &call.receiver {
            Some((r, rs)) => (r, *rs),
            None => {
                return;
            },
        };
        if !(call.in_example_group && factory_bot_method(&call.name) && factory_bot_receiver(r)) {
            return;
        }
        let (line, col) = source.offset_to_line_col(rs);
        let mut msg = "Use `".to_owned();
        msg.append(call.name.as_str());
        msg.append("` from `FactoryBot::Syntax::Methods`.");
        let edit = match call.selector {
            Some(sel) => {
                let e = String::new();
                assert(e@ =~= Seq::<char>::empty());
                Some((call.start, sel, e))
            },
            None => None,
        };
        emit_offense(
            diagnostics,
            corrections,
            autocorrect,
            source,
            "FactoryBot/SyntaxMethods",
            Severity::Convention,
            line,
            col,
            msg,
            edit,
        );
    }
}

} // verus!
