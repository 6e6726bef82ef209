use crate::cop::node::{is_top_constant, is_top_constant_exec, ConstantReceiver};
use crate::cop::util::string_is;
use vstd::prelude::*;

verus! {

/// The FactoryBot methods that build or create objects from factories.
pub open spec fn is_factory_bot_method(n: Seq<char>) -> bool {
    n == "attributes_for"@ || n == "attributes_for_list"@ || n == "attributes_for_pair"@ || n
        == "build"@ || n == "build_list"@ || n == "build_pair"@ || n == "build_stubbed"@ || n
        == "build_stubbed_list"@ || n == "build_stubbed_pair"@ || n == "create"@ || n
        == "create_list"@ || n == "create_pair"@ || n == "generate"@ || n == "generate_list"@
}

pub fn factory_bot_method(n: &String) -> (r: bool)
    ensures
        r == is_factory_bot_method(n@),
{
    string_is(n, "attributes_for") || string_is(n, "attributes_for_list") || string_is(
        n,
        "attributes_for_pair",
    ) || string_is(n, "build") || string_is(n, "build_list") || string_is(n, "build_pair")
        || string_is(n, "build_stubbed") || string_is(n, "build_stubbed_list") || string_is(
        n,
        "build_stubbed_pair",
    ) || string_is(n, "create") || string_is(n, "create_list") || string_is(n, "create_pair")
        || string_is(n, "generate") || string_is(n, "generate_list")
}

/// The receiver is the `FactoryBot` (or older `FactoryGirl`) constant,
/// written bare or as `::FactoryBot`.
pub open spec fn is_factory_bot_receiver(r: ConstantReceiver) -> bool {
    is_top_constant(r, "FactoryBot"@) || is_top_constant(r, "FactoryGirl"@)
}

pub fn factory_bot_receiver(r: &ConstantReceiver) -> (b: bool)
    ensures
        b == is_factory_bot_receiver(*r),
{
    is_top_constant_exec(r, "FactoryBot") || is_top_constant_exec(r, "FactoryGirl")
}

/// A call of a FactoryBot method: on `FactoryBot`, or, unless only explicit
/// calls count, without a receiver.
pub open spec fn is_factory_call(r: Option<ConstantReceiver>, explicit_only: bool) -> bool {
    match r {
        None => !explicit_only,
        Some(c) => is_factory_bot_receiver(c),
    }
}

pub fn factory_call(r: &Option<ConstantReceiver>, explicit_only: bool) -> (b: bool)
    ensures
        b == is_factory_call(*r, explicit_only),
{
    match r {
        None => !explicit_only,
        Some(c) => factory_bot_receiver(c),
    }
}

/// The methods that open an RSpec example group, shared ones included.
pub open spec fn is_rspec_example_group(n: Seq<char>) -> bool {
    n == "describe"@ || n == "context"@ || n == "feature"@ || n == "example_group"@ || n
        == "xdescribe"@ || n == "xcontext"@ || n == "xfeature"@ || n == "fdescribe"@ || n
        == "fcontext"@ || n == "ffeature"@ || n == "shared_examples"@ || n
        == "shared_examples_for"@ || n == "shared_context"@
}

pub fn rspec_example_group(n: &String) -> (r: bool)
    ensures
        r == is_rspec_example_group(n@),
{
    string_is(n, "describe") || string_is(n, "context") || string_is(n, "feature") || string_is(
        n,
        "example_group",
    ) || string_is(n, "xdescribe") || string_is(n, "xcontext") || string_is(n, "xfeature")
        || string_is(n, "fdescribe") || string_is(n, "fcontext") || string_is(n, "ffeature")
        || string_is(n, "shared_examples") || string_is(n, "shared_examples_for") || string_is(
        n,
        "shared_context",
    )
}

} // verus!
