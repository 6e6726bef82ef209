use crate::cop::util::string_is;
use vstd::prelude::*;

verus! {

/// A receiver, as far as a check on constants reads it.
pub enum ConstantReceiver {
    /// A constant read `Name`.
    Read(String),
    /// A constant path `A::Name` (with a parent) or `::Name` (without), and
    /// its last name if it has one.
    Path { has_parent: bool, name: Option<String> },
    /// Any other receiver.
    Other,
}

/// The receiver is the constant `name` written bare or as `::name`.
pub open spec fn is_top_constant(r: ConstantReceiver, name: Seq<char>) -> bool {
    match r {
        ConstantReceiver::Read(n) => n@ == name,
        ConstantReceiver::Path { has_parent, name: n } => !has_parent && match n {
            Some(m) => m@ == name,
            None => false,
        },
        ConstantReceiver::Other => false,
    }
}

/// Whether the receiver is the constant `name` written bare or as `::name`.
pub fn is_top_constant_exec(r: &ConstantReceiver, name: &str) -> (b: bool)
    ensures
        b == is_top_constant(*r, name@),
{
    match r {
        ConstantReceiver::Read(n) => string_is(n, name),
        ConstantReceiver::Path { has_parent, name: n } => {
            if *has_parent {
                false
            } else {
                match n {
                    Some(m) => string_is(m, name),
                    None => false,
                }
            }
        },
        ConstantReceiver::Other => false,
    }
}

/// A comment of a source: where it starts and its text.
pub struct Comment {
    pub start: usize,
    pub text: Vec<u8>,
}

} // verus!
