//! The greeting shown by the front-end.

use vstd::prelude::*;
use vstd::string::*;

verus! {

/// The greeting for `name`: the name, verbatim, between the two fixed parts
/// of the template.
pub open spec fn greeting_text(name: Seq<char>) -> Seq<char> {
    "Hello, "@ + name + "! You've been greeted from Rust!"@
}

/// Formats the greeting for `name`. There is no input on which it fails.
pub fn greet(name: &str) -> (greeting: String)
    ensures
        greeting@ == greeting_text(name@),
{
    let mut greeting = String::from_str("Hello, ");
    greeting.append(name);
    greeting.append("! You've been greeted from Rust!");
    greeting
}

} // verus!
