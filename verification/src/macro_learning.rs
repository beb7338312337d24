//! Types that can say hello.

use vstd::prelude::*;
use vstd::string::StringExecFns;

verus! {

/// A type that greets under its own name.
pub trait Hello {
    fn hello() -> String;
}

/// What a type called `name` says when it greets.
pub open spec fn hello_spec(name: Seq<char>) -> Seq<char> {
    "Hello, Macro! My name is "@ + name
}

/// The greeting of a type called `name`.
pub fn hello_text(name: &str) -> (text: String)
    ensures
        text@ == hello_spec(name@),
{
    String::from_str("Hello, Macro! My name is ").concat(name)
}

} // verus!
