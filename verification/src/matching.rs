//! Telling apart a number, a text and a sign, all at once.

use vstd::prelude::*;

verus! {

/// What is said of a number, a text and a sign.
pub open spec fn match_spec(n: u32, s: Seq<char>, negative: bool) -> Seq<char> {
    if 1 <= n <= 5 && s == "cat"@ && negative {
        "N is between 1 and 5, the string is \"cat\" and f is negative."@
    } else if 1 <= n <= 10 && s == "cat"@ && !negative {
        "N is between 1 & 10, the string is \"cat\" and f is positive."@
    } else if 2 <= n <= 4 && s == "dog"@ && !negative {
        "N is between 2 & 4, the string is \"dog\" and f is negative."@
    } else {
        "something else"@
    }
}

/// Compares two texts with `str::eq`: they are equal where they hold the
/// same characters.
#[verifier::external_body]
fn same_text(a: &str, b: &str) -> (same: bool)
    ensures
        same == (a@ == b@),
{
    a.eq(b)
}

/// Says which of three cases a number, a text and a sign fall under, or
/// that they fall under none: the first case that fits is the one named.
pub fn match_stuff(n: u32, s: &str, negative: bool) -> (text: String)
    ensures
        text@ == match_spec(n, s@, negative),
{
    let cat = same_text(s, "cat");
    let dog = same_text(s, "dog");
    if 1 <= n && n <= 5 && cat && negative {
        "N is between 1 and 5, the string is \"cat\" and f is negative.".to_owned()
    } else if 1 <= n && n <= 10 && cat && !negative {
        "N is between 1 & 10, the string is \"cat\" and f is positive.".to_owned()
    } else if 2 <= n && n <= 4 && dog && !negative {
        "N is between 2 & 4, the string is \"dog\" and f is negative.".to_owned()
    } else {
        "something else".to_owned()
    }
}

} // verus!
