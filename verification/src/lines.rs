//! Reading what a player typed: a line cut to its text, a number, a yes.

use vstd::prelude::*;

verus! {

/// A text without the white space at its two ends, as `str::trim` cuts it.
pub uninterp spec fn trimmed_of(text: Seq<char>) -> Seq<char>;

/// `part` is a stretch of `text`: some of its characters, in a row.
pub open spec fn is_stretch_of(part: Seq<char>, text: Seq<char>) -> bool {
    exists|i: int, j: int| 0 <= i <= j <= text.len() && part == #[trigger] text.subrange(i, j)
}

/// Calls `str::trim`, which hands back a slice of the text it was given:
/// the text without the white space at its two ends.
#[verifier::external_body]
pub(crate) fn trim(text: &str) -> (trimmed: &str)
    ensures
        trimmed@ == trimmed_of(text@),
        is_stretch_of(trimmed@, text@),
{
    text.trim()
}

/// The number that a row of decimal digits writes.
pub open spec fn digits_value(digits: Seq<char>) -> nat
    decreases digits.len(),
{
    if digits.len() == 0 {
        0
    } else {
        digits_value(digits.drop_last()) * 10 + (digits.last() as nat - '0' as nat) as nat
    }
}

/// The text is a row of at least one decimal digit.
pub open spec fn is_digits(text: Seq<char>) -> bool {
    text.len() > 0 && forall|i: int| 0 <= i < text.len() ==> '0' <= #[trigger] text[i] <= '9'
}

/// The number that a text writes: decimal digits, a plus sign before
/// them or none, and a value that fits in 32 bits.
pub open spec fn number_of(text: Seq<char>) -> Option<u32> {
    let digits = if text.len() > 0 && text[0] == '+' {
        text.skip(1)
    } else {
        text
    };
    if is_digits(digits) && digits_value(digits) <= u32::MAX {
        Some(digits_value(digits) as u32)
    } else {
        None
    }
}

/// Calls `str::parse` for a `u32`, which reads decimal digits with a plus
/// sign before them or none, and fails on anything else and on a value
/// beyond 32 bits.
#[verifier::external_body]
pub(crate) fn parse_number(text: &str) -> (number: Option<u32>)
    ensures
        number == number_of(text@),
{
    text.parse::<u32>().ok()
}

/// A text with its capital letters from A to Z made small.
pub open spec fn ascii_lowered(text: Seq<char>) -> Seq<char> {
    text.map_values(
        |c: char|
            if 'A' <= c <= 'Z' {
                ((c as u8) + 32) as char
            } else {
                c
            },
    )
}

/// Calls `str::eq_ignore_ascii_case`: two texts are the same in this
/// sense where they are equal once the capital letters from A to Z are
/// made small.
#[verifier::external_body]
fn same_but_for_case(a: &str, b: &str) -> (same: bool)
    ensures
        same == (ascii_lowered(a@) == ascii_lowered(b@)),
{
    a.eq_ignore_ascii_case(b)
}

/// Whether a line says yes: a `y`, small or capital, with nothing but
/// white space around it.
pub fn is_yes(line: &str) -> (yes: bool)
    ensures
        yes == (ascii_lowered(trimmed_of(line@)) == ascii_lowered("y"@)),
{
    same_but_for_case(trim(line), "y")
}

/// What a line says: its text without the white space at its ends.
pub fn answer_of(line: &str) -> (answer: String)
    ensures
        answer@ == trimmed_of(line@),
        is_stretch_of(answer@, line@),
{
    trim(line).to_owned()
}

} // verus!
