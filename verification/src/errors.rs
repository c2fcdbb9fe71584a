//! What can go wrong when a universe is read from text.

use vstd::prelude::*;
use vstd::string::StringExecFns;

verus! {

/// Why a text is not a universe.
#[derive(Debug, Clone, Copy, PartialEq, Eq, Structural)]
pub enum ParseUniverseError {
    /// The text holds a character that stands for no cell.
    InvalidCell(char),
    /// A row is not as long as the first row. Holds the length of the first
    /// row, then the length of the offending row.
    MismatchedRowLengths(usize, usize),
}

/// The character for a single decimal digit.
pub open spec fn digit_glyph(digit: nat) -> char
    recommends
        digit < 10,
{
    ('0' as nat + digit) as char
}

/// A number in decimal, without leading zeros.
pub open spec fn decimal(value: nat) -> Seq<char>
    decreases value,
{
    if value < 10 {
        seq![digit_glyph(value)]
    } else {
        decimal(value / 10).push(digit_glyph(value % 10))
    }
}

/// The message that tells a user of `error`.
pub open spec fn message_of(error: ParseUniverseError) -> Seq<char> {
    match error {
        ParseUniverseError::InvalidCell(glyph) => "Invalid cell value '"@.push(glyph)
            + "', expected one of '.' or '#'"@,
        ParseUniverseError::MismatchedRowLengths(expected, actual) =>
            "Mismatched row lengths, expected "@ + decimal(expected as nat) + " but got "@
                + decimal(actual as nat),
    }
}

/// The character for the last decimal digit of `value`.
fn last_digit(value: usize) -> (glyph: char)
    ensures
        glyph == digit_glyph((value % 10) as nat),
{
    let digit = (value % 10) as u8;
    ('0' as u8 + digit) as char
}

/// Appends `value` in decimal to `text`.
fn push_decimal(text: &mut String, value: usize)
    ensures
        final(text)@ == old(text)@ + decimal(value as nat),
{
    let mut digits: Vec<char> = Vec::new();
    digits.push(last_digit(value));
    let mut rest = value / 10;
    while rest > 0
        invariant
            digits@.len() >= 1,
            decimal(value as nat) == (if rest > 0 {
                decimal(rest as nat)
            } else {
                Seq::empty()
            }) + digits@.reverse(),
        decreases rest,
    {
        digits.push(last_digit(rest));
        rest = rest / 10;
    }
    let mut left = digits.len();
    while left > 0
        invariant
            left <= digits@.len(),
            text@ == old(text)@ + digits@.reverse().take(digits@.len() - left),
        decreases left,
    {
        left -= 1;
        text.push(digits[left]);
    }
}

impl ParseUniverseError {
    /// The message that tells a user what is wrong with the text.
    pub fn message(&self) -> (text: String)
        ensures
            text@ == message_of(*self),
    {
        match self {
            ParseUniverseError::InvalidCell(glyph) => {
                let mut text = String::from_str("Invalid cell value '");
                text.push(*glyph);
                text.append("', expected one of '.' or '#'");
                text
            },
            ParseUniverseError::MismatchedRowLengths(expected, actual) => {
                let mut text = String::from_str("Mismatched row lengths, expected ");
                push_decimal(&mut text, *expected);
                text.append(" but got ");
                push_decimal(&mut text, *actual);
                text
            },
        }
    }
}

} // verus!
