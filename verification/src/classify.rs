//! The character classes of the scanner, and the functions that decide
//! them on a text.

use regex::Regex;
use vstd::prelude::*;
use vstd::string::*;

verus! {

/// The pattern of a text that is one decimal digit.
pub const INTEGER_PATTERN: &'static str = "^[0-9]$";

/// The pattern of a text made of letters and digits.
pub const ALPHANUMERIC_PATTERN: &'static str = "^[a-zA-Z0-9]+$";

/// `c` is one of the decimal digits `0` to `9`.
pub open spec fn is_digit(c: char) -> bool {
    '0' <= c <= '9'
}

/// `c` is one of the letters `a` to `z` or `A` to `Z`.
pub open spec fn is_letter(c: char) -> bool {
    'a' <= c <= 'z' || 'A' <= c <= 'Z'
}

/// `c` is a letter or a decimal digit.
pub open spec fn is_letter_or_digit(c: char) -> bool {
    is_letter(c) || is_digit(c)
}

/// `c` is one of the operator signs `+`, `-`, `*`, `/`, `%`.
pub open spec fn is_operator(c: char) -> bool {
    c == '+' || c == '-' || c == '*' || c == '/' || c == '%'
}

/// `text` is exactly one operator sign.
pub open spec fn operator_text(text: Seq<char>) -> bool {
    text.len() == 1 && is_operator(text[0])
}

/// `text` is exactly one decimal digit.
pub open spec fn integer_text(text: Seq<char>) -> bool {
    text.len() == 1 && is_digit(text[0])
}

/// `text` is not empty and holds letters and decimal digits only.
pub open spec fn alphanumeric_text(text: Seq<char>) -> bool {
    text.len() > 0 && forall|i: int| 0 <= i < text.len() ==> is_letter_or_digit(#[trigger] text[i])
}

/// Compiles `pattern` with `regex::Regex::new` and asks `Regex::is_match`
/// whether it matches somewhere in `text`.
///
/// Trusted, not proved. Only the two patterns of this module are admitted;
/// both compile, so the `unwrap` cannot fail. In both, `^` and `$` stand for
/// the two ends of the whole text (no flag makes them ends of lines), so a
/// match covers the text from its first character to its last, and each
/// bracket holds plain ranges, which match the code points in those ranges
/// and no others (no flag makes letters match without regard to case). So
/// [`INTEGER_PATTERN`] matches exactly the texts that are one decimal digit,
/// and [`ALPHANUMERIC_PATTERN`] exactly the texts that are not empty and
/// hold only letters `a` to `z`, `A` to `Z` and decimal digits.
#[verifier::external_body]
fn pattern_matches(pattern: &str, text: &str) -> (matched: bool)
    requires
        pattern@ == INTEGER_PATTERN@ || pattern@ == ALPHANUMERIC_PATTERN@,
    ensures
        pattern@ == INTEGER_PATTERN@ ==> matched == integer_text(text@),
        pattern@ == ALPHANUMERIC_PATTERN@ ==> matched == alphanumeric_text(text@),
{
    Regex::new(pattern).unwrap().is_match(text)
}

/// Whether `text` is the single character `expected`.
pub fn is_character(text: &str, expected: char) -> (result: bool)
    ensures
        result == (text@ == seq![expected]),
{
    let result = text.unicode_len() == 1 && text.get_char(0) == expected;
    assert(result ==> text@ =~= seq![expected]);
    result
}

/// Whether `character` is one of the operator signs `+`, `-`, `*`, `/`, `%`.
pub fn is_single_character_binary_operation_token(character: &str) -> (result: bool)
    ensures
        result == operator_text(character@),
{
    proof {
        if character@.len() == 1 {
            assert(character@ =~= seq![character@[0]]);
        }
    }
    is_character(character, '+') || is_character(character, '-') || is_character(character, '*')
        || is_character(character, '/') || is_character(character, '%')
}

/// Whether `character` is a letter or a decimal digit, or a run of them.
pub fn is_alphanumeric(character: &str) -> (result: bool)
    ensures
        result == alphanumeric_text(character@),
{
    pattern_matches(ALPHANUMERIC_PATTERN, character)
}

/// Whether `character` is one decimal digit.
pub fn is_integer(character: &str) -> (result: bool)
    ensures
        result == integer_text(character@),
{
    pattern_matches(INTEGER_PATTERN, character)
}

} // verus!
