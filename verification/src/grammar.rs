//! What the scanner reads off a source text, as mathematics.
//!
//! A source text is a sequence of characters. Its lexemes are the ranges of
//! positions that become tokens, found from left to right, each as long as
//! its kind allows.

use crate::classify::{is_digit, is_letter, is_letter_or_digit, is_operator};
use crate::token::{TokenType, TokenView};
use vstd::prelude::*;

verus! {

/// A lexeme: the kind of a token and the positions `start..end` of the
/// source text that it covers.
pub struct Lexeme {
    pub kind: TokenType,
    pub start: int,
    pub end: int,
}

/// Whether a lexeme of `kind`, once begun, goes on over the character `c`.
/// Only numbers and variables are runs; a number runs over digits, a variable
/// over letters and digits.
pub open spec fn continues(kind: TokenType, c: char) -> bool {
    match kind {
        TokenType::Number => is_digit(c),
        TokenType::Variable => is_letter_or_digit(c),
        _ => false,
    }
}

/// The number of characters from `start` on, without a gap, over which a
/// lexeme of `kind` continues.
pub open spec fn run_length(source: Seq<char>, kind: TokenType, start: int) -> nat
    decreases source.len() - start,
{
    if 0 <= start < source.len() && continues(kind, source[start]) {
        1 + run_length(source, kind, start + 1)
    } else {
        0
    }
}

/// A run lies inside the source text, a lexeme of its kind continues over
/// each of its characters, and over the character behind it, if there is
/// one, it does not.
pub proof fn lemma_run_is_maximal(source: Seq<char>, kind: TokenType, start: int)
    requires
        0 <= start <= source.len(),
    ensures
        start + run_length(source, kind, start) <= source.len(),
        forall|k: int|
            start <= k < start + run_length(source, kind, start) ==> continues(
                kind,
                #[trigger] source[k],
            ),
        start + run_length(source, kind, start) < source.len() ==> !continues(
            kind,
            source[start + run_length(source, kind, start)],
        ),
    decreases source.len() - start,
{
    if start < source.len() && continues(kind, source[start]) {
        lemma_run_is_maximal(source, kind, start + 1);
    }
}

/// The lexeme that begins at `position`, or `None` where the character
/// there begins none and is skipped.
pub open spec fn lexeme_at(source: Seq<char>, position: int) -> Option<Lexeme> {
    let c = source[position];
    if c == '=' {
        Some(Lexeme { kind: TokenType::Equals, start: position, end: position + 1 })
    } else if c == '*' && position + 1 < source.len() && source[position + 1] == '*' {
        Some(Lexeme { kind: TokenType::BinaryOperation, start: position, end: position + 2 })
    } else if is_operator(c) {
        Some(Lexeme { kind: TokenType::BinaryOperation, start: position, end: position + 1 })
    } else if is_digit(c) {
        Some(
            Lexeme {
                kind: TokenType::Number,
                start: position,
                end: position + run_length(source, TokenType::Number, position),
            },
        )
    } else if is_letter(c) {
        Some(
            Lexeme {
                kind: TokenType::Variable,
                start: position,
                end: position + run_length(source, TokenType::Variable, position),
            },
        )
    } else {
        None
    }
}

/// The lexemes of `source` from `position` to its end, in order.
pub open spec fn lexemes_from(source: Seq<char>, position: int) -> Seq<Lexeme>
    decreases source.len() - position,
    via lexemes_from_terminates
{
    if 0 <= position < source.len() {
        match lexeme_at(source, position) {
            Some(lexeme) => seq![lexeme] + lexemes_from(source, lexeme.end),
            None => lexemes_from(source, position + 1),
        }
    } else {
        Seq::empty()
    }
}

/// Every lexeme ends behind the position at which it begins, and inside
/// the source text.
#[via_fn]
proof fn lexemes_from_terminates(source: Seq<char>, position: int) {
    if 0 <= position < source.len() {
        lemma_run_is_maximal(source, TokenType::Number, position);
        lemma_run_is_maximal(source, TokenType::Variable, position);
    }
}

/// The lexemes of `source`, in order.
pub open spec fn lexemes(source: Seq<char>) -> Seq<Lexeme> {
    lexemes_from(source, 0)
}

/// The token that `lexeme` stands for: its kind, and the characters of
/// `source` that it covers.
pub open spec fn lexeme_token(source: Seq<char>, lexeme: Lexeme) -> TokenView {
    TokenView { kind: lexeme.kind, value: source.subrange(lexeme.start, lexeme.end) }
}

/// The tokens that `found` stands for, in the same order.
pub open spec fn lexeme_tokens(source: Seq<char>, found: Seq<Lexeme>) -> Seq<TokenView> {
    Seq::new(found.len(), |i: int| lexeme_token(source, found[i]))
}

/// The tokens of `source`: what scanning it yields.
pub open spec fn tokens_of(source: Seq<char>) -> Seq<TokenView> {
    lexeme_tokens(source, lexemes(source))
}

/// The texts of `tokens`, joined in order with nothing between them.
pub open spec fn joined_text(tokens: Seq<TokenView>) -> Seq<char>
    decreases tokens.len(),
{
    if tokens.len() == 0 {
        Seq::empty()
    } else {
        tokens.first().value + joined_text(tokens.drop_first())
    }
}

/// `c` is a character that tokens are made of: `=`, an operator sign, a
/// letter or a digit. Every other character is skipped.
pub open spec fn token_character(c: char) -> bool {
    c == '=' || is_operator(c) || is_letter_or_digit(c)
}

/// [`token_character`] as a value, to filter a text with.
pub open spec fn token_characters() -> spec_fn(char) -> bool {
    |c: char| token_character(c)
}

/// "Is no space", as a value, to filter a text with.
pub open spec fn no_space() -> spec_fn(char) -> bool {
    |c: char| c != ' '
}

/// `lexeme` covers a range of `source` that is not empty, and is the lexeme
/// that begins at the first position of that range.
pub open spec fn is_lexeme_of(source: Seq<char>, lexeme: Lexeme) -> bool {
    &&& 0 <= lexeme.start < lexeme.end <= source.len()
    &&& lexeme_at(source, lexeme.start) == Some(lexeme)
}

/// No run is cut in two at `position`: where a letter stands before it, no
/// letter or digit stands at it, and where a digit stands before it, no
/// digit stands at it.
pub open spec fn is_boundary(source: Seq<char>, position: int) -> bool {
    0 < position < source.len() ==> {
        &&& is_letter(source[position - 1]) ==> !is_letter_or_digit(source[position])
        &&& is_digit(source[position - 1]) ==> !is_digit(source[position])
    }
}

/// The positions `first..end` of `source` are a run for `kind` that cannot
/// be made longer at either end.
pub open spec fn is_maximal_run(source: Seq<char>, kind: TokenType, first: int, end: int) -> bool {
    &&& 0 <= first < end <= source.len()
    &&& forall|k: int| first <= k < end ==> continues(kind, #[trigger] source[k])
    &&& (first == 0 || !continues(kind, source[first - 1]))
    &&& (end == source.len() || !continues(kind, source[end]))
}

} // verus!
