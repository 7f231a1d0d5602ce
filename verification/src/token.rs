//! Tokens and their mathematical view.

use crate::classify::{alphanumeric_text, is_digit, is_letter, operator_text};
use vstd::prelude::*;

verus! {

/// The category of a token.
#[derive(Debug, PartialEq, Eq, Clone, Copy, Structural)]
pub enum TokenType {
    /// One of `+`, `-`, `*`, `/`, `%` or `**`.
    BinaryOperation,
    /// The sign `=`.
    Equals,
    /// A run of decimal digits.
    Number,
    /// A run of letters and digits that starts with a letter.
    Variable,
}

/// A token: its kind and the exact text it was read from.
#[derive(Debug, PartialEq, Eq)]
pub struct Token {
    pub kind: TokenType,
    pub value: String,
}

/// What a [`Token`] stands for in contracts: its kind and its text as a
/// sequence of characters.
pub struct TokenView {
    pub kind: TokenType,
    pub value: Seq<char>,
}

impl TokenView {
    /// The text is one that a token of this kind can have: `=` for
    /// `Equals`; one operator sign or `**` for `BinaryOperation`; digits, and
    /// at least one, for `Number`; letters and digits that begin with a
    /// letter for `Variable`.
    pub open spec fn well_formed(self) -> bool {
        match self.kind {
            TokenType::Equals => self.value == seq!['='],
            TokenType::BinaryOperation => operator_text(self.value) || self.value == seq!['*', '*'],
            TokenType::Number => self.value.len() > 0 && forall|i: int|
                0 <= i < self.value.len() ==> is_digit(#[trigger] self.value[i]),
            TokenType::Variable => alphanumeric_text(self.value) && is_letter(self.value[0]),
        }
    }
}

impl View for Token {
    type V = TokenView;

    open spec fn view(&self) -> TokenView {
        TokenView { kind: self.kind, value: self.value@ }
    }
}

impl DeepView for Token {
    type V = TokenView;

    open spec fn deep_view(&self) -> TokenView {
        self@
    }
}

} // verus!
