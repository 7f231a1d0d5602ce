//! A lexical scanner for simple assignment expressions.
//!
//! [`tokenize`] turns a source text such as `total = price1 ** 2` into the
//! ordered list of its tokens: variables, numbers, the sign `=` and the
//! binary operators `+ - * / % **`. Characters that belong to no token are
//! skipped without an error.
//!
//! - [`token`]: the tokens and their mathematical view.
//! - [`classify`]: the character classes.
//! - [`grammar`]: what the tokens of a source text are.
//! - [`scanner`]: the scan itself.
//! - [`laws`]: what holds of every scan.

pub mod classify;
pub mod grammar;
pub mod laws;
pub mod scanner;
pub mod token;

pub use classify::{is_alphanumeric, is_integer, is_single_character_binary_operation_token};
pub use scanner::tokenize;
pub use token::{Token, TokenType, TokenView};
