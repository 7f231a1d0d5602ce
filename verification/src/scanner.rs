//! The scanner: one pass over the source text, from left to right.

use crate::classify::{
    is_alphanumeric, is_character, is_integer, is_single_character_binary_operation_token,
};
use crate::grammar::{
    continues, joined_text, lexeme_at, lexeme_tokens, lexemes, lexemes_from, run_length,
    token_characters, tokens_of, Lexeme,
};
use crate::laws::{lemma_lexeme_at, lemma_texts_spell_source, lemma_tokens_well_formed};
use crate::token::{Token, TokenType};
use vstd::prelude::*;
use vstd::string::*;

verus! {

/// `String::push` of the standard library, which appends one character to
/// the end of a string and leaves the characters before it as they were.
pub assume_specification[ String::push ](text: &mut String, ch: char)
    ensures
        final(text)@ == old(text)@.push(ch),
;

/// `characters` holds the characters of `source` in order, each as a text
/// of its own.
pub open spec fn spells(characters: Seq<String>, source: Seq<char>) -> bool {
    &&& characters.len() == source.len()
    &&& forall|i: int| 0 <= i < source.len() ==> (#[trigger] characters[i])@ == seq![source[i]]
}

/// Splits `source` into its characters.
pub fn split_characters(source: &str) -> (characters: Vec<String>)
    ensures
        spells(characters@, source@),
{
    let mut characters: Vec<String> = Vec::new();
    for c in rest: source.chars()
        invariant
            rest.seq() == source@,
            characters.len() == rest.index(),
            forall|i: int|
                0 <= i < rest.index() ==> (#[trigger] characters[i])@ == seq![source@[i]],
    {
        let mut character = String::new();
        character.push(c);
        assert(character@ =~= seq![c]);
        characters.push(character);
    }
    characters
}

/// Whether a lexeme of `kind` goes on over `character`, a text of one
/// character.
fn goes_on(kind: TokenType, character: &str) -> (result: bool)
    requires
        character@.len() == 1,
    ensures
        result == continues(kind, character@[0]),
{
    match kind {
        TokenType::Number => is_integer(character),
        TokenType::Variable => is_alphanumeric(character),
        _ => false,
    }
}

/// Reads the run of a lexeme of `kind` from `start` on: its text, and the
/// position behind it.
fn read_run(
    characters: &Vec<String>,
    kind: TokenType,
    start: usize,
    Ghost(source): Ghost<Seq<char>>,
) -> (run: (String, usize))
    requires
        spells(characters@, source),
        start <= characters.len(),
    ensures
        run.1 == start + run_length(source, kind, start as int),
        run.1 <= characters.len(),
        run.0@ == source.subrange(start as int, run.1 as int),
{
    let mut text = String::new();
    let mut end: usize = start;
    while end < characters.len() && goes_on(kind, characters[end].as_str())
        invariant
            spells(characters@, source),
            start <= end <= characters.len(),
            text@ == source.subrange(start as int, end as int),
            end + run_length(source, kind, end as int) == start + run_length(
                source,
                kind,
                start as int,
            ),
        decreases characters.len() - end,
    {
        text.append(characters[end].as_str());
        end += 1;
        assert(text@ =~= source.subrange(start as int, end as int));
    }
    (text, end)
}

/// Scans `source_code` into its tokens, in the order in which they stand.
///
/// The scan is lenient: a character that begins no token (white space,
/// other punctuation, any letter or digit beyond `a`-`z`, `A`-`Z`, `0`-`9`)
/// is skipped and scanning goes on behind it, so every source text has a
/// list of tokens, which may be empty.
pub fn tokenize(source_code: &str) -> (tokens: Vec<Token>)
    ensures
        tokens.deep_view() == tokens_of(source_code@),
        forall|i: int| 0 <= i < tokens.len() ==> (#[trigger] tokens[i])@.well_formed(),
        joined_text(tokens.deep_view()) == source_code@.filter(token_characters()),
{
    let characters = split_characters(source_code);
    let ghost source = source_code@;
    let ghost mut found: Seq<Lexeme> = Seq::empty();
    let mut tokens: Vec<Token> = Vec::new();
    let mut position: usize = 0;
    assert(tokens.deep_view() =~= lexeme_tokens(source, found));
    assert(found + lexemes_from(source, 0) =~= lexemes(source));
    while position < characters.len()
        invariant
            spells(characters@, source),
            position <= characters.len(),
            found + lexemes_from(source, position as int) == lexemes(source),
            tokens.deep_view() == lexeme_tokens(source, found),
        decreases characters.len() - position,
    {
        let character = characters[position].as_str();
        assert(character@[0] == source[position as int]);
        let (scanned, next): (Option<Token>, usize) = if is_character(character, '=') {
            let value = characters[position].clone();
            (Some(Token { kind: TokenType::Equals, value }), position + 1)
        } else if is_character(character, '*') {
            let mut value = characters[position].clone();
            if position + 1 < characters.len() && is_character(
                characters[position + 1].as_str(),
                '*',
            ) {
                value.append(characters[position + 1].as_str());
                (Some(Token { kind: TokenType::BinaryOperation, value }), position + 2)
            } else {
                (Some(Token { kind: TokenType::BinaryOperation, value }), position + 1)
            }
        } else if is_single_character_binary_operation_token(character) {
            let value = characters[position].clone();
            (Some(Token { kind: TokenType::BinaryOperation, value }), position + 1)
        } else if is_integer(character) {
            let (value, end) = read_run(&characters, TokenType::Number, position, Ghost(source));
            (Some(Token { kind: TokenType::Number, value }), end)
        } else if is_alphanumeric(character) {
            let (value, end) = read_run(&characters, TokenType::Variable, position, Ghost(source));
            (Some(Token { kind: TokenType::Variable, value }), end)
        } else {
            (None, position + 1)
        };
        if let Some(token) = scanned {
            proof {
                let lexeme = lexeme_at(source, position as int).unwrap();
                lemma_lexeme_at(source, position as int);
                assert(token@.value =~= source.subrange(position as int, next as int));
                assert(found.push(lexeme) + lexemes_from(source, next as int) =~= found
                    + lexemes_from(source, position as int));
                found = found.push(lexeme);
            }
            let ghost views = tokens.deep_view();
            tokens.push(token);
            assert(tokens.deep_view() =~= views.push(token@));
        }
        position = next;
    }
    proof {
        assert(found =~= lexemes(source));
        assert forall|i: int| 0 <= i < tokens.len() implies (#[trigger] tokens[i])@.well_formed() by {
            lemma_tokens_well_formed(source, i);
            assert(tokens.deep_view()[i] == tokens[i]@);
        }
        lemma_texts_spell_source(source);
    }
    tokens
}

} // verus!
