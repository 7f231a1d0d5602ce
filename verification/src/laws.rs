//! What holds of every scan, proved from the definition of the lexemes.

use crate::classify::{is_digit, is_letter, is_letter_or_digit};
use crate::grammar::{
    continues, is_boundary, is_lexeme_of, is_maximal_run, joined_text, lemma_run_is_maximal,
    lexeme_at, lexeme_token, lexeme_tokens, lexemes, lexemes_from, no_space, run_length,
    token_character, token_characters, tokens_of, Lexeme,
};
use crate::token::TokenType;
use vstd::prelude::*;

verus! {

/// The lexeme that begins at a position is not empty and lies inside the
/// source, its text agrees with its kind, and a number or a variable ends
/// where its run ends.
pub proof fn lemma_lexeme_at(source: Seq<char>, position: int)
    requires
        0 <= position < source.len(),
        lexeme_at(source, position) is Some,
    ensures
        is_lexeme_of(source, lexeme_at(source, position).unwrap()),
        lexeme_at(source, position).unwrap().start == position,
        lexeme_token(source, lexeme_at(source, position).unwrap()).well_formed(),
        forall|k: int|
            position <= k < lexeme_at(source, position).unwrap().end ==> token_character(
                #[trigger] source[k],
            ),
        ({
            let lexeme = lexeme_at(source, position).unwrap();
            lexeme.kind == TokenType::Number || lexeme.kind == TokenType::Variable ==> lexeme.end
                == position + run_length(source, lexeme.kind, position)
        }),
{
    let lexeme = lexeme_at(source, position).unwrap();
    let text = source.subrange(lexeme.start, lexeme.end);
    lemma_run_is_maximal(source, TokenType::Number, position);
    lemma_run_is_maximal(source, TokenType::Variable, position);
    match lexeme.kind {
        TokenType::Equals => {
            assert(text =~= seq!['=']);
        },
        TokenType::BinaryOperation => {
            if lexeme.end == position + 2 {
                assert(text =~= seq!['*', '*']);
            } else {
                assert(text[0] == source[position]);
            }
        },
        TokenType::Number => {
            assert forall|i: int| 0 <= i < text.len() implies is_digit(#[trigger] text[i]) by {
                assert(continues(TokenType::Number, source[position + i]));
            }
        },
        TokenType::Variable => {
            assert forall|i: int| 0 <= i < text.len() implies is_letter_or_digit(
                #[trigger] text[i],
            ) by {
                assert(continues(TokenType::Variable, source[position + i]));
            }
            assert(text[0] == source[position]);
        },
    }
    assert forall|k: int| position <= k < lexeme.end implies token_character(
        #[trigger] source[k],
    ) by {
        assert(continues(lexeme.kind, source[k]) || k <= position + 1);
    }
}

/// From any position on, the lexemes begin at or behind that position, each
/// is the lexeme that begins at its start, and each ends before the next
/// begins.
pub proof fn lemma_lexemes_from(source: Seq<char>, position: int)
    requires
        0 <= position <= source.len(),
    ensures
        forall|i: int|
            0 <= i < lexemes_from(source, position).len() ==> position <= (
            #[trigger] lexemes_from(source, position)[i]).start && is_lexeme_of(
                source,
                lexemes_from(source, position)[i],
            ),
        forall|i: int, j: int|
            0 <= i < j < lexemes_from(source, position).len() ==> (#[trigger] lexemes_from(
                source,
                position,
            )[i]).end <= (#[trigger] lexemes_from(source, position)[j]).start,
    decreases source.len() - position,
{
    if position < source.len() {
        match lexeme_at(source, position) {
            Some(lexeme) => {
                lemma_lexeme_at(source, position);
                lemma_lexemes_from(source, lexeme.end);
                let rest = lexemes_from(source, lexeme.end);
                let all = lexemes_from(source, position);
                assert(all == seq![lexeme] + rest);
                assert forall|i: int| 0 <= i < all.len() implies position <= (#[trigger] all[i]).start
                    && is_lexeme_of(source, all[i]) by {
                    if i > 0 {
                        assert(all[i] == rest[i - 1]);
                    }
                }
                assert forall|i: int, j: int| 0 <= i < j < all.len() implies (#[trigger] all[i]).end
                    <= (#[trigger] all[j]).start by {
                    assert(all[j] == rest[j - 1]);
                    if i > 0 {
                        assert(all[i] == rest[i - 1]);
                    }
                }
            },
            None => {
                lemma_lexemes_from(source, position + 1);
            },
        }
    }
}

/// Every lexeme of a source text covers a range of it that is not empty,
/// and is the lexeme that begins at the first position of that range.
pub proof fn lemma_lexeme_is_read_at_its_start(source: Seq<char>, i: int)
    requires
        0 <= i < lexemes(source).len(),
    ensures
        is_lexeme_of(source, lexemes(source)[i]),
{
    lemma_lexemes_from(source, 0);
}

/// The lexemes of a source text stand in its order and do not overlap: an
/// earlier one ends before a later one begins.
pub proof fn lemma_lexemes_in_order(source: Seq<char>, i: int, j: int)
    requires
        0 <= i < j < lexemes(source).len(),
    ensures
        lexemes(source)[i].end <= lexemes(source)[j].start,
{
    lemma_lexemes_from(source, 0);
}

/// The text of every token of a source text agrees with the token's kind.
pub proof fn lemma_tokens_well_formed(source: Seq<char>, i: int)
    requires
        0 <= i < tokens_of(source).len(),
    ensures
        tokens_of(source)[i].well_formed(),
{
    lemma_lexemes_from(source, 0);
    let lexeme = lexemes(source)[i];
    assert(is_lexeme_of(source, lexeme));
    lemma_lexeme_at(source, lexeme.start);
}

/// From a position at which no run is cut in two, every lexeme begins and
/// ends at such a position.
pub proof fn lemma_lexemes_cut_no_run(source: Seq<char>, position: int)
    requires
        0 <= position <= source.len(),
        is_boundary(source, position),
    ensures
        forall|i: int|
            0 <= i < lexemes_from(source, position).len() ==> is_boundary(
                source,
                (#[trigger] lexemes_from(source, position)[i]).start,
            ) && is_boundary(source, lexemes_from(source, position)[i].end),
    decreases source.len() - position,
{
    if position < source.len() {
        match lexeme_at(source, position) {
            Some(lexeme) => {
                lemma_lexeme_at(source, position);
                lemma_run_is_maximal(source, lexeme.kind, position);
                assert(token_character(source[lexeme.end - 1]));
                assert(continues(lexeme.kind, source[lexeme.end - 1]) || !is_letter_or_digit(
                    source[lexeme.end - 1],
                ));
                lemma_lexemes_cut_no_run(source, lexeme.end);
                let rest = lexemes_from(source, lexeme.end);
                let all = lexemes_from(source, position);
                assert forall|i: int| 0 <= i < all.len() implies is_boundary(
                    source,
                    (#[trigger] all[i]).start,
                ) && is_boundary(source, all[i].end) by {
                    if i > 0 {
                        assert(all[i] == rest[i - 1]);
                    }
                }
            },
            None => {
                lemma_lexemes_cut_no_run(source, position + 1);
            },
        }
    }
}

/// Every number is a run of digits that cannot be made longer at either
/// end, and no letter stands before it.
pub proof fn lemma_number_is_a_maximal_run(source: Seq<char>, i: int)
    requires
        0 <= i < lexemes(source).len(),
        lexemes(source)[i].kind == TokenType::Number,
    ensures
        is_maximal_run(source, TokenType::Number, lexemes(source)[i].start, lexemes(source)[i].end),
        lexemes(source)[i].start == 0 || !is_letter(source[lexemes(source)[i].start - 1]),
{
    let lexeme = lexemes(source)[i];
    lemma_lexemes_from(source, 0);
    lemma_lexemes_cut_no_run(source, 0);
    lemma_lexeme_at(source, lexeme.start);
    lemma_run_is_maximal(source, TokenType::Number, lexeme.start);
}

/// Every variable begins with a letter, holds letters and digits only,
/// cannot be made longer at its end, and no letter stands before it.
pub proof fn lemma_variable_is_a_maximal_run(source: Seq<char>, i: int)
    requires
        0 <= i < lexemes(source).len(),
        lexemes(source)[i].kind == TokenType::Variable,
    ensures
        is_letter(source[lexemes(source)[i].start]),
        forall|k: int|
            lexemes(source)[i].start <= k < lexemes(source)[i].end ==> is_letter_or_digit(
                #[trigger] source[k],
            ),
        lexemes(source)[i].end == source.len() || !is_letter_or_digit(
            source[lexemes(source)[i].end],
        ),
        lexemes(source)[i].start == 0 || !is_letter(source[lexemes(source)[i].start - 1]),
{
    let lexeme = lexemes(source)[i];
    lemma_lexemes_from(source, 0);
    lemma_lexemes_cut_no_run(source, 0);
    lemma_lexeme_at(source, lexeme.start);
    lemma_run_is_maximal(source, TokenType::Variable, lexeme.start);
    assert forall|k: int| lexeme.start <= k < lexeme.end implies is_letter_or_digit(
        #[trigger] source[k],
    ) by {
        assert(continues(TokenType::Variable, source[k]));
    }
}

/// A run of digits that cannot be made longer yields at most one number,
/// and a run of letters and digits that cannot be made longer at most one
/// variable: two lexemes of the run's kind that begin inside the run are the
/// same lexeme. That lexeme ends where the run ends, and a number also
/// begins where the run begins.
pub proof fn lemma_one_lexeme_per_run(
    source: Seq<char>,
    kind: TokenType,
    first: int,
    end: int,
    i: int,
    j: int,
)
    requires
        kind == TokenType::Number || kind == TokenType::Variable,
        is_maximal_run(source, kind, first, end),
        0 <= i < lexemes(source).len(),
        0 <= j < lexemes(source).len(),
        lexemes(source)[i].kind == kind,
        lexemes(source)[j].kind == kind,
        first <= lexemes(source)[i].start < end,
        first <= lexemes(source)[j].start < end,
    ensures
        i == j,
        lexemes(source)[i].end == end,
        kind == TokenType::Number ==> lexemes(source)[i].start == first,
{
    lemma_lexemes_from(source, 0);
    lemma_reaches_end_of_run(source, kind, first, end, lexemes(source)[i]);
    lemma_reaches_end_of_run(source, kind, first, end, lexemes(source)[j]);
    if kind == TokenType::Number {
        lemma_number_is_a_maximal_run(source, i);
        if lexemes(source)[i].start > first {
            assert(continues(kind, source[lexemes(source)[i].start - 1]));
        }
    }
}

/// A number or a variable that begins inside a run of its kind that cannot
/// be made longer ends where that run ends.
proof fn lemma_reaches_end_of_run(
    source: Seq<char>,
    kind: TokenType,
    first: int,
    end: int,
    lexeme: Lexeme,
)
    requires
        kind == TokenType::Number || kind == TokenType::Variable,
        is_maximal_run(source, kind, first, end),
        is_lexeme_of(source, lexeme),
        lexeme.kind == kind,
        first <= lexeme.start < end,
    ensures
        lexeme.end == end,
{
    lemma_lexeme_at(source, lexeme.start);
    lemma_run_is_maximal(source, kind, lexeme.start);
    if lexeme.end < end {
        assert(continues(kind, source[lexeme.end]));
    } else if lexeme.end > end {
        assert(continues(kind, source[end]));
    }
}

/// A character that tokens are made of, at or behind the position from
/// which the lexemes are taken, lies in one of them. The result is the index
/// of that lexeme.
pub proof fn lemma_token_character_is_read_from(source: Seq<char>, position: int, k: int) -> (i: int)
    requires
        0 <= position <= k < source.len(),
        token_character(source[k]),
    ensures
        0 <= i < lexemes_from(source, position).len(),
        lexemes_from(source, position)[i].start <= k < lexemes_from(source, position)[i].end,
    decreases source.len() - position,
{
    match lexeme_at(source, position) {
        Some(lexeme) => {
            lemma_lexeme_at(source, position);
            if k < lexeme.end {
                0
            } else {
                let rest = lexemes_from(source, lexeme.end);
                let i = lemma_token_character_is_read_from(source, lexeme.end, k);
                assert(lexemes_from(source, position)[i + 1] == rest[i]);
                i + 1
            }
        },
        None => {
            let i = lemma_token_character_is_read_from(source, position + 1, k);
            i
        },
    }
}

/// No character that tokens are made of is skipped: each lies in a lexeme
/// of the source text. The result is the index of that lexeme.
pub proof fn lemma_token_character_is_read(source: Seq<char>, k: int) -> (i: int)
    requires
        0 <= k < source.len(),
        token_character(source[k]),
    ensures
        0 <= i < lexemes(source).len(),
        lexemes(source)[i].start <= k < lexemes(source)[i].end,
{
    lemma_token_character_is_read_from(source, 0, k)
}

/// No other character lies in a lexeme: every character that a lexeme of
/// the source text covers is one that tokens are made of.
pub proof fn lemma_lexemes_hold_token_characters(source: Seq<char>, i: int, k: int)
    requires
        0 <= i < lexemes(source).len(),
        lexemes(source)[i].start <= k < lexemes(source)[i].end,
    ensures
        0 <= k < source.len(),
        token_character(source[k]),
{
    lemma_lexemes_from(source, 0);
    lemma_lexeme_at(source, lexemes(source)[i].start);
}

/// Joining the texts of the lexemes from a position on gives the rest of
/// the source text from there, without the characters that are skipped.
proof fn lemma_joined_text_from(source: Seq<char>, position: int)
    requires
        0 <= position <= source.len(),
    ensures
        joined_text(lexeme_tokens(source, lexemes_from(source, position))) == source.subrange(
            position,
            source.len() as int,
        ).filter(token_characters()),
    decreases source.len() - position,
{
    let rest_of_source = source.subrange(position, source.len() as int);
    let tokens = lexeme_tokens(source, lexemes_from(source, position));
    if position == source.len() {
        reveal(Seq::filter);
        assert(rest_of_source.len() == 0);
    } else {
        match lexeme_at(source, position) {
            Some(lexeme) => {
                lemma_lexeme_at(source, position);
                lemma_joined_text_from(source, lexeme.end);
                let text = source.subrange(position, lexeme.end);
                let behind = source.subrange(lexeme.end, source.len() as int);
                assert(rest_of_source =~= text + behind);
                Seq::filter_distributes_over_add(text, behind, token_characters());
                lemma_filter_keeps_all(text, token_characters());
                assert(tokens.first() == lexeme_token(source, lexeme));
                assert(tokens.drop_first() =~= lexeme_tokens(
                    source,
                    lexemes_from(source, lexeme.end),
                ));
            },
            None => {
                lemma_joined_text_from(source, position + 1);
                let behind = source.subrange(position + 1, source.len() as int);
                assert(rest_of_source =~= seq![source[position]] + behind);
                behind.lemma_filter_prepend(source[position], token_characters());
                assert(Seq::<char>::empty() + behind.filter(token_characters()) =~= behind.filter(
                    token_characters(),
                ));
            },
        }
    }
}

/// A filter keeps a text whole where it lets every character pass.
proof fn lemma_filter_keeps_all(text: Seq<char>, keep: spec_fn(char) -> bool)
    requires
        forall|i: int| 0 <= i < text.len() ==> keep(#[trigger] text[i]),
    ensures
        text.filter(keep) == text,
    decreases text.len(),
{
    reveal(Seq::filter);
    if text.len() > 0 {
        lemma_filter_keeps_all(text.drop_last(), keep);
        assert(text.drop_last().push(text.last()) =~= text);
    }
}

/// Two filters that agree on every character of a text leave the same of it.
proof fn lemma_filters_agree(
    text: Seq<char>,
    one: spec_fn(char) -> bool,
    other: spec_fn(char) -> bool,
)
    requires
        forall|i: int| 0 <= i < text.len() ==> one(#[trigger] text[i]) == other(text[i]),
    ensures
        text.filter(one) == text.filter(other),
    decreases text.len(),
{
    reveal(Seq::filter);
    if text.len() > 0 {
        lemma_filters_agree(text.drop_last(), one, other);
    }
}

/// Joining the texts of the tokens of a source text, in order and with
/// nothing between them, gives the source text without the characters that
/// are skipped: no character of a token is lost, changed or moved, and no
/// skipped character appears.
pub proof fn lemma_texts_spell_source(source: Seq<char>)
    ensures
        joined_text(tokens_of(source)) == source.filter(token_characters()),
{
    lemma_joined_text_from(source, 0);
    assert(source.subrange(0, source.len() as int) =~= source);
}

/// For a source text made of token characters and spaces only, joining the
/// texts of its tokens gives the source text with the spaces removed.
pub proof fn lemma_texts_spell_source_without_spaces(source: Seq<char>)
    requires
        forall|i: int|
            0 <= i < source.len() ==> token_character(#[trigger] source[i]) || source[i] == ' ',
    ensures
        joined_text(tokens_of(source)) == source.filter(no_space()),
{
    lemma_texts_spell_source(source);
    lemma_filters_agree(source, token_characters(), no_space());
}

} // verus!
