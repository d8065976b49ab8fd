//! From text to tokens that the parser takes.
//!
//! The scanner leaves the numerals without values, and the parser wants
//! every number token to carry one. Once the numerals have been given
//! values, the tokens of any text are well formed.

use vstd::prelude::*;
use crate::parser::well_formed;
use crate::scanner::{end_token, numerals, scan_from, scan_one, scanned, valued, lemma_scan_one_advances};
use crate::token::{Token, TokenKind, TokenView, views};

verus! {

/// A token as the scanner makes it: not the end token, a string token with
/// its text, a number token without a value.
pub open spec fn fresh(token: TokenView) -> bool {
    &&& token.kind != TokenKind::Eof
    &&& token.kind == TokenKind::String ==> token.literal is String
    &&& token.kind == TokenKind::Number ==> token.literal is Nil
}

/// The token of a lexeme is fresh.
pub proof fn lemma_lexeme_fresh(source: Seq<char>, start: int, line: int)
    requires
        0 <= start < source.len(),
    ensures
        scan_one(source, start, line).token matches Some(token) ==> fresh(token),
{
}

/// The tokens of a stretch of text are fresh.
pub proof fn lemma_lexemes_fresh(source: Seq<char>, start: int, line: int)
    ensures
        forall|i: int|
            0 <= i < scan_from(source, start, line).tokens.len() ==> fresh(
                #[trigger] scan_from(source, start, line).tokens[i],
            ),
    decreases source.len() - start,
{
    if 0 <= start < source.len() {
        let step = scan_one(source, start, line);
        lemma_scan_one_advances(source, start, line);
        lemma_lexeme_fresh(source, start, line);
        lemma_lexemes_fresh(source, step.next, step.line);
        let rest = scan_from(source, step.next, step.line).tokens;
        let first = crate::scanner::optional(step.token);
        let all = scan_from(source, start, line).tokens;
        assert(all == first + rest);
        assert forall|i: int| 0 <= i < all.len() implies fresh(#[trigger] all[i]) by {
            if i < first.len() {
                assert(all[i] == first[i]);
            } else {
                assert(all[i] == rest[i - first.len()]);
            }
        }
    }
}

/// Giving values changes nothing but the payload of the number tokens, and
/// every number token gets a value if there are values enough.
pub proof fn lemma_valued(tokens: Seq<TokenView>, values: Seq<u64>)
    requires
        numerals(tokens).len() <= values.len(),
    ensures
        valued(tokens, values).len() == tokens.len(),
        forall|i: int|
            0 <= i < tokens.len() ==> {
                let before = #[trigger] tokens[i];
                let after = valued(tokens, values)[i];
                &&& after.kind == before.kind
                &&& after.lexeme == before.lexeme
                &&& after.line == before.line
                &&& before.kind == TokenKind::Number ==> after.literal is Number
                &&& before.kind != TokenKind::Number ==> after.literal == before.literal
            },
    decreases tokens.len(),
{
    if tokens.len() > 0 {
        let rest = tokens.drop_last();
        lemma_valued(rest, values);
        assert forall|i: int| 0 <= i < tokens.len() implies {
            let before = #[trigger] tokens[i];
            let after = valued(tokens, values)[i];
            &&& after.kind == before.kind
            &&& after.lexeme == before.lexeme
            &&& after.line == before.line
            &&& before.kind == TokenKind::Number ==> after.literal is Number
            &&& before.kind != TokenKind::Number ==> after.literal == before.literal
        } by {
            if i < rest.len() {
                assert(tokens[i] == rest[i]);
            }
        }
    }
}

/// The tokens of a text, with values for all their numerals, are well
/// formed: the parser takes them.
pub proof fn lemma_valued_tokens_well_formed(source: Seq<char>, values: Seq<u64>, tokens: Seq<Token>)
    requires
        views(tokens) == valued(scanned(source), values),
        numerals(scanned(source)).len() <= values.len(),
    ensures
        well_formed(tokens),
{
    let found = scan_from(source, 0, 1);
    let all = scanned(source);
    lemma_lexemes_fresh(source, 0, 1);
    lemma_valued(all, values);
    assert(tokens.len() == views(tokens).len());
    assert forall|i: int| 0 <= i < tokens.len() implies (#[trigger] tokens[i]).carries_value() by {
        assert(views(tokens)[i] == tokens[i]@);
        if i < found.tokens.len() {
            assert(all[i] == found.tokens[i]);
            assert(fresh(found.tokens[i]));
        } else {
            assert(all[i] == end_token(found.line));
        }
    }
    assert(views(tokens).last() == tokens.last()@);
    assert(all.last() == end_token(found.line));
}

} // verus!
