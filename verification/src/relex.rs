//! Lexing the text of a token again.
//!
//! A token owes nothing to what stands around it: its text alone, lexed as a
//! source text of its own, yields the same lexeme once more, and nothing
//! else.

use vstd::prelude::*;

use crate::error::ErrorView;
use crate::lex::{
    is_digit, is_operator_char, is_word_start, lemma_scan_advances, lemma_skip_trivia_bounds,
    lex_from, lex_spec, punctuation, run_len, scan, skip_trivia, span, CharClass, Token,
};

verus! {

/// The token `token` starts at the position `at` of `s`: a position in the
/// text that holds neither white space nor the start of a comment.
pub open spec fn token_at(s: Seq<char>, at: int, token: Token) -> bool {
    &&& 0 <= at < s.len()
    &&& skip_trivia(s, at, false) == at
    &&& scan(s, at).outcome == Ok::<Token, ErrorView>(token)
    &&& token.region == span(at, scan(s, at).next)
}

/// Skipping stops where nothing is to be skipped.
pub proof fn lemma_skip_trivia_stops(s: Seq<char>, p: int, in_comment: bool)
    requires
        0 <= p <= s.len(),
    ensures
        ({
            let at = skip_trivia(s, p, in_comment);
            skip_trivia(s, at, false) == at
        }),
    decreases s.len() - p,
{
    if p < s.len() {
        if in_comment {
            lemma_skip_trivia_stops(s, p + 1, s[p] != '\n');
        } else if s[p] == ' ' || s[p] == '\t' || s[p] == '\n' || s[p] == '\r' {
            lemma_skip_trivia_stops(s, p + 1, false);
        } else if s[p] == '#' {
            lemma_skip_trivia_stops(s, p + 1, true);
        }
    }
}

/// Every token that lexing yields starts at a position of the text at
/// which scanning yields that token.
pub proof fn lemma_tokens_are_scanned(s: Seq<char>, p: int, i: int)
    requires
        0 <= p <= s.len(),
        0 <= i < lex_from(s, p).0.len(),
    ensures
        exists|at: int| #[trigger] token_at(s, at, lex_from(s, p).0[i]),
    decreases s.len() - p,
{
    let at = skip_trivia(s, p, false);
    lemma_skip_trivia_bounds(s, p, false);
    lemma_skip_trivia_stops(s, p, false);
    lemma_scan_advances(s, at);
    let step = scan(s, at);
    let rest = lex_from(s, step.next);
    match step.outcome {
        Ok(token) => {
            if i == 0 {
                assert(lex_from(s, p).0[0] == token);
                assert(token_at(s, at, token));
            } else {
                assert(lex_from(s, p).0[i] == rest.0[i - 1]);
                lemma_tokens_are_scanned(s, step.next, i - 1);
            }
        },
        Err(_) => {
            lemma_tokens_are_scanned(s, step.next, i);
        },
    }
}

/// A run that fills the text from `p` up to `to` fills the part of the text
/// that ends at `to` just as well.
pub proof fn lemma_run_in_part(s: Seq<char>, from: int, p: int, to: int, class: CharClass)
    requires
        0 <= from <= p <= to <= s.len(),
        p + run_len(s, p, class) == to,
    ensures
        run_len(s.subrange(from, to), p - from, class) == to - p,
    decreases to - p,
{
    let part = s.subrange(from, to);
    if p < to {
        assert(part[p - from] == s[p]);
        lemma_run_in_part(s, from, p + 1, to, class);
    }
}

/// The text of a token, scanned from its start, yields the same lexeme and
/// ends where the text ends.
pub proof fn lemma_scan_of_token_text(s: Seq<char>, at: int, token: Token)
    requires
        token_at(s, at, token),
    ensures
        ({
            let to = scan(s, at).next;
            let part = s.subrange(at, to);
            &&& at < to <= s.len()
            &&& skip_trivia(part, 0, false) == 0
            &&& scan(part, 0).next == part.len()
            &&& scan(part, 0).outcome == Ok::<Token, ErrorView>(
                Token { lexeme: token.lexeme, region: span(0, part.len() as int) },
            )
        }),
{
    lemma_scan_advances(s, at);
    let to = scan(s, at).next;
    let part = s.subrange(at, to);
    assert(part[0] == s[at]);
    let c = s[at];
    if is_word_start(c) {
        lemma_run_in_part(s, at, at + 1, to, CharClass::Word);
    } else if is_digit(c) {
        lemma_run_in_part(s, at, at + 1, to, CharClass::Digit);
    } else if punctuation(c) is Some {
    } else if is_operator_char(c) {
        lemma_run_in_part(s, at, at + 1, to, CharClass::Operator);
    }
    assert(part.subrange(0, part.len() as int) =~= part);
}

/// Lexing the exact text of a token yields exactly one token, of the same
/// lexeme, that spans the whole of that text.
pub proof fn lemma_token_text_lexes_to_token(s: Seq<char>, at: int, token: Token)
    requires
        token_at(s, at, token),
    ensures
        ({
            let part = s.subrange(at, scan(s, at).next);
            lex_spec(part) == Ok::<Seq<Token>, Seq<ErrorView>>(
                seq![Token { lexeme: token.lexeme, region: span(0, part.len() as int) }],
            )
        }),
{
    lemma_scan_of_token_text(s, at, token);
    let part = s.subrange(at, scan(s, at).next);
    let again = Token { lexeme: token.lexeme, region: span(0, part.len() as int) };
    let rest = lex_from(part, part.len() as int);
    assert(rest.0 =~= Seq::<Token>::empty() && rest.1 =~= Seq::<ErrorView>::empty());
    assert(lex_from(part, 0).0 =~= seq![again]);
    assert(lex_from(part, 0).1 =~= Seq::<ErrorView>::empty());
}

/// A token lexes to itself. Where a source text can be lexed, the
/// text that the region of any one of its tokens spans, lexed by itself,
/// yields exactly one token: one of the same lexeme, whose region spans the
/// whole of that text.
pub proof fn lemma_relex_yields_the_token(source: Seq<char>, i: int)
    requires
        source.len() <= usize::MAX,
        lex_spec(source) is Ok,
        0 <= i < lex_spec(source)->Ok_0.len(),
    ensures
        ({
            let token = lex_spec(source)->Ok_0[i];
            let text = token.region.text(source);
            lex_spec(text) == Ok::<Seq<Token>, Seq<ErrorView>>(
                seq![Token { lexeme: token.lexeme, region: span(0, text.len() as int) }],
            )
        }),
{
    let token = lex_spec(source)->Ok_0[i];
    assert(token == lex_from(source, 0).0[i]);
    lemma_tokens_are_scanned(source, 0, i);
    let at = choose|at: int| #[trigger] token_at(source, at, token);
    lemma_scan_advances(source, at);
    lemma_token_text_lexes_to_token(source, at, token);
    assert(token.region.text(source) == source.subrange(at, scan(source, at).next));
}

} // verus!
