use ln_front::error::{Error, ErrorKind};
use ln_front::lex::{
    characters, is_digit, is_operator_char, is_space, is_word_start, lex, number_value,
    punctuation, CharClass, Lexeme, Token,
};
use ln_front::util::{SrcLoc, SrcRegion};

fn range(from: usize, to: usize) -> SrcRegion {
    SrcRegion::Range(SrcLoc(from), SrcLoc(to))
}

fn token(lexeme: Lexeme, from: usize, to: usize) -> Token {
    Token { lexeme, region: range(from, to) }
}

fn tokens_of(source: &str) -> Vec<Token> {
    match lex(source) {
        Ok((tokens, ctx)) => {
            assert_eq!(ctx.source(), source);
            tokens
        }
        Err(errors) => panic!("lexing failed: {:?}", errors),
    }
}

fn errors_of(source: &str) -> Vec<Error> {
    match lex(source) {
        Ok((tokens, _)) => panic!("lexing succeeded: {:?}", tokens),
        Err(errors) => errors,
    }
}

#[test]
fn an_empty_text_has_no_tokens() {
    assert_eq!(tokens_of(""), vec![]);
}

#[test]
fn white_space_and_comments_have_no_tokens() {
    assert_eq!(tokens_of(" \t\r\n"), vec![]);
    assert_eq!(tokens_of("# only a comment"), vec![]);
    assert_eq!(tokens_of("  # a $ comment ~ \n\t# another\n"), vec![]);
}

#[test]
fn a_number_spans_its_digits() {
    assert_eq!(tokens_of("42"), vec![token(Lexeme::Number, 0, 2)]);
    assert_eq!(tokens_of("  007 "), vec![token(Lexeme::Number, 2, 5)]);
}

#[test]
fn words_are_names_or_keywords() {
    assert_eq!(tokens_of("let"), vec![token(Lexeme::Let, 0, 3)]);
    assert_eq!(tokens_of("in"), vec![token(Lexeme::In, 0, 2)]);
    assert_eq!(tokens_of("lets"), vec![token(Lexeme::Ident, 0, 4)]);
    assert_eq!(tokens_of("le"), vec![token(Lexeme::Ident, 0, 2)]);
    assert_eq!(tokens_of("inn"), vec![token(Lexeme::Ident, 0, 3)]);
    assert_eq!(tokens_of("Let"), vec![token(Lexeme::Ident, 0, 3)]);
    assert_eq!(tokens_of("_x9_Y"), vec![token(Lexeme::Ident, 0, 5)]);
    assert_eq!(tokens_of("i"), vec![token(Lexeme::Ident, 0, 1)]);
}

#[test]
fn a_number_ends_where_a_word_starts() {
    assert_eq!(
        tokens_of("12ab3"),
        vec![token(Lexeme::Number, 0, 2), token(Lexeme::Ident, 2, 5)]
    );
}

#[test]
fn every_operator_is_read() {
    let cases = vec![
        ("=", Lexeme::Assign),
        ("+", Lexeme::Plus),
        ("-", Lexeme::Minus),
        ("*", Lexeme::Star),
        ("/", Lexeme::Slash),
        ("<", Lexeme::Less),
        (">", Lexeme::Greater),
        ("==", Lexeme::Eq),
        ("!=", Lexeme::NotEq),
        ("<=", Lexeme::LessEq),
        (">=", Lexeme::GreaterEq),
    ];
    for (text, lexeme) in cases {
        assert_eq!(tokens_of(text), vec![token(lexeme, 0, text.len())]);
    }
}

#[test]
fn the_longest_operator_wins() {
    assert_eq!(
        tokens_of("a<=b"),
        vec![token(Lexeme::Ident, 0, 1), token(Lexeme::LessEq, 1, 3), token(Lexeme::Ident, 3, 4)]
    );
    assert_eq!(
        tokens_of("a< =b"),
        vec![
            token(Lexeme::Ident, 0, 1),
            token(Lexeme::Less, 1, 2),
            token(Lexeme::Assign, 3, 4),
            token(Lexeme::Ident, 4, 5)
        ]
    );
}

#[test]
fn parentheses_are_single_tokens() {
    assert_eq!(
        tokens_of("(())"),
        vec![
            token(Lexeme::LParen, 0, 1),
            token(Lexeme::LParen, 1, 2),
            token(Lexeme::RParen, 2, 3),
            token(Lexeme::RParen, 3, 4)
        ]
    );
}

#[test]
fn a_binding_is_lexed_in_order() {
    assert_eq!(
        tokens_of("let x = 1 in\n  x + 10 # sum\n"),
        vec![
            token(Lexeme::Let, 0, 3),
            token(Lexeme::Ident, 4, 5),
            token(Lexeme::Assign, 6, 7),
            token(Lexeme::Number, 8, 9),
            token(Lexeme::In, 10, 12),
            token(Lexeme::Ident, 15, 16),
            token(Lexeme::Plus, 17, 18),
            token(Lexeme::Number, 19, 21),
        ]
    );
}

#[test]
fn regions_count_characters_not_bytes() {
    let errors = errors_of("é x");
    assert_eq!(errors, vec![Error::unexpected_char('é').at(Some(SrcRegion::Point(SrcLoc(0))))]);
    let errors = errors_of("x é");
    assert_eq!(errors, vec![Error::unexpected_char('é').at(Some(SrcRegion::Point(SrcLoc(2))))]);
}

#[test]
fn an_unknown_operator_is_reported_with_its_run() {
    assert_eq!(
        errors_of("let x ~ y"),
        vec![Error::unknown_operator("~".to_string()).at(Some(range(6, 7)))]
    );
    assert_eq!(
        errors_of("a =>b"),
        vec![Error::unknown_operator("=>".to_string()).at(Some(range(2, 4)))]
    );
    assert_eq!(errors_of("!"), vec![Error::unknown_operator("!".to_string()).at(Some(range(0, 1)))]);
    assert_eq!(
        errors_of("1 === 2"),
        vec![Error::unknown_operator("===".to_string()).at(Some(range(2, 5)))]
    );
    assert_eq!(
        errors_of("&|^%"),
        vec![Error::unknown_operator("&|^%".to_string()).at(Some(range(0, 4)))]
    );
}

#[test]
fn an_unexpected_character_is_reported_at_its_point() {
    assert_eq!(
        errors_of("a $ b"),
        vec![Error::unexpected_char('$').at(Some(SrcRegion::Point(SrcLoc(2))))]
    );
    assert_eq!(
        errors_of("\"text\""),
        vec![
            Error::unexpected_char('"').at(Some(SrcRegion::Point(SrcLoc(0)))),
            Error::unexpected_char('"').at(Some(SrcRegion::Point(SrcLoc(5)))),
        ]
    );
}

#[test]
fn lexing_goes_on_behind_a_failure_and_reports_all() {
    let errors = errors_of("a $ b ~~ c\n@");
    assert_eq!(
        errors,
        vec![
            Error::unexpected_char('$').at(Some(SrcRegion::Point(SrcLoc(2)))),
            Error::unknown_operator("~~".to_string()).at(Some(range(6, 8))),
            Error::unexpected_char('@').at(Some(SrcRegion::Point(SrcLoc(11)))),
        ]
    );
}

#[test]
fn no_lexing_failure_is_a_placeholder() {
    for source in ["$", "~", "a ? b ! c", "((( @ )))", "1 <> 2", "#\n$"] {
        let errors = errors_of(source);
        assert!(!errors.is_empty());
        for error in &errors {
            assert!(!error.is_spurious());
            assert_ne!(error.kind(), &ErrorKind::Spurious);
            assert!(error.region().expect("a region").fits(source));
        }
    }
}

#[test]
fn a_token_lexed_again_from_its_text_is_the_same_token() {
    let sources = [
        "let x = 1 in\n  x + 10 # sum\n",
        "(a<=b)==(c!=d)",
        "let in lets inn _ __ a1 1a",
        "1+2-3*4/5<6>7",
        "  42  ",
    ];
    for source in sources {
        for token_read in tokens_of(source) {
            let text = token_read.region.slice(source);
            let again = tokens_of(text);
            assert_eq!(again, vec![token(token_read.lexeme, 0, text.chars().count())]);
        }
    }
}

#[test]
fn token_regions_follow_one_another_in_the_text() {
    let source = "let long_name = (1 + 22) in long_name * 3";
    let tokens = tokens_of(source);
    let mut end = 0;
    for token in &tokens {
        assert!(token.region.fits(source));
        assert!(end <= token.region.start().offset());
        assert!(token.region.start().offset() < token.region.end().offset());
        end = token.region.end().offset();
    }
    let texts: Vec<&str> = tokens.iter().map(|token| token.region.slice(source)).collect();
    assert_eq!(
        texts,
        vec!["let", "long_name", "=", "(", "1", "+", "22", ")", "in", "long_name", "*", "3"]
    );
}

#[test]
fn characters_are_classified() {
    for c in [' ', '\t', '\n', '\r'] {
        assert!(is_space(c));
    }
    assert!(!is_space('x'));
    for c in '0'..='9' {
        assert!(is_digit(c));
        assert!(CharClass::Digit.holds(c));
        assert!(CharClass::Word.holds(c));
        assert!(!is_word_start(c));
    }
    assert!(!is_digit('a'));
    assert!(!is_digit('/'));
    assert!(!is_digit(':'));
    for c in ['a', 'z', 'A', 'Z', '_', 'm'] {
        assert!(is_word_start(c));
        assert!(CharClass::Word.holds(c));
        assert!(!CharClass::Digit.holds(c));
    }
    for c in ['`', '{', '@', '[', 'é'] {
        assert!(!is_word_start(c));
    }
    for c in "+-*/=<>!~&|^%".chars() {
        assert!(is_operator_char(c));
        assert!(CharClass::Operator.holds(c));
    }
    assert!(!is_operator_char('('));
    assert_eq!(punctuation('('), Some(Lexeme::LParen));
    assert_eq!(punctuation(')'), Some(Lexeme::RParen));
    assert_eq!(punctuation('['), None);
}

#[test]
fn binary_operators_are_told_apart() {
    for lexeme in [
        Lexeme::Plus,
        Lexeme::Minus,
        Lexeme::Star,
        Lexeme::Slash,
        Lexeme::Eq,
        Lexeme::NotEq,
        Lexeme::Less,
        Lexeme::LessEq,
        Lexeme::Greater,
        Lexeme::GreaterEq,
    ] {
        assert!(lexeme.is_binary_operator());
    }
    for lexeme in [
        Lexeme::Ident,
        Lexeme::Number,
        Lexeme::Let,
        Lexeme::In,
        Lexeme::LParen,
        Lexeme::RParen,
        Lexeme::Assign,
    ] {
        assert!(!lexeme.is_binary_operator());
    }
}

#[test]
fn characters_of_a_text() {
    assert_eq!(characters(""), Vec::<char>::new());
    assert_eq!(characters("aé\n"), vec!['a', 'é', '\n']);
}

#[test]
fn the_context_gives_the_text_of_a_token() {
    let source = "let total = (count + 12)";
    let (tokens, ctx) = lex(source).expect("lexing failed");
    let texts: Vec<&str> = tokens.iter().map(|token| ctx.text(token)).collect();
    assert_eq!(texts, vec!["let", "total", "=", "(", "count", "+", "12", ")"]);
}

#[test]
fn digits_spell_their_number() {
    assert_eq!(number_value("0"), Some(0));
    assert_eq!(number_value("7"), Some(7));
    assert_eq!(number_value("42"), Some(42));
    assert_eq!(number_value("007"), Some(7));
    assert_eq!(number_value("1234567890"), Some(1234567890));
    assert_eq!(number_value("18446744073709551615"), Some(u64::MAX));
}

#[test]
fn a_number_too_large_has_no_value() {
    assert_eq!(number_value("18446744073709551616"), None);
    assert_eq!(number_value("18446744073709551620"), None);
    assert_eq!(number_value("99999999999999999999999999"), None);
    assert_eq!(number_value("000018446744073709551615"), Some(u64::MAX));
}

#[test]
fn what_is_no_number_has_no_value() {
    assert_eq!(number_value(""), None);
    assert_eq!(number_value("x"), None);
    assert_eq!(number_value("12a"), None);
    assert_eq!(number_value("a12"), None);
    assert_eq!(number_value("1 2"), None);
    assert_eq!(number_value("-1"), None);
    assert_eq!(number_value("٣"), None);
}

#[test]
fn the_number_of_a_token_is_decoded_from_its_text() {
    let source = "(x + 250)";
    let (tokens, ctx) = lex(source).expect("lexing failed");
    let values: Vec<Option<u64>> =
        tokens.iter().map(|token| number_value(ctx.text(token))).collect();
    assert_eq!(values, vec![None, None, None, Some(250), None]);
}
