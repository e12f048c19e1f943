use ln_front::error::{push_kind, Error, ErrorCtx, ErrorKind};
use ln_front::lex::{lex, Lexeme};
use ln_front::parse::parse;
use ln_front::util::{SrcLoc, SrcRegion};
use ln_front::Thing;

fn point(at: usize) -> SrcRegion {
    SrcRegion::Point(SrcLoc(at))
}

fn range(from: usize, to: usize) -> SrcRegion {
    SrcRegion::Range(SrcLoc(from), SrcLoc(to))
}

#[test]
fn unexpected_eof_error_formatting() {
    let mut formatted_error = String::new();

    let ctx = ErrorCtx::new("unexpected_eof.ln", "let x ~ y");

    let error = lex(ctx.source())
        .and_then(|tkns| parse(&tkns.0))
        .err()
        .expect("parsing succeeded and it shouldn't have")
        .pop()
        .expect("no errors were provided");

    println!("{:?}", error);

    ctx.fmt_error(&error, &mut formatted_error);
    assert_eq!(
        formatted_error,
"~UnknownOperator(\"~\")".to_string(),
    );
}

#[test]
fn constructors_set_only_the_kind() {
    let cases = vec![
        (Error::spurious(), ErrorKind::Spurious),
        (Error::unexpected_char('$'), ErrorKind::UnexpectedChar('$')),
        (Error::unknown_operator("~".to_string()), ErrorKind::UnknownOperator("~".to_string())),
        (Error::unexpected_eof(), ErrorKind::UnexpectedEof),
        (Error::expected(Thing::Atom), ErrorKind::Expected(Thing::Atom)),
        (Error::too_deep(), ErrorKind::TooDeep),
    ];
    for (error, kind) in cases {
        assert_eq!(error.kind(), &kind);
        assert_eq!(error.region(), None);
        assert!(error.contexts().is_empty());
        assert_eq!(error.advice(), None);
        assert_eq!(error, Error::from(kind));
    }
}

#[test]
fn only_the_placeholder_is_spurious() {
    assert!(Error::spurious().is_spurious());
    assert!(!Error::unexpected_eof().is_spurious());
    assert!(!Error::expected(Thing::Expr).is_spurious());
}

#[test]
fn at_overwrites_the_region() {
    let error = Error::unexpected_eof().at(Some(point(3)));
    assert_eq!(error.region(), Some(point(3)));
    let error = error.at(Some(range(1, 2)));
    assert_eq!(error.region(), Some(range(1, 2)));
    let error = error.at(None);
    assert_eq!(error.region(), None);
    assert_eq!(error.kind(), &ErrorKind::UnexpectedEof);
}

#[test]
fn while_parsing_appends_the_outer_context_last() {
    let error = Error::expected(Thing::Ident)
        .while_parsing(Thing::Atom)
        .while_parsing(Thing::Expr);
    assert_eq!(error.contexts(), &vec![Thing::Atom, Thing::Expr]);
}

#[test]
fn hint_overwrites_the_advice() {
    let error = Error::unexpected_eof().hint("first");
    assert_eq!(error.advice(), Some("first"));
    let error = error.hint("second");
    assert_eq!(error.advice(), Some("second"));
}

#[test]
fn a_lexeme_becomes_a_thing() {
    assert_eq!(Thing::from(Lexeme::RParen), Thing::Lexeme(Lexeme::RParen));
    let thing: Thing = Lexeme::Let.into();
    assert_eq!(thing, Thing::Lexeme(Lexeme::Let));
}

#[test]
fn max_prefers_the_later_start() {
    let near = Error::expected(Thing::Atom).at(Some(range(2, 9)));
    let far = Error::expected(Thing::Ident).at(Some(point(5)));
    assert_eq!(near.clone().max(far.clone()), far);
    assert_eq!(far.clone().max(near.clone()), far);
}

#[test]
fn max_prefers_the_diagnostic_with_a_region() {
    let placed = Error::unexpected_eof().at(Some(point(0)));
    let unplaced = Error::expected(Thing::Expr);
    assert_eq!(placed.clone().max(unplaced.clone()), placed);
    assert_eq!(unplaced.clone().max(placed.clone()), placed);
}

#[test]
fn max_falls_back_to_the_second_on_a_tie() {
    let first = Error::expected(Thing::Atom).at(Some(range(4, 5)));
    let second = Error::expected(Thing::Ident).at(Some(range(4, 8)));
    assert_eq!(first.clone().max(second.clone()), second);
    assert_eq!(second.clone().max(first.clone()), first);
    let a = Error::unexpected_eof();
    let b = Error::expected(Thing::Operator);
    assert_eq!(a.clone().max(b.clone()), b);
    assert_eq!(b.clone().max(a.clone()), a);
}

#[test]
fn max_drops_the_placeholder() {
    let found = Error::unexpected_eof();
    assert_eq!(Error::spurious().max(found.clone()), found);
    let placed = Error::unexpected_char('?').at(Some(point(1)));
    assert_eq!(placed.clone().max(Error::spurious()), placed);
    assert_eq!(Error::spurious().max(placed.clone()), placed);
}

#[test]
fn max_is_associative_on_three_diagnostics() {
    let all = vec![
        Error::unexpected_eof(),
        Error::expected(Thing::Atom).at(Some(point(3))),
        Error::expected(Thing::Ident).at(Some(range(3, 4))),
        Error::expected(Thing::Expr).at(Some(point(7))),
        Error::expected(Thing::Operator).at(Some(point(0))),
    ];
    for a in &all {
        for b in &all {
            for c in &all {
                let left = a.clone().max(b.clone()).max(c.clone());
                let right = a.clone().max(b.clone().max(c.clone()));
                assert_eq!(left, right);
            }
        }
    }
}

#[test]
fn max_of_three_is_the_farthest_and_the_last_of_equals() {
    let a = Error::expected(Thing::Atom).at(Some(point(7)));
    let b = Error::expected(Thing::Ident).at(Some(point(2)));
    let c = Error::expected(Thing::Expr).at(Some(point(7)));
    assert_eq!(a.clone().max(b.clone()).max(c.clone()), c);
    assert_eq!(c.clone().max(b.clone()).max(a.clone()), a);
    assert_eq!(a.clone().max(c.clone()).max(b.clone()), c);
    assert_eq!(b.clone().max(a.clone()).max(Error::unexpected_eof()), a);
}

fn all_lexemes() -> Vec<Lexeme> {
    vec![
        Lexeme::Ident,
        Lexeme::Number,
        Lexeme::Let,
        Lexeme::In,
        Lexeme::LParen,
        Lexeme::RParen,
        Lexeme::Assign,
        Lexeme::Plus,
        Lexeme::Minus,
        Lexeme::Star,
        Lexeme::Slash,
        Lexeme::Eq,
        Lexeme::NotEq,
        Lexeme::Less,
        Lexeme::LessEq,
        Lexeme::Greater,
        Lexeme::GreaterEq,
    ]
}

#[test]
fn rendering_without_a_region_is_the_kind_alone() {
    let ctx = ErrorCtx::new("unexpected_eof.ln", "let x ~ y");
    let mut out = String::new();
    ctx.fmt_error(&Error::unexpected_eof(), &mut out);
    assert_eq!(out, "UnexpectedEof");
}

#[test]
fn rendering_appends_to_what_the_output_holds() {
    let ctx = ErrorCtx::new("t.ln", "let x ~ y");
    let mut out = String::from("error: ");
    ctx.fmt_error(&Error::unexpected_char('~'), &mut out);
    assert_eq!(out, "error: UnexpectedChar('~')");
}

#[test]
fn rendering_puts_the_text_of_the_region_in_front_of_the_kind() {
    let ctx = ErrorCtx::new("t.ln", "42");
    let mut out = String::new();
    ctx.fmt_error(&Error::expected(Thing::Ident).at(Some(range(0, 2))), &mut out);
    assert_eq!(out, "42Expected(Ident)");
}

#[test]
fn rendering_names_every_kind() {
    let ctx = ErrorCtx::new("f.ln", "");
    assert_eq!(ctx.render(&Error::unexpected_char('$')), "UnexpectedChar('$')");
    assert_eq!(ctx.render(&Error::unknown_operator("=>".to_string())), "UnknownOperator(\"=>\")");
    assert_eq!(ctx.render(&Error::unexpected_eof()), "UnexpectedEof");
    assert_eq!(ctx.render(&Error::expected(Thing::Atom)), "Expected(Atom)");
    assert_eq!(ctx.render(&Error::expected(Thing::Ident)), "Expected(Ident)");
    assert_eq!(ctx.render(&Error::expected(Thing::Expr)), "Expected(Expr)");
    assert_eq!(ctx.render(&Error::expected(Thing::Operator)), "Expected(Operator)");
    assert_eq!(
        ctx.render(&Error::expected(Thing::Lexeme(Lexeme::RParen))),
        "Expected(Lexeme(RParen))"
    );
    assert_eq!(ctx.render(&Error::too_deep()), "TooDeep");
}

#[test]
fn rendering_escapes_characters_and_strings_as_debug_does() {
    let ctx = ErrorCtx::new("f.ln", "");
    assert_eq!(ctx.render(&Error::unexpected_char('\'')), "UnexpectedChar('\\'')");
    assert_eq!(ctx.render(&Error::unexpected_char('"')), "UnexpectedChar('\"')");
    assert_eq!(ctx.render(&Error::unexpected_char('\\')), "UnexpectedChar('\\\\')");
    assert_eq!(ctx.render(&Error::unexpected_char('\u{7f}')), "UnexpectedChar('\\u{7f}')");
    assert_eq!(ctx.render(&Error::unexpected_char('é')), "UnexpectedChar('é')");
    assert_eq!(
        ctx.render(&Error::unknown_operator("a\"b\\c\n".to_string())),
        "UnknownOperator(\"a\\\"b\\\\c\\n\")"
    );
    assert_eq!(ctx.render(&Error::unknown_operator(String::new())), "UnknownOperator(\"\")");
}

#[test]
fn rendering_a_kind_is_what_debug_prints() {
    let ctx = ErrorCtx::new("f.ln", "");
    let mut errors = vec![
        Error::unexpected_char('~'),
        Error::unexpected_char('\t'),
        Error::unknown_operator("~".to_string()),
        Error::unknown_operator("<=>".to_string()),
        Error::unexpected_eof(),
        Error::expected(Thing::Atom),
        Error::expected(Thing::Ident),
        Error::expected(Thing::Expr),
        Error::expected(Thing::Operator),
        Error::too_deep(),
    ];
    for lexeme in all_lexemes() {
        errors.push(Error::expected(Thing::from(lexeme)));
    }
    for error in &errors {
        assert_eq!(ctx.render(error), format!("{:?}", error.kind()));
    }
}

#[test]
fn names_of_lexemes_and_things_are_what_debug_prints() {
    for lexeme in all_lexemes() {
        assert_eq!(lexeme.name(), format!("{:?}", lexeme));
        let mut out = String::from("> ");
        Thing::Lexeme(lexeme).push_debug(&mut out);
        assert_eq!(out, format!("> {:?}", Thing::Lexeme(lexeme)));
    }
    for thing in [Thing::Atom, Thing::Ident, Thing::Expr, Thing::Operator] {
        let mut out = String::new();
        thing.push_debug(&mut out);
        assert_eq!(out, format!("{:?}", thing));
    }
    assert_eq!(Lexeme::RParen.name(), "RParen");
    assert_eq!(Lexeme::GreaterEq.name(), "GreaterEq");
}

#[test]
fn a_kind_is_pushed_around_the_given_payload() {
    let mut out = String::from("> ");
    push_kind(&mut out, &ErrorKind::UnexpectedChar('x'), "PAYLOAD");
    assert_eq!(out, "> UnexpectedChar(PAYLOAD)");
    let mut out = String::new();
    push_kind(&mut out, &ErrorKind::UnknownOperator("~".to_string()), "\"~\"");
    assert_eq!(out, "UnknownOperator(\"~\")");
    let mut out = String::new();
    push_kind(&mut out, &ErrorKind::Expected(Thing::Lexeme(Lexeme::In)), "unused");
    assert_eq!(out, "Expected(Lexeme(In))");
    let mut out = String::new();
    push_kind(&mut out, &ErrorKind::UnexpectedEof, "unused");
    assert_eq!(out, "UnexpectedEof");
    let mut out = String::new();
    push_kind(&mut out, &ErrorKind::TooDeep, "unused");
    assert_eq!(out, "TooDeep");
    let mut out = String::new();
    push_kind(&mut out, &ErrorKind::Spurious, "unused");
    assert_eq!(out, "Spurious");
}

#[test]
fn rendering_with_a_given_payload() {
    let ctx = ErrorCtx::new("f.ln", "a $ b");
    let error = Error::unexpected_char('$').at(Some(point(2))).while_parsing(Thing::Expr);
    let mut out = String::new();
    ctx.fmt_error_with(&error, "'$'", &mut out);
    assert_eq!(out, "$UnexpectedChar('$'), while parsing Expr");
    let mut same = String::new();
    ctx.fmt_error(&error, &mut same);
    assert_eq!(same, out);
}

#[test]
fn rendering_shows_region_contexts_and_hint() {
    let ctx = ErrorCtx::new("dir/main.ln", "let a = 1 in\n  (a + 22 33)");
    let error = Error::expected(Thing::Lexeme(Lexeme::RParen))
        .at(Some(range(23, 25)))
        .while_parsing(Thing::Atom)
        .while_parsing(Thing::Expr)
        .hint("close the parenthesis");
    let mut out = String::from("> ");
    ctx.fmt_error(&error, &mut out);
    assert_eq!(
        out,
        "> 33Expected(Lexeme(RParen)), while parsing Atom, while parsing Expr; hint: close the parenthesis"
    );
}

#[test]
fn rendering_shows_a_hint_without_contexts() {
    let ctx = ErrorCtx::new("h.ln", "a = 1");
    let error = Error::expected(Thing::Operator).at(Some(range(2, 3))).hint("did you mean `==`?");
    assert_eq!(ctx.render(&error), "=Expected(Operator); hint: did you mean `==`?");
}

#[test]
fn rendering_a_point_shows_the_character_behind_it() {
    let ctx = ErrorCtx::new("p.ln", "a $ b");
    let error = Error::unexpected_char('$').at(Some(point(2)));
    assert_eq!(ctx.render(&error), "$UnexpectedChar('$')");
}

#[test]
fn rendering_a_point_at_the_end_shows_nothing_of_the_text() {
    let ctx = ErrorCtx::new("p.ln", "(1");
    let error = Error::expected(Thing::Lexeme(Lexeme::RParen)).at(Some(point(2)));
    assert_eq!(ctx.render(&error), "Expected(Lexeme(RParen))");
}

#[test]
fn rendering_a_range_over_several_lines_shows_all_of_it() {
    let ctx = ErrorCtx::new("m.ln", "(1 +\n 2)");
    let error = Error::expected(Thing::Operator).at(Some(range(0, 8)));
    assert_eq!(ctx.render(&error), "(1 +\n 2)Expected(Operator)");
}

#[test]
fn rendering_what_the_front_end_reports() {
    let source = "let x = (1 + ) in x";
    let (tokens, _) = lex(source).expect("lexing failed");
    let errors = parse(&tokens).err().expect("parsing succeeded");
    let ctx = ErrorCtx::new("r.ln", source);
    assert_eq!(
        ctx.render(&errors[0]),
        ")Expected(Atom), while parsing Expr, while parsing Expr, while parsing Expr"
    );
}

#[test]
fn a_context_tells_what_it_can_show() {
    let ctx = ErrorCtx::new("c.ln", "abc");
    assert_eq!(ctx.file_name(), "c.ln");
    assert_eq!(ctx.source(), "abc");
    assert!(!ctx.can_show(&Error::spurious()));
    assert!(ctx.can_show(&Error::unexpected_eof()));
    assert!(ctx.can_show(&Error::unexpected_eof().at(Some(point(3)))));
    assert!(!ctx.can_show(&Error::unexpected_eof().at(Some(point(4)))));
    assert!(ctx.can_show(&Error::unexpected_eof().at(Some(range(1, 3)))));
    assert!(!ctx.can_show(&Error::unexpected_eof().at(Some(range(2, 1)))));
    assert!(!ctx.can_show(&Error::unexpected_eof().at(Some(range(1, 4)))));
}
