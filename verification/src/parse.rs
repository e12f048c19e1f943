//! The parser: from tokens to a syntax tree.
//!
//! The grammar, with `NUMBER` and `NAME` for the two lexemes of those kinds
//! and `OPERATOR` for any of `+ - * / == != < <= > >=`:
//!
//! ```text
//! program := expr
//! expr    := "let" NAME "=" expr "in" expr
//!          | atom
//!          | atom OPERATOR atom
//! atom    := NUMBER
//!          | NAME
//!          | "(" expr ")"
//! ```
//!
//! Each rule is a function from a position in the tokens to a tree and the
//! position behind it, or to a diagnostic. A rule with several alternatives
//! tries each from the same position; where all fail, it reports the failure
//! that lies farthest into the source text.

use vstd::prelude::*;

use crate::error::{views, Error, ErrorView, KindView};
use crate::grammar::{
    derives, lemma_parse_accepts_the_grammar, lemma_parse_spans_the_tokens, lexemes_of,
};
use crate::lex::{reportable, tokens_in_order, tokens_within, Lexeme, Token};
use crate::util::SrcRegion;
use crate::Thing;

verus! {

/// A syntax tree. Every node holds the region of the source text that it
/// was parsed from.
#[derive(Debug, PartialEq, Eq)]
pub enum Ast {
    /// A number.
    Number { region: SrcRegion },
    /// A name.
    Ident { region: SrcRegion },
    /// An expression in parentheses.
    Paren { region: SrcRegion, inner: Box<Ast> },
    /// Two operands joined by an operator.
    Binary { region: SrcRegion, operator: Lexeme, left: Box<Ast>, right: Box<Ast> },
    /// A name bound to a value in a body. `name` is the region of the name.
    Let { region: SrcRegion, name: SrcRegion, value: Box<Ast>, body: Box<Ast> },
}

impl Ast {
    /// The region of the source text that the node was parsed from.
    pub open spec fn spec_region(&self) -> SrcRegion {
        match self {
            Ast::Number { region } => *region,
            Ast::Ident { region } => *region,
            Ast::Paren { region, .. } => *region,
            Ast::Binary { region, .. } => *region,
            Ast::Let { region, .. } => *region,
        }
    }

    #[verifier::when_used_as_spec(spec_region)]
    pub fn region(&self) -> (region: SrcRegion)
        ensures
            region == self.spec_region(),
    {
        match self {
            Ast::Number { region } => *region,
            Ast::Ident { region } => *region,
            Ast::Paren { region, .. } => *region,
            Ast::Binary { region, .. } => *region,
            Ast::Let { region, .. } => *region,
        }
    }
}

impl Clone for Ast {
    fn clone(&self) -> (copy: Ast)
        ensures
            copy == *self,
        decreases self,
    {
        match self {
            Ast::Number { region } => Ast::Number { region: *region },
            Ast::Ident { region } => Ast::Ident { region: *region },
            Ast::Paren { region, inner } => Ast::Paren {
                region: *region,
                inner: Box::new((**inner).clone()),
            },
            Ast::Binary { region, operator, left, right } => Ast::Binary {
                region: *region,
                operator: *operator,
                left: Box::new((**left).clone()),
                right: Box::new((**right).clone()),
            },
            Ast::Let { region, name, value, body } => Ast::Let {
                region: *region,
                name: *name,
                value: Box::new((**value).clone()),
                body: Box::new((**body).clone()),
            },
        }
    }
}

/// How deeply expressions may be nested in one another.
pub const MAX_DEPTH: usize = 256;

/// The position at which the tokens end: behind the last token. Without a
/// token there is none.
pub open spec fn end_of_input(tokens: Seq<Token>) -> Option<SrcRegion> {
    if tokens.len() == 0 {
        None
    } else {
        Some(SrcRegion::Point(tokens.last().region.end()))
    }
}

/// The failure to find `thing` at the position `pos`. Where another token
/// stands there, the thing was expected in its place. Where the tokens have
/// ended, a lexeme was expected at the end of the input, and for anything
/// else the input ended too soon.
pub open spec fn missing(tokens: Seq<Token>, pos: int, thing: Thing) -> ErrorView {
    if 0 <= pos < tokens.len() {
        ErrorView::plain(KindView::Expected(thing)).at(Some(tokens[pos].region))
    } else if thing is Lexeme {
        ErrorView::plain(KindView::Expected(thing)).at(end_of_input(tokens))
    } else {
        ErrorView::plain(KindView::UnexpectedEof).at(end_of_input(tokens))
    }
}

/// The failure to go deeper at the position `pos`.
pub open spec fn too_deep(tokens: Seq<Token>, pos: int) -> ErrorView {
    ErrorView::plain(KindView::TooDeep).at(
        if 0 <= pos < tokens.len() {
            Some(tokens[pos].region)
        } else {
            end_of_input(tokens)
        },
    )
}

/// The position behind the lexeme `lexeme`, if it stands at `pos`.
pub open spec fn expect(tokens: Seq<Token>, pos: int, lexeme: Lexeme) -> Result<int, ErrorView> {
    if 0 <= pos < tokens.len() && tokens[pos].lexeme == lexeme {
        Ok(pos + 1)
    } else {
        Err(missing(tokens, pos, Thing::Lexeme(lexeme)))
    }
}

/// The outcome of two alternatives: that of the first that succeeds, and
/// where both fail, the failure that lies farther into the source text.
pub open spec fn either(
    first: Result<(Ast, int), ErrorView>,
    second: Result<(Ast, int), ErrorView>,
) -> Result<(Ast, int), ErrorView> {
    match first {
        Ok(_) => first,
        Err(a) => match second {
            Ok(_) => second,
            Err(b) => Err(a.max(b)),
        },
    }
}

/// The atom that is the number at `pos`, which lies in the tokens.
pub open spec fn number_atom(tokens: Seq<Token>, pos: int) -> Result<(Ast, int), ErrorView> {
    if tokens[pos].lexeme == Lexeme::Number {
        Ok((Ast::Number { region: tokens[pos].region }, pos + 1))
    } else {
        Err(missing(tokens, pos, Thing::Atom))
    }
}

/// The atom that is the name at `pos`, which lies in the tokens.
pub open spec fn name_atom(tokens: Seq<Token>, pos: int) -> Result<(Ast, int), ErrorView> {
    if tokens[pos].lexeme == Lexeme::Ident {
        Ok((Ast::Ident { region: tokens[pos].region }, pos + 1))
    } else {
        Err(missing(tokens, pos, Thing::Atom))
    }
}

/// The atom that is the expression in parentheses at `pos`, which lies in
/// the tokens.
pub open spec fn paren_atom(tokens: Seq<Token>, pos: int, budget: nat) -> Result<
    (Ast, int),
    ErrorView,
>
    decreases budget, 1nat,
{
    if tokens[pos].lexeme != Lexeme::LParen {
        Err(missing(tokens, pos, Thing::Atom))
    } else {
        match parse_expr(tokens, pos + 1, budget) {
            Err(error) => Err(error),
            Ok((inner, close)) => match expect(tokens, close, Lexeme::RParen) {
                Err(error) => Err(error),
                Ok(next) => Ok(
                    (
                        Ast::Paren {
                            region: tokens[pos].region.cover(tokens[close].region),
                            inner: Box::new(inner),
                        },
                        next,
                    ),
                ),
            },
        }
    }
}

/// The atom at `pos`: a number, a name, or an expression in parentheses.
pub open spec fn parse_atom(tokens: Seq<Token>, pos: int, budget: nat) -> Result<
    (Ast, int),
    ErrorView,
>
    decreases budget, 2nat,
{
    if 0 <= pos < tokens.len() {
        either(
            either(number_atom(tokens, pos), name_atom(tokens, pos)),
            paren_atom(tokens, pos, budget),
        )
    } else {
        Err(missing(tokens, pos, Thing::Atom))
    }
}

/// The operation at `pos`: an atom, or two atoms joined by an operator.
pub open spec fn parse_binary(tokens: Seq<Token>, pos: int, budget: nat) -> Result<
    (Ast, int),
    ErrorView,
>
    decreases budget, 3nat,
{
    match parse_atom(tokens, pos, budget) {
        Err(error) => Err(error),
        Ok((left, then)) => if 0 <= then < tokens.len()
            && tokens[then].lexeme.is_binary_operator() {
            match parse_atom(tokens, then + 1, budget) {
                Err(error) => Err(error),
                Ok((right, next)) => Ok(
                    (
                        Ast::Binary {
                            region: left.region().cover(right.region()),
                            operator: tokens[then].lexeme,
                            left: Box::new(left),
                            right: Box::new(right),
                        },
                        next,
                    ),
                ),
            }
        } else {
            Ok((left, then))
        },
    }
}

/// The failure to find `=` behind the name of a binding. Where `==` stands
/// there, the failure carries advice.
pub open spec fn missing_assign(tokens: Seq<Token>, pos: int) -> ErrorView {
    let error = missing(tokens, pos, Thing::Lexeme(Lexeme::Assign));
    if 0 <= pos < tokens.len() && tokens[pos].lexeme == Lexeme::Eq {
        error.hint("a name is bound with `=`"@)
    } else {
        error
    }
}

/// The binding at `pos`: `let`, a name, `=`, the value, `in`, the body.
pub open spec fn parse_let(tokens: Seq<Token>, pos: int, budget: nat) -> Result<
    (Ast, int),
    ErrorView,
>
    decreases budget, 3nat,
{
    if expect(tokens, pos, Lexeme::Let) is Err {
        Err(missing(tokens, pos, Thing::Lexeme(Lexeme::Let)))
    } else if !(pos + 1 < tokens.len() && tokens[pos + 1].lexeme == Lexeme::Ident) {
        Err(missing(tokens, pos + 1, Thing::Ident))
    } else if expect(tokens, pos + 2, Lexeme::Assign) is Err {
        Err(missing_assign(tokens, pos + 2))
    } else {
        match parse_expr(tokens, pos + 3, budget) {
            Err(error) => Err(error),
            Ok((value, then)) => match expect(tokens, then, Lexeme::In) {
                Err(error) => Err(error),
                Ok(start) => match parse_expr(tokens, start, budget) {
                    Err(error) => Err(error),
                    Ok((body, next)) => Ok(
                        (
                            Ast::Let {
                                region: tokens[pos].region.cover(body.region()),
                                name: tokens[pos + 1].region,
                                value: Box::new(value),
                                body: Box::new(body),
                            },
                            next,
                        ),
                    ),
                },
            },
        }
    }
}

/// The expression at `pos`: a binding or an operation. `depth` is how many
/// expressions may still be entered, this one included. A failure carries
/// the expression as its outermost context.
pub open spec fn parse_expr(tokens: Seq<Token>, pos: int, depth: nat) -> Result<
    (Ast, int),
    ErrorView,
>
    decreases depth, 0nat,
{
    let outcome = if depth == 0 {
        Err(too_deep(tokens, pos))
    } else {
        either(
            parse_let(tokens, pos, (depth - 1) as nat),
            parse_binary(tokens, pos, (depth - 1) as nat),
        )
    };
    match outcome {
        Ok(found) => Ok(found),
        Err(error) => Err(error.while_parsing(Thing::Expr)),
    }
}

/// The failure to find the end of the input behind a whole expression:
/// only an operator could have gone on. Where `=` stands there, the failure
/// carries advice.
pub open spec fn trailing(tokens: Seq<Token>, pos: int) -> ErrorView {
    let error = missing(tokens, pos, Thing::Operator);
    if tokens[pos].lexeme == Lexeme::Assign {
        error.hint("did you mean `==`?"@)
    } else {
        error
    }
}

/// What parsing the tokens yields: the tree of the one expression that they
/// spell, or the one diagnostic that tells best why they spell none.
pub open spec fn parse_spec(tokens: Seq<Token>) -> Result<Ast, Seq<ErrorView>> {
    match parse_expr(tokens, 0, MAX_DEPTH as nat) {
        Err(error) => Err(seq![error]),
        Ok((ast, end)) => if 0 <= end < tokens.len() {
            Err(seq![trailing(tokens, end)])
        } else {
            Ok(ast)
        },
    }
}

/// The outcome of a rule, as computed, is the outcome that the grammar
/// gives: the same tree and position, or a diagnostic of the same value.
pub open spec fn agrees(
    outcome: Result<(Ast, usize), Error>,
    model: Result<(Ast, int), ErrorView>,
) -> bool {
    match outcome {
        Ok((ast, next)) => model == Ok::<(Ast, int), ErrorView>((ast, next as int)),
        Err(error) => model == Err::<(Ast, int), ErrorView>(error@),
    }
}

fn end_region(tokens: &[Token]) -> (region: Option<SrcRegion>)
    ensures
        region == end_of_input(tokens@),
{
    if tokens.len() == 0 {
        None
    } else {
        Some(SrcRegion::Point(tokens[tokens.len() - 1].region.end()))
    }
}

fn report_missing(tokens: &[Token], pos: usize, thing: Thing) -> (error: Error)
    ensures
        error@ == missing(tokens@, pos as int, thing),
{
    if pos < tokens.len() {
        Error::expected(thing).at(Some(tokens[pos].region))
    } else {
        match thing {
            Thing::Lexeme(_) => Error::expected(thing).at(end_region(tokens)),
            _ => Error::unexpected_eof().at(end_region(tokens)),
        }
    }
}

fn report_too_deep(tokens: &[Token], pos: usize) -> (error: Error)
    ensures
        error@ == too_deep(tokens@, pos as int),
{
    if pos < tokens.len() {
        Error::too_deep().at(Some(tokens[pos].region))
    } else {
        Error::too_deep().at(end_region(tokens))
    }
}

fn require(tokens: &[Token], pos: usize, lexeme: Lexeme) -> (outcome: Result<usize, Error>)
    ensures
        match outcome {
            Ok(next) => expect(tokens@, pos as int, lexeme) == Ok::<int, ErrorView>(next as int)
                && next == pos + 1 && pos < tokens.len(),
            Err(error) => expect(tokens@, pos as int, lexeme) == Err::<int, ErrorView>(error@),
        },
{
    if pos < tokens.len() && tokens[pos].lexeme == lexeme {
        Ok(pos + 1)
    } else {
        Err(report_missing(tokens, pos, Thing::Lexeme(lexeme)))
    }
}

fn read_number(tokens: &[Token], pos: usize) -> (outcome: Result<(Ast, usize), Error>)
    requires
        pos < tokens.len(),
    ensures
        agrees(outcome, number_atom(tokens@, pos as int)),
{
    if tokens[pos].lexeme == Lexeme::Number {
        Ok((Ast::Number { region: tokens[pos].region }, pos + 1))
    } else {
        Err(report_missing(tokens, pos, Thing::Atom))
    }
}

fn read_name(tokens: &[Token], pos: usize) -> (outcome: Result<(Ast, usize), Error>)
    requires
        pos < tokens.len(),
    ensures
        agrees(outcome, name_atom(tokens@, pos as int)),
{
    if tokens[pos].lexeme == Lexeme::Ident {
        Ok((Ast::Ident { region: tokens[pos].region }, pos + 1))
    } else {
        Err(report_missing(tokens, pos, Thing::Atom))
    }
}

fn read_paren(tokens: &[Token], pos: usize, budget: usize) -> (outcome: Result<
    (Ast, usize),
    Error,
>)
    requires
        pos < tokens.len(),
    ensures
        agrees(outcome, paren_atom(tokens@, pos as int, budget as nat)),
    decreases budget, 1nat,
{
    if tokens[pos].lexeme != Lexeme::LParen {
        return Err(report_missing(tokens, pos, Thing::Atom));
    }
    let (inner, close) = match read_expr(tokens, pos + 1, budget) {
        Ok(found) => found,
        Err(error) => {
            return Err(error);
        },
    };
    let next = match require(tokens, close, Lexeme::RParen) {
        Ok(next) => next,
        Err(error) => {
            return Err(error);
        },
    };
    let region = tokens[pos].region.cover(tokens[close].region);
    Ok((Ast::Paren { region, inner: Box::new(inner) }, next))
}

fn read_atom(tokens: &[Token], pos: usize, budget: usize) -> (outcome: Result<
    (Ast, usize),
    Error,
>)
    ensures
        agrees(outcome, parse_atom(tokens@, pos as int, budget as nat)),
    decreases budget, 2nat,
{
    if pos >= tokens.len() {
        return Err(report_missing(tokens, pos, Thing::Atom));
    }
    let mut failure = Error::spurious();
    match read_number(tokens, pos) {
        Ok(found) => {
            return Ok(found);
        },
        Err(error) => {
            failure = failure.max(error);
        },
    }
    match read_name(tokens, pos) {
        Ok(found) => {
            return Ok(found);
        },
        Err(error) => {
            failure = failure.max(error);
        },
    }
    match read_paren(tokens, pos, budget) {
        Ok(found) => {
            return Ok(found);
        },
        Err(error) => {
            failure = failure.max(error);
        },
    }
    Err(failure)
}

fn read_binary(tokens: &[Token], pos: usize, budget: usize) -> (outcome: Result<
    (Ast, usize),
    Error,
>)
    ensures
        agrees(outcome, parse_binary(tokens@, pos as int, budget as nat)),
    decreases budget, 3nat,
{
    let (left, then) = match read_atom(tokens, pos, budget) {
        Ok(found) => found,
        Err(error) => {
            return Err(error);
        },
    };
    if then < tokens.len() && tokens[then].lexeme.is_binary_operator() {
        let (right, next) = match read_atom(tokens, then + 1, budget) {
            Ok(found) => found,
            Err(error) => {
                return Err(error);
            },
        };
        let region = left.region().cover(right.region());
        Ok(
            (
                Ast::Binary {
                    region,
                    operator: tokens[then].lexeme,
                    left: Box::new(left),
                    right: Box::new(right),
                },
                next,
            ),
        )
    } else {
        Ok((left, then))
    }
}

fn read_let(tokens: &[Token], pos: usize, budget: usize) -> (outcome: Result<
    (Ast, usize),
    Error,
>)
    ensures
        agrees(outcome, parse_let(tokens@, pos as int, budget as nat)),
    decreases budget, 3nat,
{
    if !(pos < tokens.len() && tokens[pos].lexeme == Lexeme::Let) {
        return Err(report_missing(tokens, pos, Thing::Lexeme(Lexeme::Let)));
    }
    if !(pos + 1 < tokens.len() && tokens[pos + 1].lexeme == Lexeme::Ident) {
        return Err(report_missing(tokens, pos + 1, Thing::Ident));
    }
    if !(pos + 2 < tokens.len() && tokens[pos + 2].lexeme == Lexeme::Assign) {
        let error = report_missing(tokens, pos + 2, Thing::Lexeme(Lexeme::Assign));
        if pos + 2 < tokens.len() && tokens[pos + 2].lexeme == Lexeme::Eq {
            return Err(error.hint("a name is bound with `=`"));
        }
        return Err(error);
    }
    let (value, then) = match read_expr(tokens, pos + 3, budget) {
        Ok(found) => found,
        Err(error) => {
            return Err(error);
        },
    };
    let start = match require(tokens, then, Lexeme::In) {
        Ok(start) => start,
        Err(error) => {
            return Err(error);
        },
    };
    let (body, next) = match read_expr(tokens, start, budget) {
        Ok(found) => found,
        Err(error) => {
            return Err(error);
        },
    };
    let region = tokens[pos].region.cover(body.region());
    Ok(
        (
            Ast::Let {
                region,
                name: tokens[pos + 1].region,
                value: Box::new(value),
                body: Box::new(body),
            },
            next,
        ),
    )
}

fn read_expr(tokens: &[Token], pos: usize, depth: usize) -> (outcome: Result<(Ast, usize), Error>)
    ensures
        agrees(outcome, parse_expr(tokens@, pos as int, depth as nat)),
    decreases depth, 0nat,
{
    if depth == 0 {
        return Err(report_too_deep(tokens, pos).while_parsing(Thing::Expr));
    }
    let mut failure = Error::spurious();
    match read_let(tokens, pos, depth - 1) {
        Ok(found) => {
            return Ok(found);
        },
        Err(error) => {
            failure = failure.max(error);
        },
    }
    match read_binary(tokens, pos, depth - 1) {
        Ok(found) => {
            return Ok(found);
        },
        Err(error) => {
            failure = failure.max(error);
        },
    }
    Err(failure.while_parsing(Thing::Expr))
}

/// Parses the tokens of one expression into its syntax tree. The tree is
/// the one that the grammar derives from all the tokens; it accounts for
/// every token and spans from the first to the last. Where the tokens spell
/// no expression, or one that is nested too deeply, the one diagnostic that
/// lies farthest into the source text is returned.
pub fn parse(tokens: &[Token]) -> (result: Result<Ast, Vec<Error>>)
    ensures
        match result {
            Ok(ast) => {
                &&& parse_spec(tokens@) == Ok::<Ast, Seq<ErrorView>>(ast)
                &&& derives(ast, tokens@, 0)
                &&& ast.size() == tokens@.len()
                &&& ast.nesting() < MAX_DEPTH
                &&& ast.lexemes() == lexemes_of(tokens@)
                &&& tokens_in_order(tokens@) ==> ast.region().start()
                    == tokens@.first().region.start() && ast.region().end()
                    == tokens@.last().region.end()
            },
            Err(errors) => {
                &&& parse_spec(tokens@) == Err::<Ast, Seq<ErrorView>>(views(errors@))
                &&& errors.len() == 1
                &&& !(errors[0]@.kind is Spurious)
                &&& forall|len: nat| #[trigger]
                    tokens_within(tokens@, len) ==> reportable(views(errors@), len)
            },
        },
{
    proof {
        assert forall|len: nat| #[trigger] tokens_within(tokens@, len) implies (parse_spec(
            tokens@,
        ) matches Err(errors) ==> reportable(errors, len)) by {
            lemma_parse_reports_one(tokens@, len);
        }
        lemma_parse_reports_one(tokens@, 0);
        if let Ok(ast) = parse_spec(tokens@) {
            lemma_parse_accepts_the_grammar(tokens@, ast);
            lemma_parse_spans_the_tokens(tokens@);
        }
    }
    match read_expr(tokens, 0, MAX_DEPTH) {
        Ok((ast, end)) => {
            if end < tokens.len() {
                let error = report_missing(tokens, end, Thing::Operator);
                let error = if tokens[end].lexeme == Lexeme::Assign {
                    error.hint("did you mean `==`?")
                } else {
                    error
                };
                let mut errors: Vec<Error> = Vec::new();
                errors.push(error);
                assert(views(errors@) =~= seq![error@]);
                Err(errors)
            } else {
                Ok(ast)
            }
        },
        Err(error) => {
            let mut errors: Vec<Error> = Vec::new();
            errors.push(error);
            assert(views(errors@) =~= seq![error@]);
            Err(errors)
        },
    }
}

/// The diagnostic is one that a user may see: it is no placeholder, and if
/// the regions of the tokens lie in a text of `len` characters, so does its
/// region.
pub open spec fn sound_failure(error: ErrorView, tokens: Seq<Token>, len: nat) -> bool {
    !(error.kind is Spurious) && (tokens_within(tokens, len) ==> error.within(len))
}

/// The failure to find a thing is one that a user may see.
pub proof fn lemma_missing_is_sound(tokens: Seq<Token>, pos: int, thing: Thing, len: nat)
    ensures
        sound_failure(missing(tokens, pos, thing), tokens, len),
        sound_failure(too_deep(tokens, pos), tokens, len),
        sound_failure(missing_assign(tokens, pos), tokens, len),
{
    if tokens_within(tokens, len) {
        if tokens.len() > 0 {
            assert(tokens[tokens.len() - 1].region.within(len));
        }
        if 0 <= pos < tokens.len() {
            assert(tokens[pos].region.within(len));
        }
    }
}

/// A failure to parse an atom in parentheses is one that a user may see.
pub proof fn lemma_paren_failure(tokens: Seq<Token>, pos: int, budget: nat, len: nat)
    requires
        0 <= pos < tokens.len(),
    ensures
        paren_atom(tokens, pos, budget) matches Err(error) ==> sound_failure(error, tokens, len),
    decreases budget, 1nat,
{
    lemma_missing_is_sound(tokens, pos, Thing::Atom, len);
    if tokens[pos].lexeme == Lexeme::LParen {
        lemma_expr_failure(tokens, pos + 1, budget, len);
        if let Ok((inner, close)) = parse_expr(tokens, pos + 1, budget) {
            lemma_missing_is_sound(tokens, close, Thing::Lexeme(Lexeme::RParen), len);
        }
    }
}

/// A failure to parse an atom is one that a user may see.
pub proof fn lemma_atom_failure(tokens: Seq<Token>, pos: int, budget: nat, len: nat)
    ensures
        parse_atom(tokens, pos, budget) matches Err(error) ==> sound_failure(error, tokens, len),
    decreases budget, 2nat,
{
    lemma_missing_is_sound(tokens, pos, Thing::Atom, len);
    if 0 <= pos < tokens.len() {
        lemma_paren_failure(tokens, pos, budget, len);
    }
}

/// A failure to parse an operation is one that a user may see.
pub proof fn lemma_binary_failure(tokens: Seq<Token>, pos: int, budget: nat, len: nat)
    ensures
        parse_binary(tokens, pos, budget) matches Err(error) ==> sound_failure(error, tokens, len),
    decreases budget, 3nat,
{
    lemma_atom_failure(tokens, pos, budget, len);
    if let Ok((left, then)) = parse_atom(tokens, pos, budget) {
        lemma_atom_failure(tokens, then + 1, budget, len);
    }
}

/// A failure to parse a binding is one that a user may see.
pub proof fn lemma_let_failure(tokens: Seq<Token>, pos: int, budget: nat, len: nat)
    ensures
        parse_let(tokens, pos, budget) matches Err(error) ==> sound_failure(error, tokens, len),
    decreases budget, 3nat,
{
    lemma_missing_is_sound(tokens, pos, Thing::Lexeme(Lexeme::Let), len);
    lemma_missing_is_sound(tokens, pos + 1, Thing::Ident, len);
    lemma_missing_is_sound(tokens, pos + 2, Thing::Lexeme(Lexeme::Assign), len);
    lemma_expr_failure(tokens, pos + 3, budget, len);
    if let Ok((value, then)) = parse_expr(tokens, pos + 3, budget) {
        lemma_missing_is_sound(tokens, then, Thing::Lexeme(Lexeme::In), len);
        lemma_expr_failure(tokens, then + 1, budget, len);
    }
}

/// A failure to parse an expression is one that a user may see, and
/// carries the expression as its outermost context.
pub proof fn lemma_expr_failure(tokens: Seq<Token>, pos: int, depth: nat, len: nat)
    ensures
        parse_expr(tokens, pos, depth) matches Err(error) ==> sound_failure(error, tokens, len)
            && error.while_parsing.len() > 0 && error.while_parsing.last() == Thing::Expr,
    decreases depth, 0nat,
{
    lemma_missing_is_sound(tokens, pos, Thing::Atom, len);
    if depth > 0 {
        lemma_let_failure(tokens, pos, (depth - 1) as nat, len);
        lemma_binary_failure(tokens, pos, (depth - 1) as nat, len);
    }
}

/// Where parsing fails, it reports exactly one diagnostic, and one that a
/// user may see: no placeholder, and with its region in the text that the
/// tokens lie in.
pub proof fn lemma_parse_reports_one(tokens: Seq<Token>, len: nat)
    ensures
        parse_spec(tokens) matches Err(errors) ==> errors.len() == 1 && sound_failure(
            errors[0],
            tokens,
            len,
        ),
{
    lemma_expr_failure(tokens, 0, MAX_DEPTH as nat, len);
    if let Ok((ast, end)) = parse_expr(tokens, 0, MAX_DEPTH as nat) {
        lemma_missing_is_sound(tokens, end, Thing::Operator, len);
    }
}

} // verus!
