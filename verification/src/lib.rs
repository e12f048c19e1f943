//! The front end of a small expression language: a lexer, a parser, and the
//! diagnostics that both report, each with its place in the source text.

pub mod error;
pub mod grammar;
pub mod lex;
pub mod parse;
pub mod relex;
pub mod util;

use vstd::prelude::*;
use vstd::string::StringExecFns;

pub use crate::error::Error;
use crate::error::{views, ErrorView};
use crate::lex::{lex, lex_spec, reportable, Lexeme};
use crate::parse::{parse, parse_spec, Ast};

verus! {

/// What the parser is looking for, or what it is busy parsing.
#[derive(Clone, Copy, Debug, PartialEq, Eq, Structural)]
pub enum Thing {
    /// A number, a name, or an expression in parentheses.
    Atom,
    /// One lexeme of the given kind.
    Lexeme(Lexeme),
    /// A name.
    Ident,
    /// An expression.
    Expr,
    /// An operator that joins two operands.
    Operator,
}

impl Thing {
    /// The thing, as `{:?}` prints it.
    pub open spec fn debug(self) -> Seq<char> {
        match self {
            Thing::Atom => "Atom"@,
            Thing::Lexeme(lexeme) => "Lexeme("@ + lexeme.debug() + ")"@,
            Thing::Ident => "Ident"@,
            Thing::Expr => "Expr"@,
            Thing::Operator => "Operator"@,
        }
    }

    /// Appends the thing to `out`, as `{:?}` prints it.
    pub fn push_debug(self, out: &mut String)
        ensures
            final(out)@ == old(out)@ + self.debug(),
    {
        match self {
            Thing::Atom => {
                out.append("Atom");
            },
            Thing::Lexeme(lexeme) => {
                out.append("Lexeme(");
                out.append(lexeme.name());
                out.append(")");
                assert(out@ =~= old(out)@ + self.debug());
            },
            Thing::Ident => {
                out.append("Ident");
            },
            Thing::Expr => {
                out.append("Expr");
            },
            Thing::Operator => {
                out.append("Operator");
            },
        }
    }
}

impl From<Lexeme> for Thing {
    fn from(lexeme: Lexeme) -> (thing: Thing) {
        Thing::Lexeme(lexeme)
    }
}

impl vstd::std_specs::convert::FromSpecImpl<Lexeme> for Thing {
    open spec fn obeys_from_spec() -> bool {
        true
    }

    open spec fn from_spec(lexeme: Lexeme) -> Thing {
        Thing::Lexeme(lexeme)
    }
}

/// What evaluating an expression yields. Nothing evaluates an expression
/// yet, so the type has no value: Verus takes no enum without a variant,
/// and the one variant here holds a value of a type that has none.
#[derive(Debug)]
pub enum Value {
    Never(core::convert::Infallible),
}

/// What the front end makes of a source text: the syntax tree of the
/// expression that it spells, or the diagnostics of the stage that failed.
/// Tokens that could not all be read are never parsed.
pub open spec fn front_end(source: Seq<char>) -> Result<Ast, Seq<ErrorView>> {
    match lex_spec(source) {
        Ok(tokens) => parse_spec(tokens),
        Err(errors) => Err(errors),
    }
}

/// Runs the stages of the front end one after the other. It keeps nothing
/// from one text to the next.
#[derive(Debug)]
pub struct Engine;

impl Default for Engine {
    fn default() -> (engine: Engine)
        ensures
            engine == Engine,
    {
        Engine
    }
}

impl Engine {
    /// Lexes and parses `code`. A failure is reported with at least one
    /// diagnostic, each of which a user may see: none is a placeholder, and
    /// every region lies in `code`.
    pub fn parse(&self, code: &str) -> (result: Result<Ast, Vec<Error>>)
        ensures
            match result {
                Ok(ast) => {
                    &&& front_end(code@) == Ok::<Ast, Seq<ErrorView>>(ast)
                    &&& ast.region().within(code@.len())
                },
                Err(errors) => {
                    &&& front_end(code@) == Err::<Ast, Seq<ErrorView>>(views(errors@))
                    &&& errors.len() > 0
                    &&& reportable(views(errors@), code@.len())
                },
            },
    {
        match lex(code) {
            Ok((tokens, _)) => {
                let result = parse(tokens.as_slice());
                proof {
                    if result is Ok {
                        let first = tokens@.first();
                        let last = tokens@.last();
                        assert(first.region.start().0 < first.region.end().0);
                        assert(last.region.within(code@.len()));
                        if tokens@.len() > 1 {
                            assert(first.region.end().0 <= last.region.start().0);
                        }
                        assert(result->Ok_0.region().start().0 <= result->Ok_0.region().end().0);
                    }
                }
                result
            },
            Err(errors) => Err(errors),
        }
    }
}

} // verus!
