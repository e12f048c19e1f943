//! The grammar, stated without the parser, and the proof that the parser
//! accepts exactly what the grammar derives.

use vstd::prelude::*;

use crate::error::ErrorView;
use crate::lex::{tokens_in_order, Lexeme, Token};
use crate::parse::{
    paren_atom, parse_atom, parse_binary, parse_expr, parse_let, parse_spec, Ast, MAX_DEPTH,
};
use crate::util::SrcRegion;

verus! {

impl Ast {
    /// The node is an atom: a number, a name, or an expression in
    /// parentheses.
    pub open spec fn is_atom(self) -> bool {
        self is Number || self is Ident || self is Paren
    }

    /// The number of tokens that spell the tree.
    pub open spec fn size(self) -> nat
        decreases self,
    {
        match self {
            Ast::Number { .. } => 1,
            Ast::Ident { .. } => 1,
            Ast::Paren { inner, .. } => inner.size() + 2,
            Ast::Binary { left, right, .. } => left.size() + 1 + right.size(),
            Ast::Let { value, body, .. } => value.size() + body.size() + 4,
        }
    }

    /// How many expressions stand around the innermost node of the tree,
    /// the tree itself not counted. Parentheses and bindings each enclose
    /// expressions, an operation encloses none.
    pub open spec fn nesting(self) -> nat
        decreases self,
    {
        match self {
            Ast::Number { .. } => 0,
            Ast::Ident { .. } => 0,
            Ast::Paren { inner, .. } => inner.nesting() + 1,
            Ast::Binary { left, right, .. } => if left.nesting() >= right.nesting() {
                left.nesting()
            } else {
                right.nesting()
            },
            Ast::Let { value, body, .. } => if value.nesting() >= body.nesting() {
                value.nesting() + 1
            } else {
                body.nesting() + 1
            },
        }
    }

    /// The lexemes that spell the tree, in order.
    pub open spec fn lexemes(self) -> Seq<Lexeme>
        decreases self,
    {
        match self {
            Ast::Number { .. } => seq![Lexeme::Number],
            Ast::Ident { .. } => seq![Lexeme::Ident],
            Ast::Paren { inner, .. } => seq![Lexeme::LParen] + inner.lexemes() + seq![
                Lexeme::RParen,
            ],
            Ast::Binary { operator, left, right, .. } => left.lexemes() + seq![operator]
                + right.lexemes(),
            Ast::Let { value, body, .. } => seq![Lexeme::Let, Lexeme::Ident, Lexeme::Assign]
                + value.lexemes() + seq![Lexeme::In] + body.lexemes(),
        }
    }

    /// The tree ends in an atom that no operator has joined to another: it
    /// is an atom, or a binding whose body ends so.
    pub open spec fn ends_open(self) -> bool
        decreases self,
    {
        match self {
            Ast::Binary { .. } => false,
            Ast::Let { body, .. } => body.ends_open(),
            _ => true,
        }
    }
}

/// The grammar. The tokens from the position `pos` on spell the tree `ast`,
/// which takes `ast.size()` of them, and every node of the tree holds the
/// region of the tokens that spell it.
pub open spec fn derives(ast: Ast, tokens: Seq<Token>, pos: int) -> bool
    decreases ast,
{
    &&& 0 <= pos
    &&& pos + ast.size() <= tokens.len()
    &&& match ast {
        Ast::Number { region } => tokens[pos] == Token { lexeme: Lexeme::Number, region },
        Ast::Ident { region } => tokens[pos] == Token { lexeme: Lexeme::Ident, region },
        Ast::Paren { region, inner } => {
            let close = pos + 1 + inner.size();
            &&& tokens[pos].lexeme == Lexeme::LParen
            &&& derives(*inner, tokens, pos + 1)
            &&& tokens[close].lexeme == Lexeme::RParen
            &&& region == tokens[pos].region.cover(tokens[close].region)
        },
        Ast::Binary { region, operator, left, right } => {
            let then = pos + left.size();
            &&& left.is_atom()
            &&& derives(*left, tokens, pos)
            &&& operator.is_binary_operator()
            &&& tokens[then].lexeme == operator
            &&& right.is_atom()
            &&& derives(*right, tokens, then + 1)
            &&& region == left.region().cover(right.region())
        },
        Ast::Let { region, name, value, body } => {
            let then = pos + 3 + value.size();
            &&& tokens[pos].lexeme == Lexeme::Let
            &&& tokens[pos + 1] == Token { lexeme: Lexeme::Ident, region: name }
            &&& tokens[pos + 2].lexeme == Lexeme::Assign
            &&& derives(*value, tokens, pos + 3)
            &&& tokens[then].lexeme == Lexeme::In
            &&& derives(*body, tokens, then + 1)
            &&& region == tokens[pos].region.cover(body.region())
        },
    }
}

/// No operator stands at the position `pos`.
pub open spec fn no_operator_at(tokens: Seq<Token>, pos: int) -> bool {
    !(0 <= pos < tokens.len() && tokens[pos].lexeme.is_binary_operator())
}

/// What a rule has parsed is what the grammar derives: the tree is spelled
/// by the tokens between the two positions, and it is nested no deeper than
/// the rule was allowed to go.
pub open spec fn sound(
    outcome: Result<(Ast, int), ErrorView>,
    tokens: Seq<Token>,
    pos: int,
    budget: nat,
) -> bool {
    outcome matches Ok((ast, next)) ==> {
        &&& derives(ast, tokens, pos)
        &&& next == pos + ast.size()
        &&& ast.nesting() <= budget
    }
}

/// What the rule for parentheses parses, the grammar derives.
pub proof fn lemma_paren_sound(tokens: Seq<Token>, pos: int, budget: nat)
    requires
        0 <= pos < tokens.len(),
    ensures
        sound(paren_atom(tokens, pos, budget), tokens, pos, budget),
        paren_atom(tokens, pos, budget) matches Ok((ast, _)) ==> ast.is_atom(),
    decreases budget, 1nat,
{
    if tokens[pos].lexeme == Lexeme::LParen {
        lemma_expr_sound(tokens, pos + 1, budget);
    }
}

/// What the rule for atoms parses, the grammar derives.
pub proof fn lemma_atom_sound(tokens: Seq<Token>, pos: int, budget: nat)
    ensures
        sound(parse_atom(tokens, pos, budget), tokens, pos, budget),
        parse_atom(tokens, pos, budget) matches Ok((ast, _)) ==> ast.is_atom(),
    decreases budget, 2nat,
{
    if 0 <= pos < tokens.len() {
        lemma_paren_sound(tokens, pos, budget);
    }
}

/// What the rule for operations parses, the grammar derives. Where it has
/// parsed an atom alone, no operator follows the atom.
pub proof fn lemma_binary_sound(tokens: Seq<Token>, pos: int, budget: nat)
    ensures
        sound(parse_binary(tokens, pos, budget), tokens, pos, budget),
        parse_binary(tokens, pos, budget) matches Ok((ast, next)) ==> (ast.is_atom()
            || ast is Binary) && (ast.ends_open() ==> no_operator_at(tokens, next)),
    decreases budget, 3nat,
{
    lemma_atom_sound(tokens, pos, budget);
    if let Ok((left, then)) = parse_atom(tokens, pos, budget) {
        lemma_atom_sound(tokens, then + 1, budget);
    }
}

/// What the rule for bindings parses, the grammar derives.
pub proof fn lemma_let_sound(tokens: Seq<Token>, pos: int, budget: nat)
    ensures
        sound(parse_let(tokens, pos, budget), tokens, pos, budget),
        parse_let(tokens, pos, budget) matches Ok((ast, next)) ==> ast is Let && (ast.ends_open()
            ==> no_operator_at(tokens, next)),
    decreases budget, 3nat,
{
    lemma_expr_sound(tokens, pos + 3, budget);
    if let Ok((value, then)) = parse_expr(tokens, pos + 3, budget) {
        lemma_expr_sound(tokens, then + 1, budget);
    }
}

/// What the rule for expressions parses, the grammar derives.
pub proof fn lemma_expr_sound(tokens: Seq<Token>, pos: int, depth: nat)
    ensures
        sound(parse_expr(tokens, pos, depth), tokens, pos, depth),
        parse_expr(tokens, pos, depth) matches Ok((ast, next)) ==> ast.nesting() < depth && (
        ast.ends_open() ==> no_operator_at(tokens, next)),
    decreases depth, 0nat,
{
    if depth > 0 {
        lemma_let_sound(tokens, pos, (depth - 1) as nat);
        lemma_binary_sound(tokens, pos, (depth - 1) as nat);
    }
}

/// What the rule for parentheses must parse: every expression in
/// parentheses that the grammar derives, if it is nested no deeper than the
/// rule may go.
pub proof fn lemma_paren_complete(ast: Ast, tokens: Seq<Token>, pos: int, budget: nat)
    requires
        ast is Paren,
        derives(ast, tokens, pos),
        ast.nesting() <= budget,
    ensures
        paren_atom(tokens, pos, budget) == Ok::<(Ast, int), ErrorView>((ast, pos + ast.size())),
    decreases ast, 0nat,
{
    let inner = *ast->Paren_inner;
    lemma_expr_complete(inner, tokens, pos + 1, budget);
}

/// What the rule for atoms must parse: every atom that the grammar derives,
/// if it is nested no deeper than the rule may go.
pub proof fn lemma_atom_complete(ast: Ast, tokens: Seq<Token>, pos: int, budget: nat)
    requires
        ast.is_atom(),
        derives(ast, tokens, pos),
        ast.nesting() <= budget,
    ensures
        parse_atom(tokens, pos, budget) == Ok::<(Ast, int), ErrorView>((ast, pos + ast.size())),
    decreases ast, 1nat,
{
    if ast is Paren {
        lemma_paren_complete(ast, tokens, pos, budget);
    }
}

/// What the rule for expressions must parse: every tree that the grammar
/// derives, if it is nested less deeply than the rule may go, and if no
/// operator follows where the tree ends in an atom.
pub proof fn lemma_expr_complete(ast: Ast, tokens: Seq<Token>, pos: int, depth: nat)
    requires
        derives(ast, tokens, pos),
        ast.nesting() < depth,
        ast.ends_open() ==> no_operator_at(tokens, pos + ast.size()),
    ensures
        parse_expr(tokens, pos, depth) == Ok::<(Ast, int), ErrorView>((ast, pos + ast.size())),
    decreases ast, 2nat,
{
    let budget = (depth - 1) as nat;
    match ast {
        Ast::Number { .. } | Ast::Ident { .. } | Ast::Paren { .. } => {
            lemma_atom_complete(ast, tokens, pos, budget);
            assert(parse_let(tokens, pos, budget) is Err);
        },
        Ast::Binary { left, right, .. } => {
            lemma_atom_complete(*left, tokens, pos, budget);
            lemma_atom_complete(*right, tokens, pos + left.size() + 1, budget);
            assert(parse_let(tokens, pos, budget) is Err);
        },
        Ast::Let { value, body, .. } => {
            lemma_expr_complete(*value, tokens, pos + 3, budget);
            lemma_expr_complete(*body, tokens, pos + 4 + value.size(), budget);
        },
    }
}

/// The parser accepts exactly what the grammar derives. Parsing yields a
/// tree if and only if the tokens, all of them, spell that tree, and the
/// tree is nested less deeply than the parser goes.
pub proof fn lemma_parse_accepts_the_grammar(tokens: Seq<Token>, ast: Ast)
    ensures
        parse_spec(tokens) == Ok::<Ast, Seq<ErrorView>>(ast) <==> derives(ast, tokens, 0)
            && ast.size() == tokens.len() && ast.nesting() < MAX_DEPTH,
{
    lemma_expr_sound(tokens, 0, MAX_DEPTH as nat);
    if derives(ast, tokens, 0) && ast.size() == tokens.len() && ast.nesting() < MAX_DEPTH {
        lemma_expr_complete(ast, tokens, 0, MAX_DEPTH as nat);
    }
}

/// The lexemes of the tokens, in order.
pub open spec fn lexemes_of(tokens: Seq<Token>) -> Seq<Lexeme> {
    tokens.map_values(|token: Token| token.lexeme)
}

/// A tree that the grammar derives accounts for every token that spells
/// it: its lexemes are those of the tokens, in order.
pub proof fn lemma_derived_lexemes(ast: Ast, tokens: Seq<Token>, pos: int)
    requires
        derives(ast, tokens, pos),
    ensures
        ast.lexemes() == lexemes_of(tokens).subrange(pos, pos + ast.size()),
    decreases ast,
{
    let all = lexemes_of(tokens);
    match ast {
        Ast::Number { .. } | Ast::Ident { .. } => {
            assert(ast.lexemes() =~= all.subrange(pos, pos + 1));
        },
        Ast::Paren { inner, .. } => {
            lemma_derived_lexemes(*inner, tokens, pos + 1);
            assert(ast.lexemes() =~= all.subrange(pos, pos + ast.size()));
        },
        Ast::Binary { left, right, .. } => {
            lemma_derived_lexemes(*left, tokens, pos);
            lemma_derived_lexemes(*right, tokens, pos + left.size() + 1);
            assert(ast.lexemes() =~= all.subrange(pos, pos + ast.size()));
        },
        Ast::Let { value, body, .. } => {
            lemma_derived_lexemes(*value, tokens, pos + 3);
            lemma_derived_lexemes(*body, tokens, pos + 4 + value.size());
            assert(ast.lexemes() =~= all.subrange(pos, pos + ast.size()));
        },
    }
}

/// A tree that the grammar derives from tokens that stand one behind the
/// other spans from the start of its first token to the end of its last.
pub proof fn lemma_derived_region(ast: Ast, tokens: Seq<Token>, pos: int)
    requires
        derives(ast, tokens, pos),
        tokens_in_order(tokens),
    ensures
        ast.size() > 0,
        ast.region() == (if ast.size() == 1 {
            tokens[pos].region
        } else {
            SrcRegion::Range(
                tokens[pos].region.start(),
                tokens[pos + ast.size() - 1].region.end(),
            )
        }),
        ast.region().start() == tokens[pos].region.start(),
        ast.region().end() == tokens[pos + ast.size() - 1].region.end(),
    decreases ast,
{
    let first = tokens[pos];
    let last = tokens[pos + ast.size() - 1];
    match ast {
        Ast::Number { .. } | Ast::Ident { .. } => {},
        Ast::Paren { inner, .. } => {
            lemma_derived_region(*inner, tokens, pos + 1);
            assert(first.region.end().0 <= last.region.start().0);
        },
        Ast::Binary { left, right, .. } => {
            lemma_derived_region(*left, tokens, pos);
            lemma_derived_region(*right, tokens, pos + left.size() + 1);
            let left_last = tokens[pos + left.size() - 1];
            let right_first = tokens[pos + left.size() + 1];
            assert(left_last.region.end().0 <= right_first.region.start().0);
            assert(first.region.start().0 < first.region.end().0);
            assert(last.region.start().0 < last.region.end().0);
            assert(left_last.region.start().0 < left_last.region.end().0);
            assert(right_first.region.start().0 < right_first.region.end().0);
            if left.size() > 1 {
                assert(first.region.end().0 <= left_last.region.start().0);
            }
            if right.size() > 1 {
                assert(right_first.region.end().0 <= last.region.start().0);
            }
        },
        Ast::Let { value, body, .. } => {
            lemma_derived_region(*body, tokens, pos + 4 + value.size());
            let body_first = tokens[pos + 4 + value.size()];
            assert(first.region.end().0 <= body_first.region.start().0);
            assert(first.region.end().0 <= last.region.start().0);
            assert(first.region.start().0 < first.region.end().0);
            assert(last.region.start().0 < last.region.end().0);
            assert(body_first.region.start().0 < body_first.region.end().0);
            if body.size() > 1 {
                assert(body_first.region.end().0 <= last.region.start().0);
            }
        },
    }
}

/// The tree that parsing yields accounts for every token, and spans, where
/// the tokens stand one behind the other, from the start of the first token
/// to the end of the last.
pub proof fn lemma_parse_spans_the_tokens(tokens: Seq<Token>)
    requires
        parse_spec(tokens) is Ok,
    ensures
        ({
            let ast = parse_spec(tokens)->Ok_0;
            &&& tokens.len() > 0
            &&& ast.lexemes() == lexemes_of(tokens)
            &&& tokens_in_order(tokens) ==> ast.region().start() == tokens.first().region.start()
                && ast.region().end() == tokens.last().region.end()
        }),
{
    let ast = parse_spec(tokens)->Ok_0;
    lemma_parse_accepts_the_grammar(tokens, ast);
    lemma_derived_lexemes(ast, tokens, 0);
    assert(lexemes_of(tokens).subrange(0, tokens.len() as int) =~= lexemes_of(tokens));
    if tokens_in_order(tokens) {
        lemma_derived_region(ast, tokens, 0);
    }
}

} // verus!
