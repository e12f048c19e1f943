//! The lexer: from source text to positioned tokens.

use vstd::prelude::*;

use crate::error::{views, Error, ErrorView, KindView};
use crate::util::{SrcLoc, SrcRegion};

verus! {

/// The kind of a token.
#[derive(Clone, Copy, Debug, PartialEq, Eq, Structural)]
pub enum Lexeme {
    /// A name: a letter or `_`, then letters, digits and `_`.
    Ident,
    /// A number: one or more decimal digits.
    Number,
    /// The keyword `let`.
    Let,
    /// The keyword `in`.
    In,
    /// `(`
    LParen,
    /// `)`
    RParen,
    /// `=`
    Assign,
    /// `+`
    Plus,
    /// `-`
    Minus,
    /// `*`
    Star,
    /// `/`
    Slash,
    /// `==`
    Eq,
    /// `!=`
    NotEq,
    /// `<`
    Less,
    /// `<=`
    LessEq,
    /// `>`
    Greater,
    /// `>=`
    GreaterEq,
}

impl Lexeme {
    /// Whether the lexeme is one of the operators that join two operands.
    pub open spec fn spec_is_binary_operator(self) -> bool {
        match self {
            Lexeme::Plus
            | Lexeme::Minus
            | Lexeme::Star
            | Lexeme::Slash
            | Lexeme::Eq
            | Lexeme::NotEq
            | Lexeme::Less
            | Lexeme::LessEq
            | Lexeme::Greater
            | Lexeme::GreaterEq => true,
            _ => false,
        }
    }

    #[verifier::when_used_as_spec(spec_is_binary_operator)]
    pub fn is_binary_operator(self) -> (yes: bool)
        ensures
            yes == self.spec_is_binary_operator(),
    {
        match self {
            Lexeme::Plus
            | Lexeme::Minus
            | Lexeme::Star
            | Lexeme::Slash
            | Lexeme::Eq
            | Lexeme::NotEq
            | Lexeme::Less
            | Lexeme::LessEq
            | Lexeme::Greater
            | Lexeme::GreaterEq => true,
            _ => false,
        }
    }

    /// The name of the lexeme, as `{:?}` prints it.
    pub open spec fn debug(self) -> Seq<char> {
        match self {
            Lexeme::Ident => "Ident"@,
            Lexeme::Number => "Number"@,
            Lexeme::Let => "Let"@,
            Lexeme::In => "In"@,
            Lexeme::LParen => "LParen"@,
            Lexeme::RParen => "RParen"@,
            Lexeme::Assign => "Assign"@,
            Lexeme::Plus => "Plus"@,
            Lexeme::Minus => "Minus"@,
            Lexeme::Star => "Star"@,
            Lexeme::Slash => "Slash"@,
            Lexeme::Eq => "Eq"@,
            Lexeme::NotEq => "NotEq"@,
            Lexeme::Less => "Less"@,
            Lexeme::LessEq => "LessEq"@,
            Lexeme::Greater => "Greater"@,
            Lexeme::GreaterEq => "GreaterEq"@,
        }
    }

    /// The name of the lexeme, as `{:?}` prints it.
    pub fn name(self) -> (name: &'static str)
        ensures
            name@ == self.debug(),
    {
        match self {
            Lexeme::Ident => "Ident",
            Lexeme::Number => "Number",
            Lexeme::Let => "Let",
            Lexeme::In => "In",
            Lexeme::LParen => "LParen",
            Lexeme::RParen => "RParen",
            Lexeme::Assign => "Assign",
            Lexeme::Plus => "Plus",
            Lexeme::Minus => "Minus",
            Lexeme::Star => "Star",
            Lexeme::Slash => "Slash",
            Lexeme::Eq => "Eq",
            Lexeme::NotEq => "NotEq",
            Lexeme::Less => "Less",
            Lexeme::LessEq => "LessEq",
            Lexeme::Greater => "Greater",
            Lexeme::GreaterEq => "GreaterEq",
        }
    }
}

/// A lexeme and the region of the source text that it was read from.
#[derive(Clone, Copy, Debug, PartialEq, Eq, Structural)]
pub struct Token {
    pub lexeme: Lexeme,
    pub region: SrcRegion,
}

/// The characters that separate lexemes and belong to none.
pub open spec fn spec_is_space(c: char) -> bool {
    c == ' ' || c == '\t' || c == '\n' || c == '\r'
}

/// The decimal digits.
pub open spec fn spec_is_digit(c: char) -> bool {
    '0' <= c && c <= '9'
}

/// The characters that start a word: the letters `a` to `z` and `A` to `Z`,
/// and `_`.
pub open spec fn spec_is_word_start(c: char) -> bool {
    ('a' <= c && c <= 'z') || ('A' <= c && c <= 'Z') || c == '_'
}

/// The characters that operators are spelled with.
pub open spec fn spec_is_operator_char(c: char) -> bool {
    c == '+' || c == '-' || c == '*' || c == '/' || c == '=' || c == '<' || c == '>' || c == '!'
        || c == '~' || c == '&' || c == '|' || c == '^' || c == '%'
}

/// The lexeme that a single character of punctuation spells.
pub open spec fn spec_punctuation(c: char) -> Option<Lexeme> {
    if c == '(' {
        Some(Lexeme::LParen)
    } else if c == ')' {
        Some(Lexeme::RParen)
    } else {
        None
    }
}

#[verifier::when_used_as_spec(spec_is_space)]
pub fn is_space(c: char) -> (yes: bool)
    ensures
        yes == spec_is_space(c),
{
    c == ' ' || c == '\t' || c == '\n' || c == '\r'
}

#[verifier::when_used_as_spec(spec_is_digit)]
pub fn is_digit(c: char) -> (yes: bool)
    ensures
        yes == spec_is_digit(c),
{
    '0' <= c && c <= '9'
}

#[verifier::when_used_as_spec(spec_is_word_start)]
pub fn is_word_start(c: char) -> (yes: bool)
    ensures
        yes == spec_is_word_start(c),
{
    ('a' <= c && c <= 'z') || ('A' <= c && c <= 'Z') || c == '_'
}

#[verifier::when_used_as_spec(spec_is_operator_char)]
pub fn is_operator_char(c: char) -> (yes: bool)
    ensures
        yes == spec_is_operator_char(c),
{
    c == '+' || c == '-' || c == '*' || c == '/' || c == '=' || c == '<' || c == '>' || c == '!'
        || c == '~' || c == '&' || c == '|' || c == '^' || c == '%'
}

#[verifier::when_used_as_spec(spec_punctuation)]
pub fn punctuation(c: char) -> (lexeme: Option<Lexeme>)
    ensures
        lexeme == spec_punctuation(c),
{
    if c == '(' {
        Some(Lexeme::LParen)
    } else if c == ')' {
        Some(Lexeme::RParen)
    } else {
        None
    }
}

/// The kinds of character of which a lexeme takes as many as follow one
/// another.
#[derive(Clone, Copy, Debug, PartialEq, Eq, Structural)]
pub enum CharClass {
    /// Letters, digits and `_`.
    Word,
    /// Decimal digits.
    Digit,
    /// Operator characters.
    Operator,
}

impl CharClass {
    /// Whether `c` is of this kind.
    pub open spec fn spec_holds(self, c: char) -> bool {
        match self {
            CharClass::Word => is_word_start(c) || is_digit(c),
            CharClass::Digit => is_digit(c),
            CharClass::Operator => is_operator_char(c),
        }
    }

    #[verifier::when_used_as_spec(spec_holds)]
    pub fn holds(self, c: char) -> (yes: bool)
        ensures
            yes == self.spec_holds(c),
    {
        match self {
            CharClass::Word => is_word_start(c) || is_digit(c),
            CharClass::Digit => is_digit(c),
            CharClass::Operator => is_operator_char(c),
        }
    }
}

/// How many characters of the kind `class` follow one another in `s` from
/// the position `p` on.
pub open spec fn run_len(s: Seq<char>, p: int, class: CharClass) -> nat
    decreases s.len() - p,
{
    if 0 <= p < s.len() && class.holds(s[p]) {
        1 + run_len(s, p + 1, class)
    } else {
        0
    }
}

/// The first position from `p` on that is neither white space nor part of
/// a comment; the end of the text if there is none. A comment runs from a
/// `#` to the end of its line. `in_comment` says whether `p` lies in one.
pub open spec fn skip_trivia(s: Seq<char>, p: int, in_comment: bool) -> int
    decreases s.len() - p,
{
    if p < 0 || p >= s.len() {
        p
    } else if in_comment {
        skip_trivia(s, p + 1, s[p] != '\n')
    } else if is_space(s[p]) {
        skip_trivia(s, p + 1, false)
    } else if s[p] == '#' {
        skip_trivia(s, p + 1, true)
    } else {
        p
    }
}

/// The lexeme that a word spells: a keyword, or else a name.
pub open spec fn word_lexeme(text: Seq<char>) -> Lexeme {
    if text == seq!['l', 'e', 't'] {
        Lexeme::Let
    } else if text == seq!['i', 'n'] {
        Lexeme::In
    } else {
        Lexeme::Ident
    }
}

/// The lexeme that a run of operator characters spells, if it spells one.
pub open spec fn operator_lexeme(text: Seq<char>) -> Option<Lexeme> {
    if text.len() == 1 {
        if text[0] == '=' {
            Some(Lexeme::Assign)
        } else if text[0] == '+' {
            Some(Lexeme::Plus)
        } else if text[0] == '-' {
            Some(Lexeme::Minus)
        } else if text[0] == '*' {
            Some(Lexeme::Star)
        } else if text[0] == '/' {
            Some(Lexeme::Slash)
        } else if text[0] == '<' {
            Some(Lexeme::Less)
        } else if text[0] == '>' {
            Some(Lexeme::Greater)
        } else {
            None
        }
    } else if text.len() == 2 && text[1] == '=' {
        if text[0] == '=' {
            Some(Lexeme::Eq)
        } else if text[0] == '!' {
            Some(Lexeme::NotEq)
        } else if text[0] == '<' {
            Some(Lexeme::LessEq)
        } else if text[0] == '>' {
            Some(Lexeme::GreaterEq)
        } else {
            None
        }
    } else {
        None
    }
}

/// The region of the characters from the position `from` up to `to`.
pub open spec fn span(from: int, to: int) -> SrcRegion {
    SrcRegion::Range(SrcLoc(from as usize), SrcLoc(to as usize))
}

/// What stands at one position of a text: a token or a failure, and the
/// position at which lexing goes on.
pub struct Scan {
    pub outcome: Result<Token, ErrorView>,
    pub next: int,
}

/// Reads what stands at the position `p` of `s`, which lies in the text and
/// holds neither white space nor the start of a comment. A word, a number and
/// an operator take as many characters as follow one another.
pub open spec fn scan(s: Seq<char>, p: int) -> Scan {
    let c = s[p];
    if is_word_start(c) {
        let end = p + 1 + run_len(s, p + 1, CharClass::Word);
        Scan {
            outcome: Ok(Token { lexeme: word_lexeme(s.subrange(p, end)), region: span(p, end) }),
            next: end,
        }
    } else if is_digit(c) {
        let end = p + 1 + run_len(s, p + 1, CharClass::Digit);
        Scan { outcome: Ok(Token { lexeme: Lexeme::Number, region: span(p, end) }), next: end }
    } else if punctuation(c) is Some {
        Scan {
            outcome: Ok(Token { lexeme: punctuation(c)->0, region: span(p, p + 1) }),
            next: p + 1,
        }
    } else if is_operator_char(c) {
        let end = p + 1 + run_len(s, p + 1, CharClass::Operator);
        let text = s.subrange(p, end);
        Scan {
            outcome: match operator_lexeme(text) {
                Some(lexeme) => Ok(Token { lexeme, region: span(p, end) }),
                None => Err(
                    ErrorView::plain(KindView::UnknownOperator(text)).at(Some(span(p, end))),
                ),
            },
            next: end,
        }
    } else {
        Scan {
            outcome: Err(
                ErrorView::plain(KindView::UnexpectedChar(c)).at(
                    Some(SrcRegion::Point(SrcLoc(p as usize))),
                ),
            ),
            next: p + 1,
        }
    }
}

/// A run that starts in the text ends in it.
pub proof fn lemma_run_len_bound(s: Seq<char>, p: int, class: CharClass)
    requires
        0 <= p <= s.len(),
    ensures
        p + run_len(s, p, class) <= s.len(),
    decreases s.len() - p,
{
    if p < s.len() && class.holds(s[p]) {
        lemma_run_len_bound(s, p + 1, class);
    }
}

/// Skipping goes forward and stops in the text or at its end.
pub proof fn lemma_skip_trivia_bounds(s: Seq<char>, p: int, in_comment: bool)
    requires
        0 <= p <= s.len(),
    ensures
        p <= skip_trivia(s, p, in_comment) <= s.len(),
    decreases s.len() - p,
{
    if p < s.len() {
        if in_comment {
            lemma_skip_trivia_bounds(s, p + 1, s[p] != '\n');
        } else if is_space(s[p]) {
            lemma_skip_trivia_bounds(s, p + 1, false);
        } else if s[p] == '#' {
            lemma_skip_trivia_bounds(s, p + 1, true);
        }
    }
}

/// Whatever stands at a position of the text, lexing goes on behind it, in
/// the text or at its end.
pub proof fn lemma_scan_advances(s: Seq<char>, p: int)
    requires
        0 <= p < s.len(),
    ensures
        p < scan(s, p).next <= s.len(),
{
    lemma_run_len_bound(s, p + 1, CharClass::Word);
    lemma_run_len_bound(s, p + 1, CharClass::Digit);
    lemma_run_len_bound(s, p + 1, CharClass::Operator);
}

/// The tokens and the failures that lexing `s` from the position `p` on
/// yields, each in the order of the text. After a failure lexing goes on
/// behind it, so that one pass reports every failure of the text.
pub open spec fn lex_from(s: Seq<char>, p: int) -> (Seq<Token>, Seq<ErrorView>)
    decreases s.len() - p,
    via lex_from_decreases
{
    let at = skip_trivia(s, p, false);
    if 0 <= p <= at < s.len() {
        let step = scan(s, at);
        let rest = lex_from(s, step.next);
        match step.outcome {
            Ok(token) => (seq![token] + rest.0, rest.1),
            Err(error) => (rest.0, seq![error] + rest.1),
        }
    } else {
        (Seq::empty(), Seq::empty())
    }
}

#[via_fn]
proof fn lex_from_decreases(s: Seq<char>, p: int) {
    let at = skip_trivia(s, p, false);
    if 0 <= p <= at < s.len() {
        lemma_scan_advances(s, at);
    }
}

/// What lexing the text `s` yields: its tokens, if every part of it could
/// be read, and else all the failures.
pub open spec fn lex_spec(s: Seq<char>) -> Result<Seq<Token>, Seq<ErrorView>> {
    let (tokens, errors) = lex_from(s, 0);
    if errors.len() == 0 {
        Ok(tokens)
    } else {
        Err(errors)
    }
}

/// The characters of `source`, in a vector.
pub fn characters(source: &str) -> (chars: Vec<char>)
    ensures
        chars@ == source@,
{
    let mut chars: Vec<char> = Vec::new();
    for c in it: source.chars()
        invariant
            it.seq() == source@,
            chars@ == it.seq().take(it.index()),
    {
        assert(it.seq().take(it.index() + 1) =~= it.seq().take(it.index()).push(c));
        chars.push(c);
    }
    assert(source@.take(source@.len() as int) =~= source@);
    chars
}

/// `String::push` of std appends one character to the end of the string.
pub assume_specification[ String::push ](text: &mut String, c: char)
    ensures
        final(text)@ == old(text)@.push(c),
;

/// The characters of `chars` from `from` up to `to`, as a string.
fn text_between(chars: &Vec<char>, from: usize, to: usize) -> (text: String)
    requires
        from <= to <= chars.len(),
    ensures
        text@ == chars@.subrange(from as int, to as int),
{
    let mut text = String::new();
    let mut at: usize = from;
    assert(text@ =~= chars@.subrange(from as int, at as int));
    while at < to
        invariant
            from <= at <= to <= chars.len(),
            text@ == chars@.subrange(from as int, at as int),
        decreases to - at,
    {
        text.push(chars[at]);
        assert(text@ =~= chars@.subrange(from as int, at + 1));
        at = at + 1;
    }
    text
}

/// The position behind the run of characters of the kind `class` that
/// starts at `from`.
fn run_end(chars: &Vec<char>, from: usize, class: CharClass) -> (end: usize)
    requires
        from <= chars.len(),
    ensures
        end == from + run_len(chars@, from as int, class),
        end <= chars.len(),
{
    let mut end: usize = from;
    while end < chars.len() && class.holds(chars[end])
        invariant
            from <= end <= chars.len(),
            from + run_len(chars@, from as int, class) == end + run_len(chars@, end as int, class),
        decreases chars.len() - end,
    {
        end = end + 1;
    }
    end
}

/// The first position from `from` on that starts a lexeme or a failure.
fn skip(chars: &Vec<char>, from: usize) -> (at: usize)
    requires
        from <= chars.len(),
    ensures
        at == skip_trivia(chars@, from as int, false),
        from <= at <= chars.len(),
{
    let mut at: usize = from;
    let mut in_comment = false;
    while at < chars.len()
        invariant
            from <= at <= chars.len(),
            skip_trivia(chars@, from as int, false) == skip_trivia(chars@, at as int, in_comment),
        decreases chars.len() - at,
    {
        let c = chars[at];
        if in_comment {
            in_comment = c != '\n';
        } else if is_space(c) {
        } else if c == '#' {
            in_comment = true;
        } else {
            return at;
        }
        at = at + 1;
    }
    at
}

fn classify_word(chars: &Vec<char>, from: usize, to: usize) -> (lexeme: Lexeme)
    requires
        from <= to <= chars.len(),
    ensures
        lexeme == word_lexeme(chars@.subrange(from as int, to as int)),
{
    let ghost text = chars@.subrange(from as int, to as int);
    let n = to - from;
    if n == 3 && chars[from] == 'l' && chars[from + 1] == 'e' && chars[from + 2] == 't' {
        assert(text =~= seq!['l', 'e', 't']);
        Lexeme::Let
    } else if n == 2 && chars[from] == 'i' && chars[from + 1] == 'n' {
        assert(text =~= seq!['i', 'n']);
        assert(text != seq!['l', 'e', 't']);
        Lexeme::In
    } else {
        assert(text != seq!['l', 'e', 't']) by {
            if text == seq!['l', 'e', 't'] {
                assert(text.len() == 3 && text[0] == 'l' && text[1] == 'e' && text[2] == 't');
            }
        }
        assert(text != seq!['i', 'n']) by {
            if text == seq!['i', 'n'] {
                assert(text.len() == 2 && text[0] == 'i' && text[1] == 'n');
            }
        }
        Lexeme::Ident
    }
}

fn classify_operator(chars: &Vec<char>, from: usize, to: usize) -> (lexeme: Option<Lexeme>)
    requires
        from <= to <= chars.len(),
    ensures
        lexeme == operator_lexeme(chars@.subrange(from as int, to as int)),
{
    let n = to - from;
    if n == 1 {
        let c = chars[from];
        if c == '=' {
            Some(Lexeme::Assign)
        } else if c == '+' {
            Some(Lexeme::Plus)
        } else if c == '-' {
            Some(Lexeme::Minus)
        } else if c == '*' {
            Some(Lexeme::Star)
        } else if c == '/' {
            Some(Lexeme::Slash)
        } else if c == '<' {
            Some(Lexeme::Less)
        } else if c == '>' {
            Some(Lexeme::Greater)
        } else {
            None
        }
    } else if n == 2 && chars[from + 1] == '=' {
        let c = chars[from];
        if c == '=' {
            Some(Lexeme::Eq)
        } else if c == '!' {
            Some(Lexeme::NotEq)
        } else if c == '<' {
            Some(Lexeme::LessEq)
        } else if c == '>' {
            Some(Lexeme::GreaterEq)
        } else {
            None
        }
    } else {
        None
    }
}

/// Reads what stands at the position `at`: a token or a failure, and the
/// position at which lexing goes on.
fn scan_at(chars: &Vec<char>, at: usize) -> (step: (Result<Token, Error>, usize))
    requires
        at < chars.len(),
    ensures
        step.1 == scan(chars@, at as int).next,
        at < step.1 <= chars.len(),
        match step.0 {
            Ok(token) => scan(chars@, at as int).outcome == Ok::<Token, ErrorView>(token),
            Err(error) => scan(chars@, at as int).outcome == Err::<Token, ErrorView>(error@),
        },
{
    let c = chars[at];
    if is_word_start(c) {
        let end = run_end(chars, at + 1, CharClass::Word);
        let lexeme = classify_word(chars, at, end);
        (Ok(Token { lexeme, region: SrcRegion::Range(SrcLoc(at), SrcLoc(end)) }), end)
    } else if is_digit(c) {
        let end = run_end(chars, at + 1, CharClass::Digit);
        (Ok(Token { lexeme: Lexeme::Number, region: SrcRegion::Range(SrcLoc(at), SrcLoc(end)) }), end)
    } else if let Some(lexeme) = punctuation(c) {
        (Ok(Token { lexeme, region: SrcRegion::Range(SrcLoc(at), SrcLoc(at + 1)) }), at + 1)
    } else if is_operator_char(c) {
        let end = run_end(chars, at + 1, CharClass::Operator);
        match classify_operator(chars, at, end) {
            Some(lexeme) => (
                Ok(Token { lexeme, region: SrcRegion::Range(SrcLoc(at), SrcLoc(end)) }),
                end,
            ),
            None => {
                let error = Error::unknown_operator(text_between(chars, at, end)).at(
                    Some(SrcRegion::Range(SrcLoc(at), SrcLoc(end))),
                );
                (Err(error), end)
            },
        }
    } else {
        let error = Error::unexpected_char(c).at(Some(SrcRegion::Point(SrcLoc(at))));
        (Err(error), at + 1)
    }
}

/// The number that the decimal digit `c` stands for.
pub open spec fn digit_value(c: char) -> nat {
    (c as u32 - '0' as u32) as nat
}

/// The text is a number: one or more decimal digits.
pub open spec fn is_number(text: Seq<char>) -> bool {
    text.len() > 0 && forall|i: int| 0 <= i < text.len() ==> is_digit(#[trigger] text[i])
}

/// The number that the decimal digits `digits` spell.
pub open spec fn digits_value(digits: Seq<char>) -> nat
    decreases digits.len(),
{
    if digits.len() == 0 {
        0
    } else {
        10 * digits_value(digits.drop_last()) + digit_value(digits.last())
    }
}

/// The value of the number that `text` spells, if it spells one that a
/// `u64` holds.
pub fn number_value(text: &str) -> (value: Option<u64>)
    ensures
        value == (if is_number(text@) && digits_value(text@) <= u64::MAX {
            Some(digits_value(text@) as u64)
        } else {
            None::<u64>
        }),
{
    let mut value: Option<u64> = Some(0);
    let mut empty = true;
    let ghost digits = text@;
    for c in it: text.chars()
        invariant
            it.seq() == digits,
            empty == (it.index() == 0),
            ({
                let seen = digits.take(it.index());
                &&& value matches Some(n) ==> n == digits_value(seen)
                &&& value is Some <==> digits_value(seen) <= u64::MAX && forall|i: int|
                    0 <= i < seen.len() ==> is_digit(#[trigger] seen[i])
            }),
    {
        let ghost seen = digits.take(it.index());
        let ghost more = digits.take(it.index() + 1);
        proof {
            assert(more.drop_last() =~= seen);
            assert(more.last() == c);
            assert(forall|i: int| 0 <= i < seen.len() ==> seen[i] == more[i]);
        }
        empty = false;
        value = match value {
            Some(n) if is_digit(c) => {
                let digit = (c as u32 - '0' as u32) as u64;
                match n.checked_mul(10) {
                    Some(tens) => tens.checked_add(digit),
                    None => None,
                }
            },
            _ => None,
        };
        proof {
            if forall|i: int| 0 <= i < more.len() ==> is_digit(#[trigger] more[i]) {
                assert forall|i: int| 0 <= i < seen.len() implies is_digit(
                    #[trigger] seen[i],
                ) by {
                    assert(seen[i] == more[i]);
                }
                assert(is_digit(more[more.len() - 1]));
            } else if is_digit(c) {
                let i = choose|i: int| 0 <= i < more.len() && !is_digit(#[trigger] more[i]);
                assert(i < seen.len());
                assert(!is_digit(seen[i]));
            }
        }
    }
    proof {
        assert(digits.take(digits.len() as int) =~= digits);
    }
    if empty {
        None
    } else {
        value
    }
}

/// What the lexer keeps of a text that it has read, so that the regions of
/// its tokens can be shown later.
pub struct LexCtx<'a> {
    src: &'a str,
}

impl<'a> LexCtx<'a> {
    /// The text that was read.
    pub closed spec fn src(&self) -> Seq<char> {
        self.src@
    }

    /// The text that was read.
    pub fn source(&self) -> (src: &'a str)
        ensures
            src@ == self.src(),
    {
        self.src
    }

    /// The text that the token spans: the name of an identifier, the digits
    /// of a number, the spelling of a keyword or an operator.
    pub fn text(&self, token: &Token) -> (text: &'a str)
        requires
            token.region.within(self.src().len()),
        ensures
            text@ == token.region.text(self.src()),
    {
        token.region.slice(self.src)
    }
}

/// Every region of the tokens is well formed and lies in a text of `len`
/// characters.
pub open spec fn tokens_within(tokens: Seq<Token>, len: nat) -> bool {
    forall|i: int| 0 <= i < tokens.len() ==> (#[trigger] tokens[i]).region.within(len)
}

/// Every diagnostic of the list is one that a user may see, about a text of
/// `len` characters: none is a placeholder, and every region lies in the
/// text.
pub open spec fn reportable(errors: Seq<ErrorView>, len: nat) -> bool {
    forall|i: int|
        0 <= i < errors.len() ==> !((#[trigger] errors[i]).kind is Spurious) && errors[i].within(
            len,
        )
}

/// The tokens stand one behind the other: each spans at least one
/// character and ends before the next one starts.
pub open spec fn tokens_in_order(tokens: Seq<Token>) -> bool {
    &&& forall|i: int|
        0 <= i < tokens.len() ==> (#[trigger] tokens[i]).region.start().0
            < tokens[i].region.end().0
    &&& forall|i: int, j: int|
        0 <= i < j < tokens.len() ==> (#[trigger] tokens[i]).region.end().0 <= (
        #[trigger] tokens[j]).region.start().0
}

/// Lexing from a position of the text on yields tokens that start at or
/// behind that position and stand one behind the other.
pub proof fn lemma_lex_from_order(s: Seq<char>, p: int)
    requires
        0 <= p <= s.len() <= usize::MAX,
    ensures
        tokens_in_order(lex_from(s, p).0),
        forall|i: int|
            0 <= i < lex_from(s, p).0.len() ==> p <= (#[trigger] lex_from(s, p).0[i]).region.start().0,
    decreases s.len() - p,
{
    let at = skip_trivia(s, p, false);
    lemma_skip_trivia_bounds(s, p, false);
    if at < s.len() {
        lemma_scan_advances(s, at);
        let step = scan(s, at);
        lemma_lex_from_order(s, step.next);
        let rest = lex_from(s, step.next);
        let all = lex_from(s, p).0;
        match step.outcome {
            Ok(token) => {
                assert(token.region == span(at, step.next));
                assert forall|i: int| 0 <= i < all.len() implies p <= (#[trigger] all[i]).region.start().0
                    && all[i].region.start().0 < all[i].region.end().0 && (i > 0
                    ==> step.next <= all[i].region.start().0) by {
                    if i > 0 {
                        assert(all[i] == rest.0[i - 1]);
                    }
                }
                assert forall|i: int, j: int| 0 <= i < j < all.len() implies (
                #[trigger] all[i]).region.end().0 <= (#[trigger] all[j]).region.start().0 by {
                    assert(all[j] == rest.0[j - 1]);
                    if i > 0 {
                        assert(all[i] == rest.0[i - 1]);
                    }
                }
            },
            Err(_) => {},
        }
    }
}

/// Lexing from a position of the text on yields tokens whose regions lie in
/// the text, and failures that a user may see.
pub proof fn lemma_lex_from_regions(s: Seq<char>, p: int)
    requires
        0 <= p <= s.len() <= usize::MAX,
    ensures
        tokens_within(lex_from(s, p).0, s.len()),
        reportable(lex_from(s, p).1, s.len()),
    decreases s.len() - p,
{
    let at = skip_trivia(s, p, false);
    lemma_skip_trivia_bounds(s, p, false);
    if at < s.len() {
        lemma_scan_advances(s, at);
        let step = scan(s, at);
        lemma_lex_from_regions(s, step.next);
        let rest = lex_from(s, step.next);
        match step.outcome {
            Ok(token) => {
                assert(token.region.within(s.len()));
                assert forall|i: int| 0 <= i < lex_from(s, p).0.len() implies (
                #[trigger] lex_from(s, p).0[i]).region.within(s.len()) by {
                    if i > 0 {
                        assert(lex_from(s, p).0[i] == rest.0[i - 1]);
                    }
                }
            },
            Err(error) => {
                assert(!(error.kind is Spurious) && error.within(s.len()));
                assert forall|i: int| 0 <= i < lex_from(s, p).1.len() implies !((
                #[trigger] lex_from(s, p).1[i]).kind is Spurious) && lex_from(s, p).1[i].within(
                    s.len(),
                ) by {
                    if i > 0 {
                        assert(lex_from(s, p).1[i] == rest.1[i - 1]);
                    }
                }
            },
        }
    }
}

/// Turns a source text into its tokens. White space and comments, which run
/// from a `#` to the end of the line, separate tokens and yield none. Where
/// some part of the text cannot be read, lexing goes on behind it, and all
/// the failures are returned in place of the tokens.
pub fn lex<'a>(source: &'a str) -> (result: Result<(Vec<Token>, LexCtx<'a>), Vec<Error>>)
    ensures
        match result {
            Ok((tokens, ctx)) => {
                &&& lex_spec(source@) == Ok::<Seq<Token>, Seq<ErrorView>>(tokens@)
                &&& ctx.src() == source@
                &&& tokens_within(tokens@, source@.len())
                &&& tokens_in_order(tokens@)
            },
            Err(errors) => {
                &&& lex_spec(source@) == Err::<Seq<Token>, Seq<ErrorView>>(views(errors@))
                &&& errors.len() > 0
                &&& reportable(views(errors@), source@.len())
            },
        },
{
    let chars = characters(source);
    let mut tokens: Vec<Token> = Vec::new();
    let mut errors: Vec<Error> = Vec::new();
    let mut at: usize = 0;
    let ghost s = source@;
    assert(tokens@ + lex_from(s, 0).0 =~= lex_from(s, 0).0);
    assert(views(errors@) + lex_from(s, 0).1 =~= lex_from(s, 0).1);
    loop
        invariant
            chars@ == s,
            at <= chars.len(),
            lex_from(s, 0).0 == tokens@ + lex_from(s, at as int).0,
            lex_from(s, 0).1 == views(errors@) + lex_from(s, at as int).1,
        ensures
            lex_from(s, 0).0 == tokens@,
            lex_from(s, 0).1 == views(errors@),
        decreases chars.len() - at,
    {
        let start = skip(&chars, at);
        if start >= chars.len() {
            assert(tokens@ + Seq::<Token>::empty() =~= tokens@);
            assert(views(errors@) + Seq::<ErrorView>::empty() =~= views(errors@));
            break;
        }
        let ghost rest = lex_from(s, scan(s, start as int).next);
        let (outcome, next) = scan_at(&chars, start);
        match outcome {
            Ok(token) => {
                let ghost before = tokens@;
                tokens.push(token);
                assert(tokens@ + rest.0 =~= before + (seq![token] + rest.0));
            },
            Err(error) => {
                let ghost before = views(errors@);
                errors.push(error);
                assert(views(errors@) =~= before.push(error@));
                assert(views(errors@) + rest.1 =~= before + (seq![error@] + rest.1));
            },
        }
        at = next;
    }
    proof {
        lemma_lex_from_regions(s, 0);
        lemma_lex_from_order(s, 0);
    }
    if errors.len() == 0 {
        assert(views(errors@).len() == 0);
        Ok((tokens, LexCtx { src: source }))
    } else {
        assert(views(errors@).len() == errors.len());
        Err(errors)
    }
}

} // verus!
