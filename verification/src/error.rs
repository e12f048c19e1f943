//! Diagnostics: what went wrong, where, and in which context.

use vstd::prelude::*;
use vstd::string::StringExecFns;

use crate::util::SrcRegion;
use crate::Thing;

verus! {

/// What went wrong.
#[derive(Clone, Debug, PartialEq)]
pub enum ErrorKind {
    /// A placeholder that stands for no failure at all. It fills the slot in
    /// which failures are collected and is never handed to a user.
    Spurious,
    /// A character that starts no lexeme.
    UnexpectedChar(char),
    /// A run of operator characters that spells no operator.
    UnknownOperator(String),
    /// The input ended where more was required.
    UnexpectedEof,
    /// Something else stood where the thing was required.
    Expected(Thing),
    /// Expressions are nested more deeply than the parser follows.
    TooDeep,
}

/// The mathematical value of an [`ErrorKind`].
pub enum KindView {
    Spurious,
    UnexpectedChar(char),
    UnknownOperator(Seq<char>),
    UnexpectedEof,
    Expected(Thing),
    TooDeep,
}

impl View for ErrorKind {
    type V = KindView;

    open spec fn view(&self) -> KindView {
        match self {
            ErrorKind::Spurious => KindView::Spurious,
            ErrorKind::UnexpectedChar(c) => KindView::UnexpectedChar(*c),
            ErrorKind::UnknownOperator(op) => KindView::UnknownOperator(op@),
            ErrorKind::UnexpectedEof => KindView::UnexpectedEof,
            ErrorKind::Expected(thing) => KindView::Expected(*thing),
            ErrorKind::TooDeep => KindView::TooDeep,
        }
    }
}

/// What `{:?}` of std prints for the character `c`: the character between
/// single quotes, escaped where it cannot stand for itself.
pub uninterp spec fn char_debug(c: char) -> Seq<char>;

/// What `{:?}` of std prints for the string `text`: the string between
/// double quotes, with the characters escaped that cannot stand for
/// themselves.
pub uninterp spec fn str_debug(text: Seq<char>) -> Seq<char>;

/// `{:?}` of std, applied to a character. What it prints depends on the
/// character alone.
#[verifier::external_body]
fn debug_of_char(c: char) -> (shown: String)
    ensures
        shown@ == char_debug(c),
{
    format!("{:?}", c)
}

/// `{:?}` of std, applied to a string. What it prints depends on the
/// characters of the string alone.
#[verifier::external_body]
fn debug_of_str(text: &str) -> (shown: String)
    ensures
        shown@ == str_debug(text@),
{
    format!("{:?}", text)
}

impl KindView {
    /// What the kind holds besides things, as `{:?}` prints it: a character
    /// or a string, and nothing for the other kinds.
    pub open spec fn payload(self) -> Seq<char> {
        match self {
            KindView::UnexpectedChar(c) => char_debug(c),
            KindView::UnknownOperator(op) => str_debug(op),
            _ => Seq::empty(),
        }
    }

    /// The kind as `{:?}` prints it, given what it prints for the character
    /// or the string that the kind holds.
    pub open spec fn debug_with(self, payload: Seq<char>) -> Seq<char> {
        match self {
            KindView::Spurious => "Spurious"@,
            KindView::UnexpectedChar(_) => "UnexpectedChar("@ + payload + ")"@,
            KindView::UnknownOperator(_) => "UnknownOperator("@ + payload + ")"@,
            KindView::UnexpectedEof => "UnexpectedEof"@,
            KindView::Expected(thing) => "Expected("@ + thing.debug() + ")"@,
            KindView::TooDeep => "TooDeep"@,
        }
    }

    /// The kind as `{:?}` prints it.
    pub open spec fn debug(self) -> Seq<char> {
        self.debug_with(self.payload())
    }
}

/// A diagnostic: its kind, the region of the source text that it is about,
/// the contexts in which it arose, and advice for the user.
#[derive(Clone, Debug, PartialEq)]
pub struct Error {
    kind: ErrorKind,
    region: Option<SrcRegion>,
    while_parsing: Vec<Thing>,
    hint: Option<&'static str>,
}

/// The mathematical value of an [`Error`].
pub struct ErrorView {
    pub kind: KindView,
    pub region: Option<SrcRegion>,
    /// The contexts from the innermost, which comes first, to the outermost.
    pub while_parsing: Seq<Thing>,
    pub hint: Option<Seq<char>>,
}

impl ErrorView {
    /// A diagnostic of the given kind with no region, context or hint.
    pub open spec fn plain(kind: KindView) -> ErrorView {
        ErrorView { kind, region: None, while_parsing: Seq::empty(), hint: None }
    }

    /// The same diagnostic with `region` in place of its region.
    pub open spec fn at(self, region: Option<SrcRegion>) -> ErrorView {
        ErrorView { region, ..self }
    }

    /// The same diagnostic with `thing` added as its outermost context.
    pub open spec fn while_parsing(self, thing: Thing) -> ErrorView {
        ErrorView { while_parsing: self.while_parsing.push(thing), ..self }
    }

    /// The same diagnostic with `hint` as its advice.
    pub open spec fn hint(self, hint: Seq<char>) -> ErrorView {
        ErrorView { hint: Some(hint), ..self }
    }

    /// How far into the source text the diagnostic lies: the start of its
    /// region, or -1 where it has none.
    pub open spec fn reach(self) -> int {
        match self.region {
            Some(region) => region.start().0 as int,
            None => -1,
        }
    }

    /// Of two diagnostics the one that lies farther into the source text;
    /// `other` where neither lies farther than the other.
    pub open spec fn max(self, other: ErrorView) -> ErrorView {
        if self.reach() > other.reach() {
            self
        } else {
            other
        }
    }

    /// The region, if there is one, is well formed and lies in a text of
    /// `len` characters.
    pub open spec fn within(self, len: nat) -> bool {
        self.region matches Some(region) ==> region.within(len)
    }
}

/// The mathematical values of a list of diagnostics, in the same order.
pub open spec fn views(errors: Seq<Error>) -> Seq<ErrorView> {
    errors.map_values(|error: Error| error@)
}

impl View for Error {
    type V = ErrorView;

    closed spec fn view(&self) -> ErrorView {
        ErrorView {
            kind: self.kind@,
            region: self.region,
            while_parsing: self.while_parsing@,
            hint: match self.hint {
                Some(hint) => Some(hint@),
                None => None,
            },
        }
    }
}

impl Error {
    /// The placeholder that stands for no failure.
    pub fn spurious() -> (error: Error)
        ensures
            error@ == ErrorView::plain(KindView::Spurious),
    {
        Error::from(ErrorKind::Spurious)
    }

    /// The character `c` starts no lexeme.
    pub fn unexpected_char(c: char) -> (error: Error)
        ensures
            error@ == ErrorView::plain(KindView::UnexpectedChar(c)),
    {
        Error::from(ErrorKind::UnexpectedChar(c))
    }

    /// The operator characters `op` spell no operator.
    pub fn unknown_operator(op: String) -> (error: Error)
        ensures
            error@ == ErrorView::plain(KindView::UnknownOperator(op@)),
    {
        Error::from(ErrorKind::UnknownOperator(op))
    }

    /// The input ended where more was required.
    pub fn unexpected_eof() -> (error: Error)
        ensures
            error@ == ErrorView::plain(KindView::UnexpectedEof),
    {
        Error::from(ErrorKind::UnexpectedEof)
    }

    /// Something else stood where `thing` was required.
    pub fn expected(thing: Thing) -> (error: Error)
        ensures
            error@ == ErrorView::plain(KindView::Expected(thing)),
    {
        Error::from(ErrorKind::Expected(thing))
    }

    /// Expressions are nested more deeply than the parser follows.
    pub fn too_deep() -> (error: Error)
        ensures
            error@ == ErrorView::plain(KindView::TooDeep),
    {
        Error::from(ErrorKind::TooDeep)
    }

    /// Sets the region of the diagnostic, in place of the one it had.
    pub fn at(self, region: Option<SrcRegion>) -> (error: Error)
        ensures
            error@ == self@.at(region),
    {
        let mut error = self;
        error.region = region;
        error
    }

    /// Adds `thing` to the contexts of the diagnostic, as the outermost.
    pub fn while_parsing(self, thing: Thing) -> (error: Error)
        ensures
            error@ == self@.while_parsing(thing),
    {
        let mut error = self;
        error.while_parsing.push(thing);
        error
    }

    /// Sets the advice of the diagnostic, in place of the one it had.
    pub fn hint(self, hint: &'static str) -> (error: Error)
        ensures
            error@ == self@.hint(hint@),
    {
        let mut error = self;
        error.hint = Some(hint);
        error
    }

    /// Chooses between two diagnostics the one that lies farther into the
    /// source text. A diagnostic with a region lies farther than one without.
    /// Where neither lies farther than the other, `other` is chosen.
    pub fn max(self, other: Error) -> (error: Error)
        ensures
            error == (if self@.reach() > other@.reach() {
                self
            } else {
                other
            }),
            error@ == self@.max(other@),
    {
        let farther = match (self.region, other.region) {
            (Some(a), Some(b)) => a.later_than(b),
            (Some(_), None) => true,
            (None, _) => false,
        };
        if farther {
            self
        } else {
            other
        }
    }

    /// The kind of the diagnostic.
    pub fn kind(&self) -> (kind: &ErrorKind)
        ensures
            kind@ == self@.kind,
    {
        &self.kind
    }

    /// The region that the diagnostic is about, if it has one.
    pub fn region(&self) -> (region: Option<SrcRegion>)
        ensures
            region == self@.region,
    {
        self.region
    }

    /// The contexts in which the diagnostic arose, from the innermost to the
    /// outermost.
    pub fn contexts(&self) -> (contexts: &Vec<Thing>)
        ensures
            contexts@ == self@.while_parsing,
    {
        &self.while_parsing
    }

    /// The advice that the diagnostic carries, if any.
    pub fn advice(&self) -> (advice: Option<&'static str>)
        ensures
            advice is Some == self@.hint is Some,
            advice matches Some(words) ==> self@.hint == Some(words@),
    {
        self.hint
    }

    /// Whether the diagnostic is the placeholder that stands for no failure.
    pub fn is_spurious(&self) -> (yes: bool)
        ensures
            yes == (self@.kind is Spurious),
    {
        match self.kind {
            ErrorKind::Spurious => true,
            _ => false,
        }
    }
}

impl From<ErrorKind> for Error {
    /// A diagnostic of the given kind with no region, context or hint.
    fn from(kind: ErrorKind) -> (error: Error)
        ensures
            error@ == ErrorView::plain(kind@),
    {
        Error { kind, region: None, while_parsing: Vec::new(), hint: None }
    }
}

/// Two diagnostics of one value need not be one and the same, so `from` is
/// not held to yield `from_spec`: it states the value of its result itself.
impl vstd::std_specs::convert::FromSpecImpl<ErrorKind> for Error {
    open spec fn obeys_from_spec() -> bool {
        false
    }

    open spec fn from_spec(kind: ErrorKind) -> Error {
        choose|error: Error| error@ == ErrorView::plain(kind@)
    }
}

/// Choosing among diagnostics does not depend on how the choices are
/// grouped.
pub proof fn lemma_max_is_associative(a: ErrorView, b: ErrorView, c: ErrorView)
    ensures
        a.max(b).max(c) == a.max(b.max(c)),
{
}

/// Choosing among three diagnostics yields the one that lies farthest into
/// the source text, and of several that lie equally far the last: `c` unless
/// another lies farther, and `b` rather than `a` unless `a` lies farther.
pub proof fn lemma_max_is_farthest(a: ErrorView, b: ErrorView, c: ErrorView)
    ensures
        a.max(b).max(c).reach() >= a.reach(),
        a.max(b).max(c).reach() >= b.reach(),
        a.max(b).max(c).reach() >= c.reach(),
        a.max(b).max(c) == (if c.reach() >= a.reach() && c.reach() >= b.reach() {
            c
        } else if b.reach() >= a.reach() {
            b
        } else {
            a
        }),
{
}

/// A diagnostic with a region lies farther than one without, and of two
/// with a region the one whose region is later than the other's.
pub proof fn lemma_reach_orders_regions(a: ErrorView, b: ErrorView)
    ensures
        a.region is Some && b.region is None ==> a.reach() > b.reach(),
        a.region is None ==> a.reach() <= b.reach(),
        a.region is Some && b.region is Some ==> (a.reach() > b.reach()
            <==> a.region->0.later_than(b.region->0)),
{
}

/// Choosing yields one of the two diagnostics, so that no placeholder is
/// chosen unless one of the two is a placeholder; and beside any diagnostic
/// with a region, or as the first of two, a placeholder without a region
/// is never chosen.
pub proof fn lemma_max_drops_placeholder(a: ErrorView, b: ErrorView)
    ensures
        a.max(b) == a || a.max(b) == b,
        ErrorView::plain(KindView::Spurious).max(b) == b,
        b.region is Some ==> b.max(ErrorView::plain(KindView::Spurious)) == b,
{
}

/// What names the contexts of a diagnostic, the innermost first.
pub open spec fn contexts_text(contexts: Seq<Thing>) -> Seq<char>
    decreases contexts.len(),
{
    if contexts.len() == 0 {
        Seq::empty()
    } else {
        contexts_text(contexts.drop_last()) + ", while parsing "@ + contexts.last().debug()
    }
}

/// What a user reads of a diagnostic about the text `source`, given what
/// `{:?}` prints for the character or the string that its kind holds: the
/// text of its region, if it has one, directly followed by its kind as
/// `{:?}` prints it; then its contexts, and then its advice, if it has any.
pub open spec fn rendered_with(error: ErrorView, payload: Seq<char>, source: Seq<char>) -> Seq<
    char,
> {
    (match error.region {
        Some(region) => region.text(source),
        None => Seq::empty(),
    }) + error.kind.debug_with(payload) + contexts_text(error.while_parsing) + (match error.hint {
        Some(hint) => "; hint: "@ + hint,
        None => Seq::empty(),
    })
}

/// What a user reads of a diagnostic about the text `source`.
pub open spec fn rendered(error: ErrorView, source: Seq<char>) -> Seq<char> {
    rendered_with(error, error.kind.payload(), source)
}

/// What `{:?}` prints for the character or the string that the kind holds.
fn payload_of(kind: &ErrorKind) -> (payload: String)
    ensures
        payload@ == kind@.payload(),
{
    match kind {
        ErrorKind::UnexpectedChar(c) => debug_of_char(*c),
        ErrorKind::UnknownOperator(op) => debug_of_str(op.as_str()),
        _ => String::new(),
    }
}

/// Appends the kind to `out` as `{:?}` prints it, with `payload` for the
/// character or the string that the kind holds.
pub fn push_kind(out: &mut String, kind: &ErrorKind, payload: &str)
    ensures
        final(out)@ == old(out)@ + kind@.debug_with(payload@),
{
    match kind {
        ErrorKind::Spurious => {
            out.append("Spurious");
        },
        ErrorKind::UnexpectedChar(_) => {
            out.append("UnexpectedChar(");
            out.append(payload);
            out.append(")");
            assert(out@ =~= old(out)@ + kind@.debug_with(payload@));
        },
        ErrorKind::UnknownOperator(_) => {
            out.append("UnknownOperator(");
            out.append(payload);
            out.append(")");
            assert(out@ =~= old(out)@ + kind@.debug_with(payload@));
        },
        ErrorKind::UnexpectedEof => {
            out.append("UnexpectedEof");
        },
        ErrorKind::Expected(thing) => {
            out.append("Expected(");
            thing.push_debug(out);
            out.append(")");
            assert(out@ =~= old(out)@ + kind@.debug_with(payload@));
        },
        ErrorKind::TooDeep => {
            out.append("TooDeep");
        },
    }
}

fn push_contexts(out: &mut String, contexts: &Vec<Thing>)
    ensures
        final(out)@ == old(out)@ + contexts_text(contexts@),
{
    let mut i: usize = 0;
    assert(out@ =~= old(out)@ + contexts_text(contexts@.take(0)));
    while i < contexts.len()
        invariant
            i <= contexts.len(),
            out@ == old(out)@ + contexts_text(contexts@.take(i as int)),
        decreases contexts.len() - i,
    {
        out.append(", while parsing ");
        contexts[i].push_debug(out);
        proof {
            let seen = contexts@.take(i + 1);
            assert(seen.drop_last() =~= contexts@.take(i as int));
            assert(seen.last() == contexts@[i as int]);
            assert(out@ =~= old(out)@ + contexts_text(seen));
        }
        i = i + 1;
    }
    assert(contexts@.take(contexts.len() as int) =~= contexts@);
}

/// What is needed to show a diagnostic to a user: the name of the file that
/// was read, and its text.
pub struct ErrorCtx<'a> {
    file: &'a str,
    src: &'a str,
}

impl<'a> ErrorCtx<'a> {
    /// The name of the file.
    pub closed spec fn file(&self) -> Seq<char> {
        self.file@
    }

    /// The text of the file.
    pub closed spec fn src(&self) -> Seq<char> {
        self.src@
    }

    /// Whether the diagnostic can be shown against this text: it is no
    /// placeholder, and its region, if it has one, lies in the text.
    pub open spec fn shows(&self, error: ErrorView) -> bool {
        !(error.kind is Spurious) && error.within(self.src().len())
    }

    /// A context for the file named `file` with the text `src`.
    pub fn new(file: &'a str, src: &'a str) -> (ctx: ErrorCtx<'a>)
        ensures
            ctx.file() == file@,
            ctx.src() == src@,
    {
        ErrorCtx { file, src }
    }

    /// The text of the file.
    pub fn source(&self) -> (src: &'a str)
        ensures
            src@ == self.src(),
    {
        self.src
    }

    /// The name of the file.
    pub fn file_name(&self) -> (file: &'a str)
        ensures
            file@ == self.file(),
    {
        self.file
    }

    /// Whether `fmt_error` accepts the diagnostic.
    pub fn can_show(&self, error: &Error) -> (yes: bool)
        ensures
            yes == self.shows(error@),
    {
        if error.is_spurious() {
            return false;
        }
        match error.region() {
            Some(region) => region.fits(self.src),
            None => true,
        }
    }

    /// Appends to `output` what a user reads of the diagnostic, with
    /// `payload` for what `{:?}` prints for the character or the string that
    /// its kind holds. A placeholder is never shown, and the region of the
    /// diagnostic must lie in the text.
    pub fn fmt_error_with(&self, error: &Error, payload: &str, output: &mut String)
        requires
            self.shows(error@),
        ensures
            final(output)@ == old(output)@ + rendered_with(error@, payload@, self.src()),
    {
        match error.region() {
            Some(region) => {
                output.append(region.slice(self.src));
            },
            None => {
                assert(output@ =~= old(output)@ + Seq::<char>::empty());
            },
        }
        push_kind(output, error.kind(), payload);
        push_contexts(output, error.contexts());
        match error.advice() {
            Some(hint) => {
                output.append("; hint: ");
                output.append(hint);
            },
            None => {},
        }
        assert(output@ =~= old(output)@ + rendered_with(error@, payload@, self.src()));
    }

    /// Appends to `output` what a user reads of the diagnostic: the text of
    /// its region, directly followed by its kind as `{:?}` prints it, then
    /// its contexts and its advice. A placeholder is never shown, and the
    /// region of the diagnostic must lie in the text.
    pub fn fmt_error(&self, error: &Error, output: &mut String)
        requires
            self.shows(error@),
        ensures
            final(output)@ == old(output)@ + rendered(error@, self.src()),
    {
        let payload = payload_of(error.kind());
        self.fmt_error_with(error, payload.as_str(), output);
    }

    /// What a user reads of the diagnostic, as a string of its own.
    pub fn render(&self, error: &Error) -> (text: String)
        requires
            self.shows(error@),
        ensures
            text@ == rendered(error@, self.src()),
    {
        let mut text = String::new();
        self.fmt_error(error, &mut text);
        assert(text@ =~= rendered(error@, self.src()));
        text
    }
}

} // verus!
