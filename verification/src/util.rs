//! Positions and regions in a source text.
//!
//! A source text is a sequence of characters. A position counts the characters
//! in front of it, so position 0 is the start of the text and the position
//! that equals the length of the text is its end.

use vstd::prelude::*;
use vstd::string::StrSliceExecFns;

verus! {

/// A position in a source text: the number of characters in front of it.
/// Positions are ordered as these numbers are.
#[derive(Clone, Copy, Debug, PartialEq, Eq, PartialOrd, Ord, Hash, Structural)]
pub struct SrcLoc(pub usize);

/// The number of line breaks in `text`.
pub open spec fn line_of(text: Seq<char>) -> nat
    decreases text.len(),
{
    if text.len() == 0 {
        0
    } else if text.last() == '\n' {
        line_of(text.drop_last()) + 1
    } else {
        line_of(text.drop_last())
    }
}

/// The number of characters of `text` that follow its last line break.
pub open spec fn column_of(text: Seq<char>) -> nat
    decreases text.len(),
{
    if text.len() == 0 || text.last() == '\n' {
        0
    } else {
        column_of(text.drop_last()) + 1
    }
}

/// Neither count exceeds the length of the text.
pub proof fn lemma_line_column_bounds(text: Seq<char>)
    ensures
        line_of(text) <= text.len(),
        column_of(text) <= text.len(),
    decreases text.len(),
{
    if text.len() > 0 {
        lemma_line_column_bounds(text.drop_last());
    }
}

impl SrcLoc {
    /// The position as a number of characters.
    pub open spec fn spec_offset(self) -> usize {
        self.0
    }

    #[verifier::when_used_as_spec(spec_offset)]
    pub fn offset(self) -> (n: usize)
        ensures
            n == self.0,
    {
        self.0
    }

    /// Line and column of the position in `source`, both counted from zero:
    /// the line is the number of line breaks in front of the position, the
    /// column the number of characters between the last of them and the
    /// position.
    pub open spec fn line_col(self, source: Seq<char>) -> (nat, nat) {
        (line_of(source.take(self.0 as int)), column_of(source.take(self.0 as int)))
    }

    /// Resolves the position to a line and a column of `source`, both counted
    /// from zero. The position must lie in the text or at its end.
    pub fn to_line_col(self, source: &str) -> (lc: (usize, usize))
        requires
            self.0 <= source@.len(),
        ensures
            lc.0 == self.line_col(source@).0,
            lc.1 == self.line_col(source@).1,
    {
        let before = source.substring_char(0, self.0);
        let mut line: usize = 0;
        let mut column: usize = 0;
        for c in it: before.chars()
            invariant
                it.seq() == before@,
                before@.len() == self.0,
                line == line_of(before@.take(it.index())),
                column == column_of(before@.take(it.index())),
        {
            proof {
                let seen = before@.take(it.index() + 1);
                assert(seen.drop_last() =~= before@.take(it.index()));
                assert(seen.last() == c);
                lemma_line_column_bounds(before@.take(it.index()));
            }
            if c == '\n' {
                line = line + 1;
                column = 0;
            } else {
                column = column + 1;
            }
        }
        proof {
            assert(before@.take(before@.len() as int) =~= before@);
            assert(source@.take(self.0 as int) =~= before@);
        }
        (line, column)
    }
}

/// A part of a source text: a single position, or the characters from one
/// position up to another.
#[derive(Clone, Copy, Debug, PartialEq, Eq, Structural)]
pub enum SrcRegion {
    /// One position.
    Point(SrcLoc),
    /// The characters from the first position up to, and without, the second.
    Range(SrcLoc, SrcLoc),
}

impl SrcRegion {
    /// A range does not end before it starts.
    pub open spec fn wf(self) -> bool {
        match self {
            SrcRegion::Point(_) => true,
            SrcRegion::Range(from, to) => from.0 <= to.0,
        }
    }

    /// Where the region starts.
    pub open spec fn spec_start(self) -> SrcLoc {
        match self {
            SrcRegion::Point(at) => at,
            SrcRegion::Range(from, _) => from,
        }
    }

    /// Where the region ends: a point ends where it starts.
    pub open spec fn spec_end(self) -> SrcLoc {
        match self {
            SrcRegion::Point(at) => at,
            SrcRegion::Range(_, to) => to,
        }
    }

    /// The region is well formed and lies in a text of `len` characters.
    pub open spec fn within(self, len: nat) -> bool {
        self.wf() && self.spec_end().0 <= len
    }

    /// What the region spans in `source`. A range spans the characters
    /// between its two positions. A point spans the one character that
    /// follows it, and nothing at the end of the text.
    pub open spec fn text(self, source: Seq<char>) -> Seq<char> {
        match self {
            SrcRegion::Point(at) => if at.0 < source.len() {
                source.subrange(at.0 as int, at.0 + 1)
            } else {
                Seq::empty()
            },
            SrcRegion::Range(from, to) => source.subrange(from.0 as int, to.0 as int),
        }
    }

    /// The region starts strictly after `other` starts.
    pub open spec fn spec_later_than(self, other: SrcRegion) -> bool {
        self.spec_start().0 > other.spec_start().0
    }

    /// The smallest region that holds both regions.
    pub open spec fn spec_cover(self, other: SrcRegion) -> SrcRegion {
        SrcRegion::Range(
            if self.spec_start().0 <= other.spec_start().0 {
                self.spec_start()
            } else {
                other.spec_start()
            },
            if self.spec_end().0 >= other.spec_end().0 {
                self.spec_end()
            } else {
                other.spec_end()
            },
        )
    }

    #[verifier::when_used_as_spec(spec_start)]
    pub fn start(self) -> (at: SrcLoc)
        ensures
            at == self.spec_start(),
    {
        match self {
            SrcRegion::Point(at) => at,
            SrcRegion::Range(from, _) => from,
        }
    }

    #[verifier::when_used_as_spec(spec_end)]
    pub fn end(self) -> (at: SrcLoc)
        ensures
            at == self.spec_end(),
    {
        match self {
            SrcRegion::Point(at) => at,
            SrcRegion::Range(_, to) => to,
        }
    }

    /// Whether this region starts strictly after `other` starts. Only the
    /// two starts are compared.
    #[verifier::when_used_as_spec(spec_later_than)]
    pub fn later_than(self, other: SrcRegion) -> (later: bool)
        ensures
            later == self.spec_later_than(other),
    {
        self.start().0 > other.start().0
    }

    /// The smallest region that holds both this region and `other`.
    #[verifier::when_used_as_spec(spec_cover)]
    pub fn cover(self, other: SrcRegion) -> (both: SrcRegion)
        ensures
            both == self.spec_cover(other),
            self.wf() && other.wf() ==> both.wf(),
    {
        let from = if self.start().0 <= other.start().0 {
            self.start()
        } else {
            other.start()
        };
        let to = if self.end().0 >= other.end().0 {
            self.end()
        } else {
            other.end()
        };
        SrcRegion::Range(from, to)
    }

    /// Whether the region is well formed and lies in `source`.
    pub fn fits(self, source: &str) -> (inside: bool)
        ensures
            inside == self.within(source@.len()),
    {
        let len = source.unicode_len();
        match self {
            SrcRegion::Point(at) => at.0 <= len,
            SrcRegion::Range(from, to) => from.0 <= to.0 && to.0 <= len,
        }
    }

    /// The exact text that the region spans in `source`.
    pub fn slice<'a>(self, source: &'a str) -> (part: &'a str)
        requires
            self.within(source@.len()),
        ensures
            part@ == self.text(source@),
    {
        match self {
            SrcRegion::Point(at) => {
                if at.0 < source.unicode_len() {
                    source.substring_char(at.0, at.0 + 1)
                } else {
                    let part = source.substring_char(at.0, at.0);
                    assert(part@ =~= Seq::<char>::empty());
                    part
                }
            },
            SrcRegion::Range(from, to) => source.substring_char(from.0, to.0),
        }
    }
}

/// Of two regions of which one starts strictly after the other, that one is
/// later than the other, and the other is not later than it.
pub proof fn lemma_later_than_is_strict(a: SrcRegion, b: SrcRegion)
    requires
        a.start().0 > b.start().0,
    ensures
        a.later_than(b),
        !b.later_than(a),
{
}

} // verus!
