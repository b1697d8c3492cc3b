//! A cursor over source text: the characters, a place among them, and the
//! line and column of that place.

use vstd::prelude::*;
use crate::compiler::lexer::TokenMetadata;

verus! {

/// The number of line feeds among the first `i` characters of `s`.
pub open spec fn line_breaks(s: Seq<char>, i: int) -> nat
    decreases i,
{
    if i <= 0 || i > s.len() {
        0
    } else if s[i - 1] == '\n' {
        line_breaks(s, i - 1) + 1
    } else {
        line_breaks(s, i - 1)
    }
}

/// The index at which the line that holds index `i` begins: just behind the
/// last line feed before `i`, or 0.
pub open spec fn line_start(s: Seq<char>, i: int) -> int
    decreases i,
{
    if i <= 0 || i > s.len() {
        0
    } else if s[i - 1] == '\n' {
        i
    } else {
        line_start(s, i - 1)
    }
}

/// The line of index `i`, counted from 1.
pub open spec fn line_of(s: Seq<char>, i: int) -> int {
    line_breaks(s, i) as int + 1
}

/// The column of index `i`, counted from 1.
pub open spec fn column_of(s: Seq<char>, i: int) -> int {
    i - line_start(s, i) + 1
}

/// A count as a `usize`: itself, or `usize::MAX` where it is greater. Only
/// at the end of a text of `usize::MAX` characters can a line or a column
/// be greater.
pub open spec fn clipped(count: int) -> usize {
    if count <= usize::MAX {
        count as usize
    } else {
        usize::MAX
    }
}

/// The line and column of index `i` of `s`. The end of the text, `s.len()`,
/// has a position too.
pub open spec fn position_at(s: Seq<char>, i: int) -> TokenMetadata {
    TokenMetadata { line_number: clipped(line_of(s, i)), char_number: clipped(column_of(s, i)) }
}

/// Lines and columns lie between 1 and one more than the index.
pub proof fn lemma_position_bounds(s: Seq<char>, i: int)
    requires
        0 <= i <= s.len(),
    ensures
        1 <= line_of(s, i) <= i + 1,
        1 <= column_of(s, i) <= i + 1,
        0 <= line_start(s, i) <= i,
    decreases i,
{
    if i > 0 {
        lemma_position_bounds(s, i - 1);
    }
}

struct Place {
    index: usize,
    line: usize,
    column: usize,
}

/// Source text with a current place in it.
pub struct Cursor {
    chars: Vec<char>,
    place: Place,
}

impl Cursor {
    /// What holds of every cursor: the place lies within the text, and line
    /// and column are those of the place.
    #[verifier::type_invariant]
    pub closed spec fn well_formed(&self) -> bool {
        self.place.fits(self.chars@)
    }

    /// The whole text.
    pub closed spec fn source(&self) -> Seq<char> {
        self.chars@
    }

    /// The index of the current character; `source().len()` at the end.
    pub closed spec fn index(&self) -> int {
        self.place.index as int
    }

    /// The place of a cursor lies within its text, or at its end.
    pub proof fn lemma_bounds(&self)
        requires
            self.well_formed(),
        ensures
            0 <= self.index() <= self.source().len() <= usize::MAX,
    {
    }

    /// A cursor at the start of `source`.
    pub fn new(source: &str) -> (cursor: Cursor)
        ensures
            cursor.source() == source@,
            cursor.index() == 0,
    {
        let mut chars: Vec<char> = Vec::new();
        for c in it: source.chars()
            invariant
                chars@ == it.history(),
        {
            chars.push(c);
        }
        assert(chars@.len() == chars.len());
        Cursor { chars, place: Place { index: 0, line: 1, column: 1 } }
    }

    /// Whether nothing is left to read.
    pub fn at_end(&self) -> (b: bool)
        ensures
            b == (self.index() == self.source().len()),
            0 <= self.index() <= self.source().len() <= usize::MAX,
    {
        proof {
            use_type_invariant(self);
        }
        self.place.index == self.chars.len()
    }

    /// The current character, if any is left.
    pub fn peek(&self) -> (c: Option<char>)
        ensures
            0 <= self.index() <= self.source().len() <= usize::MAX,
            c == if self.index() < self.source().len() {
                Some(self.source()[self.index()])
            } else {
                None
            },
    {
        proof {
            use_type_invariant(self);
        }
        if self.place.index < self.chars.len() {
            Some(self.chars[self.place.index])
        } else {
            None
        }
    }

    /// The character `ahead` places behind the current one, if the text
    /// reaches that far.
    pub fn peek_ahead(&self, ahead: usize) -> (c: Option<char>)
        ensures
            0 <= self.index() <= self.source().len() <= usize::MAX,
            c == if self.index() + ahead < self.source().len() {
                Some(self.source()[self.index() + ahead])
            } else {
                None
            },
    {
        proof {
            use_type_invariant(self);
        }
        if ahead < self.chars.len() - self.place.index {
            Some(self.chars[self.place.index + ahead])
        } else {
            None
        }
    }

    /// The line and column of the current place.
    pub fn position(&self) -> (position: TokenMetadata)
        ensures
            position == position_at(self.source(), self.index()),
    {
        proof {
            use_type_invariant(self);
        }
        TokenMetadata { line_number: self.place.line, char_number: self.place.column }
    }

    /// The position of the end of the text, just behind its last character.
    pub fn end_position(&self) -> (position: TokenMetadata)
        ensures
            position == position_at(self.source(), self.source().len() as int),
    {
        proof {
            use_type_invariant(self);
        }
        let mut place = Place {
            index: self.place.index,
            line: self.place.line,
            column: self.place.column,
        };
        while place.index < self.chars.len()
            invariant
                place.fits(self.chars@),
            decreases self.chars@.len() - place.index,
        {
            place = place.behind(&self.chars);
        }
        TokenMetadata { line_number: place.line, char_number: place.column }
    }

    /// Steps over the current character. At the end nothing changes.
    pub fn advance(&mut self)
        ensures
            final(self).source() == old(self).source(),
            final(self).index() == if old(self).index() < old(self).source().len() {
                old(self).index() + 1
            } else {
                old(self).index()
            },
    {
        proof {
            use_type_invariant(&*self);
        }
        if self.place.index < self.chars.len() {
            self.place = self.place.behind(&self.chars);
        }
    }

    /// Steps over `count` characters, or over as many as are left.
    pub fn advance_by(&mut self, count: usize)
        ensures
            final(self).source() == old(self).source(),
            final(self).index() == if old(self).index() + count <= old(self).source().len() {
                old(self).index() + count
            } else {
                old(self).source().len() as int
            },
    {
        proof {
            use_type_invariant(&*self);
        }
        let mut left = count;
        while left > 0 && self.place.index < self.chars.len()
            invariant
                self.chars == old(self).chars,
                self.well_formed(),
                left <= count,
                self.place.index <= self.chars@.len(),
                self.place.index - old(self).place.index == count - left,
            decreases left,
        {
            self.place = self.place.behind(&self.chars);
            left = left - 1;
        }
    }
}

impl Place {
    /// Whether this is a place of the text `s`, with its line and column.
    spec fn fits(&self, s: Seq<char>) -> bool {
        &&& self.index <= s.len() <= usize::MAX
        &&& self.line == clipped(line_of(s, self.index as int))
        &&& self.column == clipped(column_of(s, self.index as int))
    }

    /// The place one character on, in a text that has a character at this
    /// place.
    fn behind(&self, chars: &Vec<char>) -> (next: Place)
        requires
            self.fits(chars@),
            self.index < chars@.len(),
        ensures
            next.fits(chars@),
            next.index == self.index + 1,
    {
        proof {
            lemma_position_bounds(chars@, self.index as int);
            lemma_position_bounds(chars@, self.index + 1);
        }
        if chars[self.index] == '\n' {
            Place { index: self.index + 1, line: self.line.saturating_add(1), column: 1 }
        } else {
            Place { index: self.index + 1, line: self.line, column: self.column.saturating_add(1) }
        }
    }
}

} // verus!
