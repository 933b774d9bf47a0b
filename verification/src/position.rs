//! Line and column bookkeeping over a character sequence.

use vstd::prelude::*;

verus! {

/// A place in the source: both coordinates count from 1.
#[derive(Debug, Clone, Copy, PartialEq, Eq, Structural)]
pub struct Position {
    pub line: usize,
    pub column: usize,
}

/// The mathematical counterpart of [`Position`].
pub struct Place {
    pub line: nat,
    pub column: nat,
}

/// The place one character after `p`, when that character is `c`: a line
/// feed opens the next line at column 1, anything else moves one column on.
pub open spec fn step_place(p: Place, c: char) -> Place {
    if c == '\n' {
        Place { line: p.line + 1, column: 1 }
    } else {
        Place { line: p.line, column: p.column + 1 }
    }
}

/// The place of the character at `offset` in `s` (or just past the end).
pub open spec fn place_at(s: Seq<char>, offset: int) -> Place
    decreases offset,
{
    if offset <= 0 || offset > s.len() {
        Place { line: 1, column: 1 }
    } else {
        step_place(place_at(s, offset - 1), s[offset - 1])
    }
}

/// Strict lexicographic order on places: earlier line, or same line and
/// earlier column.
pub open spec fn place_before(a: Place, b: Place) -> bool {
    a.line < b.line || (a.line == b.line && a.column < b.column)
}

/// Both coordinates are at least 1 and together never run ahead of the
/// number of characters consumed.
pub proof fn lemma_place_bounds(s: Seq<char>, offset: int)
    requires
        0 <= offset <= s.len(),
    ensures
        place_at(s, offset).line >= 1,
        place_at(s, offset).column >= 1,
        place_at(s, offset).line + place_at(s, offset).column <= offset + 2,
    decreases offset,
{
    if offset > 0 {
        lemma_place_bounds(s, offset - 1);
    }
}

/// Places grow strictly with the offset.
pub proof fn lemma_place_monotonic(s: Seq<char>, a: int, b: int)
    requires
        0 <= a < b <= s.len(),
    ensures
        place_before(place_at(s, a), place_at(s, b)),
    decreases b - a,
{
    if a + 1 < b {
        lemma_place_monotonic(s, a, b - 1);
    }
}

impl View for Position {
    type V = Place;

    open spec fn view(&self) -> Place {
        Place { line: self.line as nat, column: self.column as nat }
    }
}

impl Position {
    /// Both coordinates count from 1.
    pub open spec fn wf(&self) -> bool {
        self.line >= 1 && self.column >= 1
    }

    /// The place of the first character of any source.
    pub fn start() -> (p: Position)
        ensures
            p.wf(),
            p@ == (Place { line: 1, column: 1 }),
            forall|s: Seq<char>| p@ == #[trigger] place_at(s, 0),
    {
        Position { line: 1, column: 1 }
    }

    /// Moves the position over `source[from..to]`.
    pub fn advance(self, source: &Vec<char>, from: usize, to: usize) -> (p: Position)
        requires
            from <= to <= source@.len(),
            to < usize::MAX,
            self@ == place_at(source@, from as int),
        ensures
            p.wf(),
            p@ == place_at(source@, to as int),
    {
        proof {
            lemma_place_bounds(source@, to as int);
        }
        let mut line: usize = self.line;
        let mut column: usize = self.column;
        let mut i: usize = from;
        while i < to
            invariant
                from <= i <= to <= source@.len(),
                to < usize::MAX,
                (Place { line: line as nat, column: column as nat }) == place_at(source@, i as int),
            decreases to - i,
        {
            proof {
                lemma_place_bounds(source@, i as int);
            }
            if source[i] == '\n' {
                line = line + 1;
                column = 1;
            } else {
                column = column + 1;
            }
            i = i + 1;
        }
        Position { line, column }
    }
}

impl Default for Position {
    /// The place of the first character of any source.
    fn default() -> (p: Position)
        ensures
            p.wf(),
            p@ == (Place { line: 1, column: 1 }),
    {
        Position { line: 1, column: 1 }
    }
}

} // verus!
