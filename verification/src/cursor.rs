//! Positions in a buffer, and the motions between them.

use vstd::prelude::*;

use crate::pixel::{zero, Px};

verus! {

/// Which of two lines a cursor at a wrap, or which of two glyphs a cursor at
/// a change of direction, belongs to.
#[derive(Clone, Copy, PartialEq, Eq, Structural, Debug)]
pub enum Affinity {
    /// To what is in front of the cursor.
    Before,
    /// To what is behind the cursor.
    After,
}

/// A position in the text of a buffer.
#[derive(Clone, Copy, PartialEq, Eq, Structural, Debug)]
pub struct Cursor {
    /// Index of the line.
    pub line: usize,
    /// Byte within the line.
    pub index: usize,
    /// What the cursor belongs to.
    pub affinity: Affinity,
}

impl Cursor {
    /// A cursor that belongs to what is in front of it.
    pub fn new(line: usize, index: usize) -> (r: Cursor)
        ensures
            r == (Cursor { line, index, affinity: Affinity::Before }),
    {
        Cursor { line, index, affinity: Affinity::Before }
    }

    /// A cursor with the given affinity.
    pub fn new_with_affinity(line: usize, index: usize, affinity: Affinity) -> (r: Cursor)
        ensures
            r == (Cursor { line, index, affinity }),
    {
        Cursor { line, index, affinity }
    }
}

/// A position in the layout of a buffer.
#[derive(Clone, Copy, PartialEq, Eq, Structural, Debug)]
pub struct LayoutCursor {
    /// Index of the line.
    pub line: usize,
    /// Index of the visual line within the line.
    pub layout: usize,
    /// Index of the glyph within the visual line.
    pub glyph: usize,
}

impl LayoutCursor {
    /// A position in the layout.
    pub fn new(line: usize, layout: usize, glyph: usize) -> (r: LayoutCursor)
        ensures
            r == (LayoutCursor { line, layout, glyph }),
    {
        LayoutCursor { line, layout, glyph }
    }
}

/// A motion of a cursor.
#[derive(Clone, Copy, PartialEq, Eq, Structural, Debug)]
pub enum Motion {
    /// To a position in the layout.
    LayoutCursor(LayoutCursor),
    /// One cluster back in the text.
    Previous,
    /// One cluster forth in the text.
    Next,
    /// One cluster to the left.
    Left,
    /// One cluster to the right.
    Right,
    /// One visual line up.
    Up,
    /// One visual line down.
    Down,
    /// To the start of the line.
    Home,
    /// To the first character of the line that is not white space.
    SoftHome,
    /// To the end of the line.
    End,
    /// To the start of the paragraph.
    ParagraphStart,
    /// To the end of the paragraph.
    ParagraphEnd,
    /// Up by the height of the buffer.
    PageUp,
    /// Down by the height of the buffer.
    PageDown,
    /// Up or down by a number of pixels.
    Vertical(i32),
    /// One word back in the text.
    PreviousWord,
    /// One word forth in the text.
    NextWord,
    /// One word to the left.
    LeftWord,
    /// One word to the right.
    RightWord,
    /// To the start of the text.
    BufferStart,
    /// To the end of the text.
    BufferEnd,
    /// To the line with the given index.
    GotoLine(usize),
}

/// The part of the layout at which the view begins.
#[derive(Clone, Copy, PartialEq, Eq, Structural, Debug)]
pub struct Scroll {
    /// Index of the line at the top of the view.
    pub line: usize,
    /// How far the top of the view is below the top of that line.
    pub vertical: Px,
    /// How far the left edge of the view is to the right.
    pub horizontal: Px,
}

impl Scroll {
    /// The very start.
    pub open spec fn start() -> Scroll {
        Scroll { line: 0, vertical: zero(), horizontal: zero() }
    }

    /// Equality of the line and of both quantities.
    pub open spec fn same(self, other: Scroll) -> bool {
        self.line == other.line && self.vertical.same(other.vertical) && self.horizontal.same(
            other.horizontal,
        )
    }

    /// A scroll position.
    pub fn new(line: usize, vertical: Px, horizontal: Px) -> (r: Scroll)
        ensures
            r == (Scroll { line, vertical, horizontal }),
    {
        Scroll { line, vertical, horizontal }
    }

    /// Tells whether the line and both quantities are equal.
    pub fn equals(self, other: Scroll) -> (r: bool)
        ensures
            r == self.same(other),
    {
        self.line == other.line && self.vertical.equals(other.vertical) && self.horizontal.equals(
            other.horizontal,
        )
    }
}

impl Default for Scroll {
    fn default() -> (r: Scroll)
        ensures
            r == Scroll::start(),
    {
        Scroll { line: 0, vertical: Px::nothing(), horizontal: Px::nothing() }
    }
}

} // verus!
