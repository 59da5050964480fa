//! The terminal cursor in display coordinates.
use vstd::prelude::*;

verus! {

/// A cursor position in the terminal's display: the line counts from the top of the
/// scrollback that is shown.
#[derive(Clone, Copy, Debug, PartialEq, Eq, Structural)]
pub struct DisplayCursor {
    line: i32,
    col: usize,
}

impl DisplayCursor {
    /// The display position of a grid cursor, when the view is scrolled back by
    /// `display_offset` lines.
    pub fn from(cursor_line: i32, cursor_column: usize, display_offset: usize) -> (r: DisplayCursor)
        requires
            display_offset <= i32::MAX,
            cursor_line + display_offset <= i32::MAX,
        ensures
            r.line_spec() == cursor_line + display_offset,
            r.col_spec() == cursor_column,
    {
        DisplayCursor { line: cursor_line + display_offset as i32, col: cursor_column }
    }

    pub closed spec fn line_spec(&self) -> int {
        self.line as int
    }

    pub closed spec fn col_spec(&self) -> nat {
        self.col as nat
    }

    pub fn line(&self) -> (r: i32)
        ensures
            r == self.line_spec(),
    {
        self.line
    }

    pub fn col(&self) -> (r: usize)
        ensures
            r == self.col_spec(),
    {
        self.col
    }
}

} // verus!
