//! The window of the document shown on screen.
use vstd::prelude::*;

use crate::cursor::Cursor;
use crate::document::Document;
use crate::render_buffer::{BOTTOM_SPACE_SIZE, LEFT_SPACE_SIZE, TOP_SPACE_SIZE};

verus! {

pub const ROW_DISTANCE: usize = 4;

pub const COL_DISTANCE: usize = 6;

/// `n - d`, or 0 when `d` exceeds `n`.
pub open spec fn sat_sub(n: int, d: int) -> int {
    if n > d {
        n - d
    } else {
        0
    }
}

/// The first row shown after `fit` has run its first step.
pub open spec fn fit_top_first(top_row: int, row: int) -> int {
    if top_row + ROW_DISTANCE > row {
        sat_sub(row, ROW_DISTANCE as int)
    } else {
        top_row
    }
}

/// `fit` runs without an arithmetic fault: the rows below the viewport's
/// top, and the document lines below its height, are enough for the steps it takes.
pub open spec fn fit_defined(v: Viewport, row: int, col: int, lines: int) -> bool {
    let t1 = fit_top_first(v.top_row as int, row);
    &&& v.top_row + ROW_DISTANCE <= usize::MAX
    &&& row <= isize::MAX
    &&& col <= isize::MAX
    &&& ROW_DISTANCE <= t1 + v.height <= usize::MAX
    &&& (t1 + v.height - ROW_DISTANCE < row ==> lines >= v.height + 1 && row + ROW_DISTANCE
        <= usize::MAX)
    &&& v.left_column + COL_DISTANCE <= usize::MAX
    &&& (v.left_column + COL_DISTANCE <= col ==> COL_DISTANCE <= v.left_column + v.width
        <= usize::MAX && col + COL_DISTANCE <= usize::MAX)
}

/// The viewport after `fit` brings the cursor at (`row`, `col`) back within
/// its margins: rows keep 4 lines of distance from the edges (not scrolling
/// past the document's end), columns 6.
pub open spec fn spec_fit(v: Viewport, row: int, col: int, lines: int) -> Viewport {
    let t1 = fit_top_first(v.top_row as int, row);
    let t2 = if t1 + v.height - ROW_DISTANCE < row {
        let a = row + ROW_DISTANCE - v.height;
        let b = lines - v.height - 1;
        if a < b {
            a
        } else {
            b
        }
    } else {
        t1
    };
    let l = if v.left_column + COL_DISTANCE > col {
        sat_sub(col, COL_DISTANCE as int)
    } else if v.left_column + v.width - COL_DISTANCE < col {
        col + COL_DISTANCE - v.width
    } else {
        v.left_column as int
    };
    Viewport { top_row: t2 as usize, left_column: l as usize, width: v.width, height: v.height }
}

pub struct Viewport {
    pub top_row: usize,
    pub left_column: usize,
    pub width: usize,
    pub height: usize,
}

impl Viewport {
    /// The viewport of a terminal of `width` by `height` cells: the margins
    /// for line numbers and the two bars taken off, scrolled to the top left.
    pub fn new(width: usize, height: usize) -> (v: Viewport)
        requires
            width >= LEFT_SPACE_SIZE,
            height >= TOP_SPACE_SIZE + BOTTOM_SPACE_SIZE,
        ensures
            v.top_row == 0,
            v.left_column == 0,
            v.width == width - LEFT_SPACE_SIZE,
            v.height == height - (TOP_SPACE_SIZE + BOTTOM_SPACE_SIZE),
    {
        Viewport {
            top_row: 0,
            left_column: 0,
            width: width - LEFT_SPACE_SIZE,
            height: height - (TOP_SPACE_SIZE + BOTTOM_SPACE_SIZE),
        }
    }

    /// Scrolls so that the cursor stays within the margins; see `spec_fit`.
    pub fn fit(&mut self, cursor: &Cursor, doc: &Document)
        requires
            fit_defined(*old(self), cursor.row as int, cursor.col as int, doc@.len() as int),
        ensures
            *final(self) == spec_fit(
                *old(self),
                cursor.row as int,
                cursor.col as int,
                doc@.len() as int,
            ),
    {
        if self.top_row + ROW_DISTANCE > cursor.row {
            self.top_row = if cursor.row > ROW_DISTANCE {
                cursor.row - ROW_DISTANCE
            } else {
                0
            };
        }
        if self.top_row + self.height - ROW_DISTANCE < cursor.row {
            let a = cursor.row + ROW_DISTANCE - self.height;
            let b = doc.lines.len() - self.height - 1;
            self.top_row = if a < b {
                a
            } else {
                b
            };
        }
        if self.left_column + COL_DISTANCE > cursor.col {
            self.left_column = if cursor.col > COL_DISTANCE {
                cursor.col - COL_DISTANCE
            } else {
                0
            };
            return ;
        }
        if self.left_column + self.width - COL_DISTANCE < cursor.col {
            self.left_column = cursor.col + COL_DISTANCE - self.width;
        }
    }

    /// Whether `fit` may be called for this cursor and document.
    pub fn can_fit(&self, cursor: &Cursor, doc: &Document) -> (r: bool)
        ensures
            r == fit_defined(*self, cursor.row as int, cursor.col as int, doc@.len() as int),
    {
        if self.top_row > usize::MAX - ROW_DISTANCE || cursor.row > isize::MAX as usize
            || cursor.col > isize::MAX as usize {
            return false;
        }
        let t1 = if self.top_row + ROW_DISTANCE > cursor.row {
            if cursor.row > ROW_DISTANCE {
                cursor.row - ROW_DISTANCE
            } else {
                0
            }
        } else {
            self.top_row
        };
        if t1 > usize::MAX - self.height || t1 + self.height < ROW_DISTANCE {
            return false;
        }
        if t1 + self.height - ROW_DISTANCE < cursor.row {
            if doc.lines.len() < self.height || doc.lines.len() - self.height < 1 || cursor.row
                > usize::MAX - ROW_DISTANCE {
                return false;
            }
        }
        if self.left_column > usize::MAX - COL_DISTANCE {
            return false;
        }
        if self.left_column + COL_DISTANCE <= cursor.col {
            if self.left_column > usize::MAX - self.width || self.left_column + self.width
                < COL_DISTANCE || cursor.col > usize::MAX - COL_DISTANCE {
                return false;
            }
        }
        true
    }
}

/// After `fit`, the cursor is on screen: its row among the `height` rows from
/// the top row, its column among the `width` columns from the left one. This
/// holds for a viewport at least `ROW_DISTANCE` rows high and more than
/// `COL_DISTANCE` columns wide, except when the cursor is on the document's
/// last row and the viewport has to scroll down to it: `fit` then stops one
/// row short of the end.
pub proof fn law_fit_shows_cursor(v: Viewport, row: int, col: int, lines: int)
    requires
        fit_defined(v, row, col, lines),
        0 <= row < lines,
        0 <= col,
        v.height >= ROW_DISTANCE,
        v.width > COL_DISTANCE,
        !(row + 1 == lines && fit_top_first(v.top_row as int, row) + v.height - ROW_DISTANCE < row),
    ensures
        spec_fit(v, row, col, lines).top_row <= row < spec_fit(v, row, col, lines).top_row
            + spec_fit(v, row, col, lines).height,
        spec_fit(v, row, col, lines).left_column <= col < spec_fit(v, row, col, lines).left_column
            + spec_fit(v, row, col, lines).width,
{
}

} // verus!
