//! The cursor: a row and a character column, moved within a document.
use vstd::prelude::*;

use crate::app::Mode;
use crate::document::{spec_col_bound, spec_row_bound, Document, Pos};
use crate::render_buffer::{LEFT_SPACE_SIZE, TOP_SPACE_SIZE};
use crate::text::{chars_of, decimal, push_char, push_decimal};
use crate::viewport::Viewport;

verus! {

const CURSOR_BLOCK: usize = 2;

const CURSOR_UNDERLINE: usize = 4;

const CURSOR_BAR: usize = 6;

/// The terminal cursor shape code for a mode: block, underline or bar.
pub open spec fn shape_code(mode: Mode) -> nat {
    match mode {
        Mode::Normal | Mode::Visual(_) => 2,
        Mode::Replace | Mode::Delete | Mode::Copy => 4,
        Mode::Insert => 6,
    }
}

/// The escape sequence that places the terminal cursor at (`row`, `col`)
/// (1-based screen coordinates) and gives it the shape `shape`.
pub open spec fn cursor_escape(row: nat, col: nat, shape: nat) -> Seq<char> {
    seq!['\x1b', '['] + decimal(row) + seq![';'] + decimal(col) + seq!['H'] + seq!['\x1b', '[']
        + decimal(shape) + seq![' ', 'q']
}

/// `line` has a character other than a space.
pub open spec fn has_non_space(line: Seq<char>) -> bool {
    exists|i: int| 0 <= i < line.len() && line[i] != ' '
}

/// The smaller of two naturals.
pub open spec fn min_nat(a: nat, b: nat) -> nat {
    if a < b {
        a
    } else {
        b
    }
}

/// `bound_col`: the column brought down to the row's bound in `mode`.
pub open spec fn c_bound_col(c: Cursor, lines: Seq<Seq<char>>, mode: Mode) -> Cursor {
    Cursor {
        row: c.row,
        col: min_nat(c.col as nat, spec_col_bound(lines[c.row as int].len(), mode)) as usize,
    }
}

/// `bound_row`: the row brought down to the last row.
pub open spec fn c_bound_row(c: Cursor, lines: Seq<Seq<char>>) -> Cursor {
    Cursor { row: min_nat(c.row as nat, spec_row_bound(lines.len())) as usize, col: c.col }
}

/// `left`.
pub open spec fn c_left(c: Cursor) -> Cursor {
    Cursor {
        row: c.row,
        col: if c.col > 0 {
            (c.col - 1) as usize
        } else {
            0
        },
    }
}

/// `right`.
pub open spec fn c_right(c: Cursor, lines: Seq<Seq<char>>, mode: Mode) -> Cursor {
    c_bound_col(Cursor { row: c.row, col: (c.col + 1) as usize }, lines, mode)
}

/// `down`.
pub open spec fn c_down(c: Cursor, lines: Seq<Seq<char>>) -> Cursor {
    c_bound_row(Cursor { row: (c.row + 1) as usize, col: c.col }, lines)
}

/// `up`.
pub open spec fn c_up(c: Cursor) -> Cursor {
    Cursor {
        row: if c.row > 0 {
            (c.row - 1) as usize
        } else {
            0
        },
        col: c.col,
    }
}

/// `go_to_last_char`.
pub open spec fn c_last_char(lines: Seq<Seq<char>>) -> Cursor {
    let row = spec_row_bound(lines.len());
    Cursor { row: row as usize, col: spec_col_bound(lines[row as int].len(), Mode::Normal) as usize }
}

/// `go_to_start_of_line`.
pub open spec fn c_start_of_line(c: Cursor, lines: Seq<Seq<char>>) -> Cursor {
    Cursor { row: c.row, col: first_non_space_col(lines[c.row as int]) as usize }
}

/// `go_to_end_of_line`.
pub open spec fn c_end_of_line(c: Cursor, lines: Seq<Seq<char>>, mode: Mode) -> Cursor {
    Cursor { row: c.row, col: spec_col_bound(lines[c.row as int].len(), mode) as usize }
}

/// The cursor placed at `p`.
pub open spec fn c_at(p: Pos) -> Cursor {
    Cursor { row: p.row, col: p.col }
}

/// The position of the cursor.
pub open spec fn c_pos(c: Cursor) -> Pos {
    Pos { row: c.row, col: c.col }
}

#[derive(Copy, Clone)]
pub struct Cursor {
    pub row: usize,
    pub col: usize,
}

impl Cursor {
    /// The cursor at (0, 0).
    pub fn new() -> (c: Cursor)
        ensures
            c.row == 0,
            c.col == 0,
    {
        Cursor { row: 0, col: 0 }
    }

    /// The escape sequence that shows the cursor on screen: its column
    /// bounded to the line, both coordinates taken relative to the viewport
    /// and the margins, and the shape of `mode`.
    pub fn build(&self, doc: &Document, viewport: &Viewport, mode: Mode) -> (s: String)
        requires
            self.row < doc@.len(),
            viewport.top_row <= self.row,
            viewport.left_column <= min_nat(
                self.col as nat,
                spec_col_bound(doc@[self.row as int].len(), mode),
            ),
            self.row - viewport.top_row + 1 + TOP_SPACE_SIZE <= usize::MAX,
            self.col + 1 + LEFT_SPACE_SIZE <= usize::MAX,
        ensures
            s@ == cursor_escape(
                (self.row - viewport.top_row + 1 + TOP_SPACE_SIZE) as nat,
                (min_nat(self.col as nat, spec_col_bound(doc@[self.row as int].len(), mode))
                    - viewport.left_column + 1 + LEFT_SPACE_SIZE) as nat,
                shape_code(mode),
            ),
    {
        let bound = doc.col_bound(self.row, mode);
        let col = if self.col < bound {
            self.col
        } else {
            bound
        };
        let mut building = String::new();
        push_char(&mut building, '\x1b');
        push_char(&mut building, '[');
        push_decimal(&mut building, self.row - viewport.top_row + 1 + TOP_SPACE_SIZE);
        push_char(&mut building, ';');
        push_decimal(&mut building, col - viewport.left_column + 1 + LEFT_SPACE_SIZE);
        push_char(&mut building, 'H');
        let shape = match mode {
            Mode::Normal | Mode::Visual(_) => CURSOR_BLOCK,
            Mode::Replace | Mode::Delete | Mode::Copy => CURSOR_UNDERLINE,
            Mode::Insert => CURSOR_BAR,
        };
        push_char(&mut building, '\x1b');
        push_char(&mut building, '[');
        push_decimal(&mut building, shape);
        push_char(&mut building, ' ');
        push_char(&mut building, 'q');
        proof {
            assert(building@ =~= cursor_escape(
                (self.row - viewport.top_row + 1 + TOP_SPACE_SIZE) as nat,
                (col - viewport.left_column + 1 + LEFT_SPACE_SIZE) as nat,
                shape_code(mode),
            ));
        }
        building
    }

    /// Moves the column back onto the row (at most the row's column bound in `mode`).
    pub fn bound_col(&mut self, doc: &Document, mode: Mode) -> (r: &mut Self)
        requires
            old(self).row < doc@.len(),
        ensures
            *r == c_bound_col(*old(self), doc@, mode),
            *final(self) == *final(r),
    {
        let bound = doc.col_bound(self.row, mode);
        if bound < self.col {
            self.col = bound;
        }
        self
    }

    /// Moves the row back into the document (at most the last row).
    pub fn bound_row(&mut self, doc: &Document) -> (r: &mut Self)
        ensures
            *r == c_bound_row(*old(self), doc@),
            *final(self) == *final(r),
    {
        let bound = doc.row_bound();
        if bound < self.row {
            self.row = bound;
        }
        self
    }

    /// One column left, unless at column 0.
    pub fn left(&mut self) -> (r: &mut Self)
        ensures
            *r == c_left(*old(self)),
            *final(self) == *final(r),
    {
        if self.col > 0 {
            self.col -= 1;
        }
        self
    }

    /// One column right, bounded to the row in `mode`.
    pub fn right(&mut self, doc: &Document, mode: Mode) -> (r: &mut Self)
        requires
            old(self).row < doc@.len(),
            old(self).col < usize::MAX,
        ensures
            *r == c_right(*old(self), doc@, mode),
            *final(self) == *final(r),
    {
        self.col += 1;
        self.bound_col(doc, mode);
        self
    }

    /// One row down, bounded to the last row.
    pub fn down(&mut self, doc: &Document) -> (r: &mut Self)
        requires
            old(self).row < usize::MAX,
        ensures
            *r == c_down(*old(self), doc@),
            *final(self) == *final(r),
    {
        self.row += 1;
        self.bound_row(doc);
        self
    }

    /// One row up, unless at row 0.
    pub fn up(&mut self) -> (r: &mut Self)
        ensures
            *r == c_up(*old(self)),
            *final(self) == *final(r),
    {
        if self.row > 0 {
            self.row -= 1;
        }
        self
    }

    /// To row 0, keeping the column.
    pub fn go_to_first_line(&mut self) -> (r: &mut Self)
        ensures
            *r == (Cursor { row: 0, col: old(self).col }),
            *final(self) == *final(r),
    {
        self.row = 0;
        self
    }

    /// To the last row, at its last column in normal mode.
    pub fn go_to_last_char(&mut self, doc: &Document) -> (r: &mut Self)
        requires
            doc@.len() > 0,
        ensures
            *r == c_last_char(doc@),
            *final(self) == *final(r),
    {
        self.row = doc.row_bound();
        self.col = doc.col_bound(self.row, Mode::Normal);
        self
    }

    /// To the first character of the row that is not a space (column 0 when there is none).
    pub fn go_to_start_of_line(&mut self, doc: &Document) -> (r: &mut Self)
        requires
            old(self).row < doc@.len(),
        ensures
            *r == c_start_of_line(*old(self), doc@),
            *final(self) == *final(r),
    {
        let line = chars_of(doc.lines[self.row].as_str());
        let mut i: usize = 0;
        while i < line.len() && line[i] == ' '
            invariant
                i <= line@.len(),
                forall|j: int| 0 <= j < i ==> line@[j] == ' ',
            decreases line@.len() - i,
        {
            i += 1;
        }
        self.col = if i < line.len() {
            i
        } else {
            0
        };
        proof {
            lemma_first_non_space_col(line@, i as int);
        }
        self
    }

    /// To the last column of the row in `mode`.
    pub fn go_to_end_of_line(&mut self, doc: &Document, mode: Mode) -> (r: &mut Self)
        requires
            old(self).row < doc@.len(),
        ensures
            *r == c_end_of_line(*old(self), doc@, mode),
            *final(self) == *final(r),
    {
        self.col = doc.col_bound(self.row, mode);
        self
    }

    /// The cursor's position.
    pub fn to_pos(&self) -> (p: Pos)
        ensures
            p == c_pos(*self),
    {
        Pos { row: self.row, col: self.col }
    }

    /// To `pos`.
    pub fn go_to_pos(&mut self, pos: Pos) -> (r: &mut Self)
        ensures
            *r == c_at(pos),
            *final(self) == *final(r),
    {
        self.row = pos.row;
        self.col = pos.col;
        self
    }
}

/// The column of the first character of `line` other than a space; 0 when
/// every character is a space.
pub open spec fn first_non_space_col(line: Seq<char>) -> int {
    if has_non_space(line) {
        choose|i: int|
            0 <= i < line.len() && line[i] != ' ' && forall|j: int| 0 <= j < i ==> line[j] == ' '
    } else {
        0
    }
}

proof fn lemma_first_non_space_col(line: Seq<char>, i: int)
    requires
        0 <= i <= line.len(),
        forall|j: int| 0 <= j < i ==> line[j] == ' ',
        i < line.len() ==> line[i] != ' ',
    ensures
        first_non_space_col(line) == if i < line.len() {
            i
        } else {
            0
        },
{
    if i < line.len() {
        assert(has_non_space(line));
        let k = first_non_space_col(line);
        assert(0 <= k < line.len() && line[k] != ' ' && forall|j: int|
            0 <= j < k ==> line[j] == ' ');
        if k < i {
            assert(line[k] == ' ');
        }
        if k > i {
            assert(line[i] == ' ');
        }
    } else {
        if has_non_space(line) {
            let w = choose|w: int| 0 <= w < line.len() && line[w] != ' ';
            assert(line[w] == ' ');
        }
    }
}

} // verus!
