//! The grid of cells the screen shows, and the updates that bring the screen
//! from one grid to the next.
use vstd::prelude::*;

use crate::app::{mode_label, App, Mode};
use crate::cell::{cell_seq, Cell, Color, Theme};
use crate::cursor::{c_pos, Cursor};
use crate::document::{pos_le, pos_max, pos_min, Pos};
use crate::text::{char_len, chars_of, decimal, decimal_string, push_char};
use crate::viewport::Viewport;

verus! {

pub const TOP_SPACE_SIZE: usize = 1;

pub const LEFT_SPACE_SIZE: usize = 6;

pub const BOTTOM_SPACE_SIZE: usize = 1;

/// A grid of `width` by `height` cells, row after row.
#[derive(Clone)]
pub struct RenderBuffer {
    pub width: usize,
    pub height: usize,
    pub cells: Vec<Cell>,
}

/// A cell of the top or bottom bar showing `ch`.
pub open spec fn spec_bar_cell(ch: char) -> Cell {
    Cell { char: ch, fg: Color::BarForeground, bg: Color::BarBackground, bold: true, italic: false }
}

/// A bar cell that shows part of the file name.
pub open spec fn name_cell(ch: char) -> Cell {
    Cell { char: ch, fg: Color::FileName, bg: Color::BarBackground, bold: true, italic: true }
}

/// The blank cell every buffer starts from.
pub open spec fn blank_cell() -> Cell {
    Cell { char: ' ', fg: Color::Foreground, bg: Color::Background, italic: false, bold: false }
}

/// The characters of `path` after its last `/` (all of them when it has none).
pub open spec fn base_name(path: Seq<char>) -> Seq<char>
    decreases path.len(),
{
    if path.len() == 0 {
        path
    } else if path.last() == '/' {
        Seq::empty()
    } else {
        base_name(path.drop_last()).push(path.last())
    }
}

/// The top bar's text: a space, then the file's base name.
pub open spec fn top_text(path: Seq<char>) -> Seq<char> {
    seq![' '] + base_name(path)
}

/// Cell `i` of the top bar.
pub open spec fn top_cell(path: Seq<char>, i: int) -> Cell {
    let t = top_text(path);
    if i < t.len() {
        name_cell(t[i])
    } else {
        spec_bar_cell(' ')
    }
}

/// `n` in decimal, right-aligned in four columns.
pub open spec fn pad4(n: nat) -> Seq<char> {
    let d = decimal(n);
    Seq::new(if d.len() < 4 {
        (4 - d.len()) as nat
    } else {
        0
    }, |i: int| ' ') + d
}

/// The number shown beside a line: its 1-based row on the cursor's line,
/// elsewhere its distance from the cursor's row; at most 9999.
pub open spec fn line_number(line_row: int, cursor_row: int) -> nat {
    let n = if line_row == cursor_row {
        line_row + 1
    } else if line_row > cursor_row {
        line_row - cursor_row
    } else {
        cursor_row - line_row
    };
    if n > 9999 {
        9999
    } else {
        n as nat
    }
}

/// A digit of the line-number column.
pub open spec fn number_cell(ch: char, current: bool) -> Cell {
    if current {
        Cell {
            char: ch,
            fg: Color::CurrentLineNumber,
            bg: Color::CurrentLine,
            italic: false,
            bold: true,
        }
    } else {
        Cell { char: ch, fg: Color::Foreground, bg: Color::Background, italic: false, bold: false }
    }
}

/// `p` lies within the selection from `start` to `end`, both included.
pub open spec fn spec_is_visual_selected(p: Pos, start: Pos, end: Pos) -> bool {
    pos_le(start, p) && pos_le(p, end)
}

/// `p` is selected in `mode` with the cursor at `c`.
pub open spec fn selected_in(mode: Mode, c: Cursor, p: Pos) -> bool {
    match mode {
        Mode::Visual(lm) => spec_is_visual_selected(
            p,
            pos_min(lm, c_pos(c)),
            pos_max(lm, c_pos(c)),
        ),
        _ => false,
    }
}

/// `c` with the selection colors.
pub open spec fn selected_cell(c: Cell) -> Cell {
    Cell { fg: Color::SelectionForeground, bg: Color::SelectionBackground, ..c }
}

/// How a text character shows: a space as a middle dot.
pub open spec fn shown_char(ch: char) -> char {
    if ch == ' ' {
        '·'
    } else {
        ch
    }
}

/// The cell of the `i`-th shown character `ch` of row `line_row`.
pub open spec fn text_cell(ch: char, line_row: int, col: int, mode: Mode, c: Cursor) -> Cell {
    let d = shown_char(ch);
    let base = Cell {
        char: d,
        fg: if d == '·' {
            Color::Whitespace
        } else {
            Color::Foreground
        },
        bg: if line_row == c.row {
            Color::CurrentLine
        } else {
            Color::Background
        },
        italic: false,
        bold: false,
    };
    if selected_in(mode, c, Pos { row: line_row as usize, col: col as usize }) {
        selected_cell(base)
    } else {
        base
    }
}

/// What the screen holds of the document, as values.
pub struct Screen {
    pub lines: Seq<Seq<char>>,
    pub path: Seq<char>,
    pub viewport: Viewport,
    pub cursor: Cursor,
    pub mode: Mode,
    pub width: int,
}

/// The number of document rows the viewport shows.
pub open spec fn shown_rows(s: Screen) -> int {
    let left = s.lines.len() - s.viewport.top_row;
    let avail = if left > 0 {
        left
    } else {
        0
    };
    if avail < s.viewport.height {
        avail
    } else {
        s.viewport.height as int
    }
}

/// The characters of `line` from column `left` on (none when the line is shorter).
pub open spec fn shown_of(line: Seq<char>, left: int) -> Seq<char> {
    if left <= line.len() {
        line.skip(left)
    } else {
        Seq::empty()
    }
}

/// The cells after drawing shown row `r`: the current line's background, its
/// number, the selection mark of an empty selected line, and its characters
/// from the viewport's left column on (written past the row's end when the
/// line is longer).
pub open spec fn draw_row(cells: Seq<Cell>, s: Screen, r: int) -> Seq<Cell> {
    let line_row = r + s.viewport.top_row;
    let line = s.lines[line_row];
    let base = (r + TOP_SPACE_SIZE) * s.width;
    let current = line_row == s.cursor.row;
    let lit = Seq::new(
        cells.len(),
        |j: int|
            if current && base <= j < base + s.width {
                Cell { bg: Color::CurrentLine, ..cells[j] }
            } else {
                cells[j]
            },
    );
    let digits = pad4(line_number(line_row, s.cursor.row as int));
    let numbered = Seq::new(
        lit.len(),
        |j: int|
            if base <= j < base + digits.len() {
                number_cell(digits[j - base], current)
            } else {
                lit[j]
            },
    );
    let marked = if line.len() == 0 && selected_in(
        s.mode,
        s.cursor,
        Pos { row: line_row as usize, col: 0 },
    ) {
        numbered.update(base + LEFT_SPACE_SIZE, selected_cell(numbered[base + LEFT_SPACE_SIZE]))
    } else {
        numbered
    };
    let shown = shown_of(line, s.viewport.left_column as int);
    Seq::new(
        marked.len(),
        |j: int|
            if base + LEFT_SPACE_SIZE <= j < base + LEFT_SPACE_SIZE + shown.len() {
                let i = j - base - LEFT_SPACE_SIZE;
                text_cell(shown[i], line_row, i + s.viewport.left_column, s.mode, s.cursor)
            } else {
                marked[j]
            },
    )
}

/// The cells after drawing the first `k` shown rows.
pub open spec fn draw_rows(cells: Seq<Cell>, s: Screen, k: int) -> Seq<Cell>
    decreases k,
{
    if k <= 0 {
        cells
    } else {
        draw_row(draw_rows(cells, s, k - 1), s, k - 1)
    }
}

/// The bottom bar's text: the mode's name and the file path.
pub open spec fn bottom_text(s: Screen) -> Seq<char> {
    seq![' '] + mode_label(s.mode) + seq![' ', '|', ' '] + s.path
}

/// The cursor position shown at the right of the bottom bar (1-based).
pub open spec fn position_text(c: Cursor) -> Seq<char> {
    decimal((c.row + 1) as nat) + seq![':'] + decimal((c.col + 1) as nat) + seq![' ']
}

/// Cell `i` of the bottom bar.
pub open spec fn bottom_cell(s: Screen, i: int) -> Cell {
    let t = bottom_text(s);
    let p = position_text(s.cursor);
    let ch = if i < t.len() {
        t[i]
    } else if i >= s.width - p.len() {
        p[i - (s.width - p.len())]
    } else {
        ' '
    };
    let name_start = 1 + mode_label(s.mode).len() + 3;
    if name_start <= i < name_start + s.path.len() {
        name_cell(ch)
    } else {
        spec_bar_cell(ch)
    }
}

/// The whole grid for `s` on a `width` by `height` screen: the top bar, the
/// shown rows, then the bottom bar below the viewport.
pub open spec fn spec_render(s: Screen, height: int) -> Seq<Cell> {
    let blank = Seq::new((s.width * height) as nat, |j: int| blank_cell());
    let top = Seq::new(
        blank.len(),
        |j: int|
            if j < s.width {
                top_cell(s.path, j)
            } else {
                blank[j]
            },
    );
    let body = draw_rows(top, s, shown_rows(s));
    let bar = (s.viewport.height + TOP_SPACE_SIZE) * s.width;
    Seq::new(
        body.len(),
        |j: int|
            if bar <= j < bar + s.width {
                bottom_cell(s, j - bar)
            } else {
                body[j]
            },
    )
}

/// Every cell drawing writes lies inside a `width` by `height` grid, and the
/// bottom bar's position text is reached only when it fits.
pub open spec fn render_fits(s: Screen, height: int) -> bool {
    let total = s.width * height;
    &&& s.width >= 1
    &&& total <= usize::MAX
    &&& (s.viewport.height + TOP_SPACE_SIZE + 1) * s.width <= total
    &&& s.cursor.row < usize::MAX
    &&& s.cursor.col < usize::MAX
    &&& s.viewport.top_row + s.viewport.height <= usize::MAX
    &&& (forall|r: int|
        0 <= r < shown_rows(s) ==> #[trigger] row_end(s, r) <= total)
    &&& (bottom_text(s).len() < s.width ==> position_text(s.cursor).len() <= s.width)
}

/// One past the last cell that drawing shown row `r` writes.
pub open spec fn row_end(s: Screen, r: int) -> int {
    let line = s.lines[r + s.viewport.top_row];
    let shown = shown_of(line, s.viewport.left_column as int);
    let base = (r + TOP_SPACE_SIZE) * s.width;
    let text_end = base + LEFT_SPACE_SIZE + shown.len();
    let num_end = base + 4;
    let row_end = base + s.width;
    let mark_end = if line.len() == 0 {
        base + LEFT_SPACE_SIZE + 1
    } else {
        0
    };
    let a = if text_end > num_end {
        text_end
    } else {
        num_end
    };
    let b = if a > row_end {
        a
    } else {
        row_end
    };
    if b > mark_end {
        b
    } else {
        mark_end
    }
}

/// The part of the app that the screen shows.
pub open spec fn screen_of(app: App, width: int) -> Screen {
    Screen {
        lines: app.doc@,
        path: app.doc.file_path@,
        viewport: app.viewport,
        cursor: app.cursor,
        mode: app.mode,
        width,
    }
}

/// The cells of `new` (first `k` of them) that differ from `old`, each with
/// its row and column in a grid `width` cells wide, in order.
pub open spec fn spec_diff(new: Seq<Cell>, old: Seq<Cell>, width: int, k: int) -> Seq<(Pos, Cell)>
    decreases k,
{
    if k <= 0 {
        Seq::empty()
    } else {
        let prev = spec_diff(new, old, width, k - 1);
        let i = k - 1;
        if old[i] != new[i] {
            prev.push((Pos { row: (i / width) as usize, col: (i % width) as usize }, new[i]))
        } else {
            prev
        }
    }
}

/// The escape sequence that hides the terminal cursor.
pub open spec fn hide_cursor_seq() -> Seq<char> {
    seq!['\x1b', '[', '?', '2', '5', 'l']
}

/// The escape sequence that shows the terminal cursor.
pub open spec fn show_cursor_seq() -> Seq<char> {
    seq!['\x1b', '[', '?', '2', '5', 'h']
}

/// The drawing of the first `k` entries of `diff`, each at its 1-based position.
pub open spec fn patch_body(diff: Seq<(Pos, Cell)>, theme: Theme, k: int) -> Seq<char>
    decreases k,
{
    if k <= 0 {
        Seq::empty()
    } else {
        let (p, c) = diff[k - 1];
        patch_body(diff, theme, k - 1) + cell_seq(
            c,
            Pos { row: (p.row + 1) as usize, col: (p.col + 1) as usize },
            theme,
        )
    }
}

/// A bar cell showing `char`.
pub fn bar_cell(char: char) -> (c: Cell)
    ensures
        c == spec_bar_cell(char),
{
    Cell { char, fg: Color::BarForeground, bg: Color::BarBackground, bold: true, italic: false }
}

/// Whether `pos` lies within the selection from `start` to `end`, both included.
pub fn is_visual_selected(pos: Pos, start: Pos, end: Pos) -> (r: bool)
    ensures
        r == spec_is_visual_selected(pos, start, end),
{
    !crate::document::pos_less(pos, start) && !crate::document::pos_less(end, pos)
}


/// The index just past the last `/` of `v` (0 when it has none), with the
/// base name as the rest of `v`.
fn base_name_start(v: &Vec<char>) -> (start: usize)
    ensures
        start <= v@.len(),
        base_name(v@) == v@.skip(start as int),
{
    let mut start: usize = 0;
    let mut i: usize = 0;
    while i < v.len()
        invariant
            start <= i <= v@.len(),
            base_name(v@.take(i as int)) == v@.subrange(start as int, i as int),
        decreases v@.len() - i,
    {
        let ghost before = v@.take(i as int);
        assert(v@.take(i as int + 1).drop_last() =~= before);
        if v[i] == '/' {
            start = i + 1;
            assert(v@.subrange(start as int, i as int + 1) =~= Seq::<char>::empty());
        } else {
            assert(v@.subrange(start as int, i as int + 1) =~= v@.subrange(
                start as int,
                i as int,
            ).push(v@[i as int]));
        }
        i = i + 1;
    }
    assert(v@.take(v@.len() as int) =~= v@);
    assert(v@.subrange(start as int, v@.len() as int) =~= v@.skip(start as int));
    start
}

/// A bar cell showing part of the file name.
fn name_cell_of(ch: char) -> (c: Cell)
    ensures
        c == name_cell(ch),
{
    Cell { char: ch, fg: Color::FileName, bg: Color::BarBackground, bold: true, italic: true }
}

/// Writes the top bar into the first `width` cells.
fn draw_top(cells: &mut Vec<Cell>, path: &str, width: usize)
    requires
        width <= old(cells)@.len(),
    ensures
        final(cells)@ == Seq::new(
            old(cells)@.len(),
            |j: int|
                if j < width {
                    top_cell(path@, j)
                } else {
                    old(cells)@[j]
                },
        ),
{
    let v = chars_of(path);
    let start = base_name_start(&v);
    let rest = v.len() - start;
    let ghost t = top_text(path@);
    assert(t.len() == rest + 1);
    let mut i: usize = 0;
    while i < width
        invariant
            i <= width <= cells@.len(),
            cells@.len() == old(cells)@.len(),
            v@ == path@,
            start <= v@.len(),
            rest == v@.len() - start,
            v@.len() == v.len(),
            t == top_text(path@),
            base_name(v@) == v@.skip(start as int),
            forall|j: int|
                0 <= j < cells@.len() ==> #[trigger] cells@[j] == if j < i {
                    top_cell(path@, j)
                } else {
                    old(cells)@[j]
                },
        decreases width - i,
    {
        let c = if i == 0 {
            name_cell_of(' ')
        } else if i - 1 < rest {
            let k = start + (i - 1);
            name_cell_of(v[k])
        } else {
            bar_cell(' ')
        };
        assert(c == top_cell(path@, i as int));
        cells.set(i, c);
        i = i + 1;
    }
    assert(cells@ =~= Seq::new(
        old(cells)@.len(),
        |j: int|
            if j < width {
                top_cell(path@, j)
            } else {
                old(cells)@[j]
            },
    ));
}

/// `decimal(n)` has at least one digit, and at most four below 10000.
proof fn lemma_decimal_len(n: nat)
    ensures
        decimal(n).len() >= 1,
        n < 10 ==> decimal(n).len() == 1,
        n < 100 ==> decimal(n).len() <= 2,
        n < 1000 ==> decimal(n).len() <= 3,
        n < 10000 ==> decimal(n).len() <= 4,
    decreases n,
{
    if n >= 10 {
        lemma_decimal_len(n / 10);
    }
}

/// The number shown beside row `line_row` with the cursor on row `cursor_row`.
fn line_number_of(line_row: usize, cursor_row: usize) -> (n: usize)
    requires
        line_row < usize::MAX,
    ensures
        n == line_number(line_row as int, cursor_row as int),
{
    let n = if line_row == cursor_row {
        line_row + 1
    } else if line_row > cursor_row {
        line_row - cursor_row
    } else {
        cursor_row - line_row
    };
    if n > 9999 {
        9999
    } else {
        n
    }
}

/// A digit cell of the line-number column.
fn number_cell_of(ch: char, current: bool) -> (c: Cell)
    ensures
        c == number_cell(ch, current),
{
    if current {
        Cell {
            char: ch,
            fg: Color::CurrentLineNumber,
            bg: Color::CurrentLine,
            italic: false,
            bold: true,
        }
    } else {
        Cell::new(ch)
    }
}

/// Whether `p` is selected in `mode` with the cursor at `c`.
fn is_selected_in(mode: Mode, c: Cursor, p: Pos) -> (r: bool)
    ensures
        r == selected_in(mode, c, p),
{
    match mode {
        Mode::Visual(lm) => {
            let (start, end) = crate::document::ordered(lm, c.to_pos());
            is_visual_selected(p, start, end)
        },
        _ => false,
    }
}

/// The cell of a text character; see `text_cell`.
fn text_cell_of(ch: char, line_row: usize, col: usize, mode: Mode, c: Cursor) -> (r: Cell)
    ensures
        r == text_cell(ch, line_row as int, col as int, mode, c),
{
    let d = if ch == ' ' {
        '·'
    } else {
        ch
    };
    let mut cell = Cell::new(d);
    if d == '·' {
        cell.fg = Color::Whitespace;
    }
    if line_row == c.row {
        cell.bg = Color::CurrentLine;
    }
    if is_selected_in(mode, c, Pos { row: line_row, col }) {
        cell.selected();
    }
    cell
}

/// Draws shown row `r` of the screen; see `draw_row`.
fn draw_line(cells: &mut Vec<Cell>, app: &App, width: usize, r: usize)
    requires
        0 <= r < shown_rows(screen_of(*app, width as int)),
        width >= 1,
        row_end(screen_of(*app, width as int), r as int) <= old(cells)@.len(),
    ensures
        final(cells)@ == draw_row(old(cells)@, screen_of(*app, width as int), r as int),
{
    let ghost s = screen_of(*app, width as int);
    let ghost c0 = cells@;
    let total = cells.len();
    let n_lines = app.doc.lines.len();
    assert(s.lines.len() == n_lines);
    let line_row = r + app.viewport.top_row;
    assert(line_row < n_lines);
    let ghost line = s.lines[line_row as int];
    assert((r + 1) * width + width <= row_end(s, r as int));
    assert((r + 1) * width + 4 <= row_end(s, r as int));
    let ghost shown_len = shown_of(line, app.viewport.left_column as int).len();
    assert((r + 1) * width + 6 + shown_len <= row_end(s, r as int));
    assert(line.len() == 0 ==> (r + 1) * width + 7 <= row_end(s, r as int));
    let base = (r + 1) * width;
    let current = line_row == app.cursor.row;
    if current {
        let mut col: usize = 0;
        while col < width
            invariant
                col <= width,
                base + width <= cells@.len(),
                cells@.len() == c0.len(),
                c0.len() == total,
                forall|j: int|
                    0 <= j < cells@.len() ==> #[trigger] cells@[j] == if base <= j < base + col {
                        Cell { bg: Color::CurrentLine, ..c0[j] }
                    } else {
                        c0[j]
                    },
            decreases width - col,
        {
            let mut c = cells[base + col];
            c.bg = Color::CurrentLine;
            cells.set(base + col, c);
            col = col + 1;
        }
    }
    let ghost lit = Seq::new(
        c0.len(),
        |j: int|
            if current && base <= j < base + width {
                Cell { bg: Color::CurrentLine, ..c0[j] }
            } else {
                c0[j]
            },
    );
    assert(cells@ =~= lit);
    let num = line_number_of(line_row, app.cursor.row);
    let ds = chars_of(decimal_string(num).as_str());
    proof {
        lemma_decimal_len(num as nat);
    }
    let pad = 4 - ds.len();
    let ghost digits = pad4(line_number(line_row as int, app.cursor.row as int));
    assert(digits.len() == 4);
    let mut k: usize = 0;
    while k < 4
        invariant
            k <= 4,
            pad == 4 - ds@.len(),
            ds@.len() <= 4,
            ds@ == decimal(num as nat),
            digits == pad4(num as nat),
            digits.len() == 4,
            base + width <= cells@.len(),
            base + 4 <= cells@.len(),
            cells@.len() == c0.len(),
            c0.len() == total,
            lit.len() == c0.len(),
            forall|j: int|
                0 <= j < cells@.len() ==> #[trigger] cells@[j] == if base <= j < base + k {
                    number_cell(digits[j - base], current)
                } else {
                    lit[j]
                },
        decreases 4 - k,
    {
        let ch = if k < pad {
            ' '
        } else {
            ds[k - pad]
        };
        assert(ch == digits[k as int]);
        cells.set(base + k, number_cell_of(ch, current));
        k = k + 1;
    }
    let ghost numbered = Seq::new(
        lit.len(),
        |j: int|
            if base <= j < base + digits.len() {
                number_cell(digits[j - base], current)
            } else {
                lit[j]
            },
    );
    assert(cells@ =~= numbered);
    let lv = chars_of(app.doc.lines[line_row].as_str());
    assert(lv@ == s.lines[line_row as int]);
    if lv.len() == 0 {
        if is_selected_in(app.mode, app.cursor, Pos { row: line_row, col: 0 }) {
            let mut c = cells[base + 6];
            c.selected();
            cells.set(base + 6, c);
        }
    }
    let ghost marked = cells@;
    let left = app.viewport.left_column;
    let shown_len = if left <= lv.len() {
        lv.len() - left
    } else {
        0
    };
    let ghost shown = shown_of(lv@, left as int);
    assert(shown.len() == shown_len);
    let mut i: usize = 0;
    while i < shown_len
        invariant
            i <= shown_len,
            shown.len() == shown_len,
            shown == shown_of(lv@, left as int),
            left <= lv@.len() || shown_len == 0,
            lv@.len() == lv.len(),
            base + 6 + shown_len <= cells@.len(),
            cells@.len() == marked.len(),
            marked.len() == total,
            forall|j: int|
                0 <= j < cells@.len() ==> #[trigger] cells@[j] == if base + 6 <= j < base + 6 + i {
                    text_cell(
                        shown[j - base - 6],
                        line_row as int,
                        j - base - 6 + left,
                        app.mode,
                        app.cursor,
                    )
                } else {
                    marked[j]
                },
        decreases shown_len - i,
    {
        let col = left + i;
        assert(lv@[col as int] == shown[i as int]);
        cells.set(base + 6 + i, text_cell_of(lv[col], line_row, col, app.mode, app.cursor));
        i = i + 1;
    }
    assert(cells@ =~= draw_row(c0, s, r as int));
}

/// Writes the bottom bar on the row below the viewport; see `bottom_cell`.
fn draw_bottom(cells: &mut Vec<Cell>, app: &App, width: usize)
    requires
        (app.viewport.height + TOP_SPACE_SIZE + 1) * width <= old(cells)@.len(),
        width >= 1,
        app.cursor.row < usize::MAX,
        app.cursor.col < usize::MAX,
        bottom_text(screen_of(*app, width as int)).len() < width ==> position_text(
            app.cursor,
        ).len() <= width,
    ensures
        final(cells)@ == Seq::new(
            old(cells)@.len(),
            |j: int|
                {
                    let bar = (app.viewport.height + TOP_SPACE_SIZE) * width;
                    if bar <= j < bar + width {
                        bottom_cell(screen_of(*app, width as int), j - bar)
                    } else {
                        old(cells)@[j]
                    }
                },
        ),
{
    let ghost s = screen_of(*app, width as int);
    let ghost c0 = cells@;
    let total = cells.len();
    assert((app.viewport.height + 1) * width + width == (app.viewport.height + 2) * width)
        by (nonlinear_arith);
    assert(app.viewport.height + 2 <= (app.viewport.height + 2) * width) by (nonlinear_arith)
        requires
            width >= 1,
    ;
    let bar = (app.viewport.height + 1) * width;
    let label = app.mode.label();
    let mut text = String::new();
    push_char(&mut text, ' ');
    text.append(label.as_str());
    push_char(&mut text, ' ');
    push_char(&mut text, '|');
    push_char(&mut text, ' ');
    text.append(app.doc.file_path.as_str());
    let tv = chars_of(text.as_str());
    assert(tv@ =~= bottom_text(s));
    let mut pos_text = decimal_string(app.cursor.row + 1);
    push_char(&mut pos_text, ':');
    pos_text.append(decimal_string(app.cursor.col + 1).as_str());
    push_char(&mut pos_text, ' ');
    let pv = chars_of(pos_text.as_str());
    assert(pv@ =~= position_text(app.cursor));
    let label_len = char_len(label.as_str());
    let name_start = 1 + label_len + 3;
    let path_len = char_len(app.doc.file_path.as_str());
    assert(tv@.len() == name_start + path_len);
    let mut i: usize = 0;
    while i < width
        invariant
            i <= width,
            bar + width <= total,
            cells@.len() == total,
            c0.len() == total,
            bar == (app.viewport.height + TOP_SPACE_SIZE) * width,
            tv@ == bottom_text(s),
            pv@ == position_text(app.cursor),
            tv@.len() == tv.len(),
            pv@.len() == pv.len(),
            name_start == 1 + mode_label(app.mode).len() + 3,
            path_len == s.path.len(),
            tv@.len() == name_start + path_len,
            s == screen_of(*app, width as int),
            tv@.len() < width ==> pv@.len() <= width,
            forall|j: int|
                0 <= j < cells@.len() ==> #[trigger] cells@[j] == if bar <= j < bar + i {
                    bottom_cell(s, j - bar)
                } else {
                    c0[j]
                },
        decreases width - i,
    {
        let ch = if i < tv.len() {
            tv[i]
        } else if i >= width - pv.len() {
            pv[i - (width - pv.len())]
        } else {
            ' '
        };
        let c = if i >= name_start && i - name_start < path_len {
            name_cell_of(ch)
        } else {
            bar_cell(ch)
        };
        assert(c == bottom_cell(s, i as int));
        cells.set(bar + i, c);
        i = i + 1;
    }
    assert(cells@ =~= Seq::new(
        c0.len(),
        |j: int|
            {
                let bar = (app.viewport.height + TOP_SPACE_SIZE) * width;
                if bar <= j < bar + width {
                    bottom_cell(s, j - bar)
                } else {
                    c0[j]
                }
            },
    ));
}

/// Whether drawing shown row `r` stays within `total` cells; see `row_end`.
fn row_fits(app: &App, width: usize, r: usize, total: usize) -> (ok: bool)
    requires
        0 <= r < shown_rows(screen_of(*app, width as int)),
    ensures
        ok == (row_end(screen_of(*app, width as int), r as int) <= total),
{
    let ghost s = screen_of(*app, width as int);
    let n_lines = app.doc.lines.len();
    assert(s.lines.len() == n_lines);
    let line_row = r + app.viewport.top_row;
    let line_len = char_len(app.doc.lines[line_row].as_str());
    let left = app.viewport.left_column;
    let shown_len = if left <= line_len {
        line_len - left
    } else {
        0
    };
    assert(shown_of(s.lines[line_row as int], left as int).len() == shown_len);
    let base = match (r + 1).checked_mul(width) {
        None => {
            return false;
        },
        Some(b) => b,
    };
    let row_end = match base.checked_add(width) {
        None => {
            return false;
        },
        Some(e) => e,
    };
    let num_end = match base.checked_add(4) {
        None => {
            return false;
        },
        Some(e) => e,
    };
    let text_end = match base.checked_add(6) {
        None => {
            return false;
        },
        Some(e) => match e.checked_add(shown_len) {
            None => {
                return false;
            },
            Some(t) => t,
        },
    };
    if line_len == 0 {
        match base.checked_add(7) {
            None => {
                return false;
            },
            Some(e) => {
                if e > total {
                    return false;
                }
            },
        }
    }
    row_end <= total && num_end <= total && text_end <= total
}

/// The number of characters in the decimal notation of `n`.
fn decimal_len(n: usize) -> (k: usize)
    ensures
        k == decimal(n as nat).len(),
        k <= 20,
{
    let k = char_len(decimal_string(n).as_str());
    proof {
        lemma_decimal_len_bound(n as nat);
    }
    k
}

/// Ten to the power `k`.
pub open spec fn pow10(k: nat) -> nat
    decreases k,
{
    if k == 0 {
        1
    } else {
        10 * pow10((k - 1) as nat)
    }
}

/// A `usize` has at most twenty decimal digits.
proof fn lemma_decimal_len_bound(n: nat)
    requires
        n <= usize::MAX,
    ensures
        decimal(n).len() <= 20,
{
    reveal_with_fuel(pow10, 21);
    assert(pow10(20) == 100000000000000000000nat);
    lemma_decimal_len_le(n, 20);
}

/// Below `10^k`, `decimal` has at most `k` digits.
proof fn lemma_decimal_len_le(n: nat, k: nat)
    requires
        k >= 1,
        n < pow10(k),
    ensures
        decimal(n).len() <= k,
    decreases k,
{
    if n >= 10 {
        if k == 1 {
            assert(pow10(1) == 10) by {
                reveal_with_fuel(pow10, 2);
            }
        } else {
            assert(n / 10 < pow10((k - 1) as nat));
            lemma_decimal_len_le(n / 10, (k - 1) as nat);
        }
    } else {
        lemma_decimal_len(n);
    }
}

impl RenderBuffer {
    /// A `width` by `height` grid of blank cells.
    pub fn new(width: usize, height: usize) -> (b: RenderBuffer)
        requires
            width * height <= usize::MAX,
        ensures
            b.width == width,
            b.height == height,
            b.cells@ == Seq::new((width * height) as nat, |j: int| blank_cell()),
    {
        let n = width * height;
        let mut cells: Vec<Cell> = Vec::new();
        let mut i: usize = 0;
        while i < n
            invariant
                i <= n,
                cells@ == Seq::new(i as nat, |j: int| blank_cell()),
            decreases n - i,
        {
            cells.push(Cell::default());
            i = i + 1;
            assert(cells@ =~= Seq::new(i as nat, |j: int| blank_cell()));
        }
        RenderBuffer { width, height, cells }
    }

    /// The grid showing `app` on a `width` by `height` screen; see `spec_render`.
    pub fn from(app: &App, width: usize, height: usize) -> (b: RenderBuffer)
        requires
            width * height <= usize::MAX,
            render_fits(screen_of(*app, width as int), height as int),
        ensures
            b.width == width,
            b.height == height,
            b.cells@ == spec_render(screen_of(*app, width as int), height as int),
    {
        let ghost s = screen_of(*app, width as int);
        let mut b = RenderBuffer::new(width, height);
        let ghost blank = b.cells@;
        assert(width <= (app.viewport.height + 2) * width) by (nonlinear_arith)
            requires
                width >= 1,
        ;
        draw_top(&mut b.cells, app.doc.file_path.as_str(), width);
        let ghost top = b.cells@;
        assert(top =~= Seq::new(
            blank.len(),
            |j: int|
                if j < s.width {
                    top_cell(s.path, j)
                } else {
                    blank[j]
                },
        ));
        let n_lines = app.doc.lines.len();
        assert(s.lines.len() == n_lines);
        let top_row = app.viewport.top_row;
        let avail = if n_lines > top_row {
            n_lines - top_row
        } else {
            0
        };
        let rows = if avail < app.viewport.height {
            avail
        } else {
            app.viewport.height
        };
        assert(rows == shown_rows(s));
        let mut r: usize = 0;
        while r < rows
            invariant
                r <= rows,
                rows == shown_rows(s),
                s == screen_of(*app, width as int),
                render_fits(s, height as int),
                width >= 1,
                b.cells@.len() == width * height,
                b.cells@ == draw_rows(top, s, r as int),
                b.width == width,
                b.height == height,
            decreases rows - r,
        {
            assert(row_end(s, r as int) <= width * height);
            draw_line(&mut b.cells, app, width, r);
            r = r + 1;
        }
        draw_bottom(&mut b.cells, app, width);
        assert(b.cells@ =~= spec_render(s, height as int));
        b
    }

    /// Whether `from` may draw `app` on a `width` by `height` screen: the grid
    /// fits in memory and everything drawn lands inside it; see `render_fits`.
    pub fn can_render(app: &App, width: usize, height: usize) -> (r: bool)
        ensures
            r == (width * height <= usize::MAX && render_fits(
                screen_of(*app, width as int),
                height as int,
            )),
    {
        let ghost s = screen_of(*app, width as int);
        if width == 0 {
            return false;
        }
        let total = match width.checked_mul(height) {
            None => {
                return false;
            },
            Some(t) => t,
        };
        let vh = app.viewport.height;
        let rows_needed = match vh.checked_add(2) {
            None => {
                assert((vh + 2) * width >= vh + 2) by (nonlinear_arith)
                    requires
                        width >= 1,
                ;
                return false;
            },
            Some(v) => match v.checked_mul(width) {
                None => {
                    return false;
                },
                Some(x) => x,
            },
        };
        if rows_needed > total || app.cursor.row == usize::MAX || app.cursor.col == usize::MAX
            || app.viewport.top_row > usize::MAX - vh {
            return false;
        }
        let n_lines = app.doc.lines.len();
        assert(s.lines.len() == n_lines);
        let top_row = app.viewport.top_row;
        let avail = if n_lines > top_row {
            n_lines - top_row
        } else {
            0
        };
        let rows = if avail < vh {
            avail
        } else {
            vh
        };
        assert(rows == shown_rows(s));
        let mut r: usize = 0;
        while r < rows
            invariant
                r <= rows,
                rows == shown_rows(s),
                s == screen_of(*app, width as int),
                total == width * height,
                forall|k: int| 0 <= k < r ==> #[trigger] row_end(s, k) <= total,
            decreases rows - r,
        {
            if !row_fits(app, width, r, total) {
                return false;
            }
            r = r + 1;
        }
        let label_len = char_len(app.mode.label().as_str());
        let path_len = char_len(app.doc.file_path.as_str());
        assert(bottom_text(s).len() == 1 + label_len + 3 + path_len);
        assert(label_len == 6);
        if path_len < width && width - path_len > 1 + label_len + 3 {
            let p = decimal_len(app.cursor.row + 1) + 1 + decimal_len(app.cursor.col + 1) + 1;
            assert(position_text(app.cursor).len() == p);
            if p > width {
                return false;
            }
        }
        true
    }

    /// The cells of `self` that differ from `old`, each with its row and
    /// column, in order.
    pub fn diff(&self, old: &Self) -> (d: Vec<(Pos, Cell)>)
        requires
            self.cells@.len() <= old.cells@.len(),
            self.width == 0 ==> forall|i: int|
                0 <= i < self.cells@.len() ==> old.cells@[i] == #[trigger] self.cells@[i],
        ensures
            d@ == spec_diff(self.cells@, old.cells@, self.width as int, self.cells@.len() as int),
    {
        let mut d: Vec<(Pos, Cell)> = Vec::new();
        let mut i: usize = 0;
        while i < self.cells.len()
            invariant
                i <= self.cells@.len() <= old.cells@.len(),
                self.width == 0 ==> forall|i: int|
                    0 <= i < self.cells@.len() ==> old.cells@[i] == #[trigger] self.cells@[i],
                d@ == spec_diff(self.cells@, old.cells@, self.width as int, i as int),
            decreases self.cells@.len() - i,
        {
            let cell = self.cells[i];
            if old.cells[i] != cell {
                let col = i % self.width;
                let row = i / self.width;
                d.push((Pos { row, col }, cell));
            }
            i = i + 1;
        }
        d
    }

    /// The text that brings the screen up to date: hide the cursor, draw each
    /// changed cell at its 1-based position, show the cursor.
    pub fn patch(diff: Vec<(Pos, Cell)>, theme: &Theme) -> (s: String)
        requires
            forall|i: int|
                0 <= i < diff@.len() ==> (#[trigger] diff@[i]).0.row < usize::MAX
                    && diff@[i].0.col < usize::MAX,
        ensures
            s@ == hide_cursor_seq() + patch_body(diff@, *theme, diff@.len() as int)
                + show_cursor_seq(),
    {
        let mut render = String::new();
        push_char(&mut render, '\x1b');
        push_char(&mut render, '[');
        push_char(&mut render, '?');
        push_char(&mut render, '2');
        push_char(&mut render, '5');
        push_char(&mut render, 'l');
        assert(render@ =~= hide_cursor_seq());
        let mut i: usize = 0;
        while i < diff.len()
            invariant
                i <= diff@.len(),
                forall|i: int|
                    0 <= i < diff@.len() ==> (#[trigger] diff@[i]).0.row < usize::MAX
                        && diff@[i].0.col < usize::MAX,
                render@ == hide_cursor_seq() + patch_body(diff@, *theme, i as int),
            decreases diff@.len() - i,
        {
            let (pos, cell) = diff[i];
            let piece = cell.build(Pos { row: pos.row + 1, col: pos.col + 1 }, theme);
            render.append(piece.as_str());
            i = i + 1;
            assert(render@ =~= hide_cursor_seq() + patch_body(diff@, *theme, i as int));
        }
        let ghost before = render@;
        push_char(&mut render, '\x1b');
        push_char(&mut render, '[');
        push_char(&mut render, '?');
        push_char(&mut render, '2');
        push_char(&mut render, '5');
        push_char(&mut render, 'h');
        assert(render@ =~= before + show_cursor_seq());
        render
    }
}

/// `cells` with each entry of `diff` written, in order, at its row and column
/// in a grid `width` cells wide.
pub open spec fn apply_diff(cells: Seq<Cell>, diff: Seq<(Pos, Cell)>, width: int) -> Seq<Cell>
    decreases diff.len(),
{
    if diff.len() == 0 {
        cells
    } else {
        let (p, c) = diff.last();
        apply_diff(cells, diff.drop_last(), width).update(p.row * width + p.col, c)
    }
}

/// Writing the first `k` differences over `old` gives `new` before index `k`
/// and `old` from there on.
proof fn lemma_apply_diff_prefix(new: Seq<Cell>, old: Seq<Cell>, width: int, k: int)
    requires
        width > 0,
        new.len() == old.len(),
        new.len() <= usize::MAX,
        0 <= k <= new.len(),
    ensures
        apply_diff(old, spec_diff(new, old, width, k), width) == Seq::new(
            old.len(),
            |i: int|
                if i < k {
                    new[i]
                } else {
                    old[i]
                },
        ),
    decreases k,
{
    if k == 0 {
        assert(apply_diff(old, spec_diff(new, old, width, 0), width) =~= Seq::new(
            old.len(),
            |i: int|
                if i < 0 {
                    new[i]
                } else {
                    old[i]
                },
        ));
    } else {
        let i = k - 1;
        lemma_apply_diff_prefix(new, old, width, i);
        let prev = spec_diff(new, old, width, i);
        if old[i] != new[i] {
            let d = prev.push((Pos { row: (i / width) as usize, col: (i % width) as usize }, new[i]));
            assert(d.drop_last() =~= prev);
            vstd::arithmetic::div_mod::lemma_fundamental_div_mod(i, width);
            assert(0 <= i / width <= i) by {
                vstd::arithmetic::div_mod::lemma_div_pos_is_pos(i, width);
                vstd::arithmetic::div_mod::lemma_div_is_ordered_by_denominator(i, 1, width);
            }
            assert((i / width) * width + i % width == i) by (nonlinear_arith)
                requires
                    i == width * (i / width) + i % width,
            ;
        }
        assert(apply_diff(old, spec_diff(new, old, width, k), width) =~= Seq::new(
            old.len(),
            |j: int|
                if j < k {
                    new[j]
                } else {
                    old[j]
                },
        ));
    }
}

/// Writing the cells that `diff` reports over the old grid gives the new grid:
/// the differences are all the update a screen showing `old` needs.
pub proof fn law_diff_brings_old_to_new(new: Seq<Cell>, old: Seq<Cell>, width: int)
    requires
        width > 0,
        new.len() == old.len(),
        new.len() <= usize::MAX,
    ensures
        apply_diff(old, spec_diff(new, old, width, new.len() as int), width) == new,
{
    lemma_apply_diff_prefix(new, old, width, new.len() as int);
    assert(Seq::new(
        old.len(),
        |i: int|
            if i < new.len() {
                new[i]
            } else {
                old[i]
            },
    ) =~= new);
}

} // verus!
