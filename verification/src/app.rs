//! The editor state and what each key does to it.
use vstd::prelude::*;

use crate::cursor::{
    c_at, c_bound_col, c_bound_row, c_down, c_end_of_line, c_last_char, c_left, c_pos, c_right,
    c_start_of_line, c_up, Cursor,
};
use crate::document::{
    insert_pieces, join_drops_row, join_times, joined, lemma_delete_nonempty, lemma_insert_len,
    lemma_join_at, lemma_line_within_size, lemma_split_concat, lemma_split_plain,
    lemma_split_space, nl, ordered, pos_max, pos_min, size, size_fits, spec_col_bound, spec_copy,
    spec_delete_lines, spec_deleted, spec_insert, spec_insert_end, spec_next_word, spec_prev_word,
    spec_row_bound, spec_word_end, valid_pos, Document, Pos,
};
use crate::key::Key;
use crate::text::{
    char_len, char_string, chars_of, contains_char, is_control, is_control_char,
    lemma_newline_splits, lemma_split_single_iff, split_on, string_of,
};
use crate::undo::UndoStack;
use crate::viewport::Viewport;

verus! {

/// What was last yanked or deleted: characters, or whole lines.
#[derive(Clone)]
pub enum Clipboard {
    Normal(String),
    Line(String),
    Empty,
}

/// The clipboard as values.
pub enum ClipView {
    Normal(Seq<char>),
    Line(Seq<char>),
    Empty,
}

/// The clipboard's contents as character sequences.
pub open spec fn clip_view(c: Clipboard) -> ClipView {
    match c {
        Clipboard::Normal(s) => ClipView::Normal(s@),
        Clipboard::Line(s) => ClipView::Line(s@),
        Clipboard::Empty => ClipView::Empty,
    }
}

/// The editing mode; `Visual` carries the position where the selection began.
#[derive(PartialEq, Eq, Clone, Copy, Debug, Structural)]
pub enum Mode {
    Normal,
    Replace,
    Delete,
    Copy,
    Insert,
    Visual(Pos),
}

impl Mode {
    /// Replaces the mode and hands the new one back.
    pub fn set(&mut self, mode: Mode) -> (r: Mode)
        ensures
            *final(self) == mode,
            r == mode,
    {
        *self = mode;
        mode
    }

    /// The name shown in the status bar: NORMAL, INSERT or VISUAL.
    pub fn label(&self) -> (s: String)
        ensures
            s@ == mode_label(*self),
    {
        let c = match self {
            Mode::Normal | Mode::Delete | Mode::Copy | Mode::Replace => 'N',
            Mode::Insert => 'I',
            Mode::Visual(_) => 'V',
        };
        let mut s = String::new();
        if c == 'N' {
            crate::text::push_char(&mut s, 'N');
            crate::text::push_char(&mut s, 'O');
            crate::text::push_char(&mut s, 'R');
            crate::text::push_char(&mut s, 'M');
            crate::text::push_char(&mut s, 'A');
            crate::text::push_char(&mut s, 'L');
        } else if c == 'I' {
            crate::text::push_char(&mut s, 'I');
            crate::text::push_char(&mut s, 'N');
            crate::text::push_char(&mut s, 'S');
            crate::text::push_char(&mut s, 'E');
            crate::text::push_char(&mut s, 'R');
            crate::text::push_char(&mut s, 'T');
        } else {
            crate::text::push_char(&mut s, 'V');
            crate::text::push_char(&mut s, 'I');
            crate::text::push_char(&mut s, 'S');
            crate::text::push_char(&mut s, 'U');
            crate::text::push_char(&mut s, 'A');
            crate::text::push_char(&mut s, 'L');
        }
        proof {
            assert(s@ =~= mode_label(*self));
        }
        s
    }
}

/// The status-bar name of a mode.
pub open spec fn mode_label(m: Mode) -> Seq<char> {
    match m {
        Mode::Insert => seq!['I', 'N', 'S', 'E', 'R', 'T'],
        Mode::Visual(_) => seq!['V', 'I', 'S', 'U', 'A', 'L'],
        _ => seq!['N', 'O', 'R', 'M', 'A', 'L'],
    }
}

/// What the caller does after a key: go on, quit, write the file and go on,
/// or read one more key and hand it to `handle_g`.
#[derive(PartialEq, Eq, Clone, Copy, Debug, Structural)]
pub enum Flow {
    Continue,
    Quit,
    Save,
    AwaitKey,
}

/// The editor state that keys act on, as values; `count` is the pending
/// count typed before a move (0 for none).
pub struct AppModel {
    pub lines: Seq<Seq<char>>,
    pub cursor: Cursor,
    pub mode: Mode,
    pub undo: Seq<(Seq<Seq<char>>, Cursor, Mode)>,
    pub clipboard: ClipView,
    pub count: usize,
}

/// The state with the lines, cursor and `mode` saved for undo.
pub open spec fn pushed(m: AppModel, mode: Mode) -> AppModel {
    AppModel { undo: m.undo.push((m.lines, m.cursor, mode)), ..m }
}

/// The number of joins the Visual-mode `J` makes: the rows the selection spans, at least one.
pub open spec fn join_count(from: Pos, to: Pos) -> nat {
    if to.row - from.row > 1 {
        (to.row - from.row) as nat
    } else {
        1
    }
}

/// The selection end of a Visual-mode command: the cursor with its column bounded.
pub open spec fn visual_end(m: AppModel) -> Pos {
    c_pos(c_bound_col(m.cursor, m.lines, m.mode))
}

/// The whole-line range of a Visual-mode `Y` or `D`: from column 0 of the first
/// selected row to the end of the last.
pub open spec fn visual_line_range(m: AppModel, lm: Pos) -> (Pos, Pos) {
    let cp = visual_end(m);
    let s = pos_min(lm, cp);
    let e = pos_max(lm, cp);
    (
        Pos { row: s.row, col: 0 },
        Pos {
            row: e.row,
            col: spec_col_bound(m.lines[e.row as int].len(), m.mode) as usize,
        },
    )
}

/// The cursor put at `p` and brought back into `lines` in `mode`.
pub open spec fn c_settle(p: Pos, lines: Seq<Seq<char>>, mode: Mode) -> Cursor {
    c_bound_col(c_bound_row(c_at(p), lines), lines, mode)
}

/// `J` in normal mode: the newline after the cursor's row becomes a space.
pub open spec fn arm_join(m: AppModel) -> AppModel {
    let m1 = pushed(m, m.mode);
    let c1 = c_end_of_line(m.cursor, m.lines, Mode::Insert);
    let p = c_pos(c1);
    AppModel {
        lines: spec_insert(spec_delete_lines(m.lines, p, p), p, seq![' ']),
        cursor: c1,
        ..m1
    }
}

/// `J` in visual mode: the selected rows are joined with spaces.
pub open spec fn arm_visual_join(m: AppModel, lm: Pos) -> AppModel {
    let m1 = pushed(m, m.mode);
    let from = pos_min(lm, c_pos(m.cursor));
    let to = pos_max(lm, c_pos(m.cursor));
    let k = join_count(from, to);
    AppModel {
        lines: join_times(m.lines, from.row as int, k),
        cursor: Cursor {
            row: from.row,
            col: join_times(m.lines, from.row as int, (k - 1) as nat)[from.row as int].len() as usize,
        },
        mode: Mode::Normal,
        ..m1
    }
}

/// `p`: put the clipboard after the cursor (characters) or below its row (lines).
pub open spec fn arm_put_after(m: AppModel) -> AppModel {
    let m1 = pushed(m, Mode::Normal);
    match m.clipboard {
        ClipView::Normal(s) => {
            let p = c_pos(c_right(m.cursor, m.lines, Mode::Insert));
            AppModel {
                lines: spec_insert(m.lines, p, s),
                cursor: c_at(spec_insert_end(p, s)),
                ..m1
            }
        },
        ClipView::Line(s) => {
            let s1 = if s.len() > 0 && s.last() == '\n' {
                s.drop_last()
            } else {
                s
            };
            let lines = spec_insert(
                m.lines,
                c_pos(c_end_of_line(m.cursor, m.lines, Mode::Insert)),
                nl() + s1,
            );
            AppModel {
                lines,
                cursor: c_down(m.cursor, lines),
                clipboard: ClipView::Line(s1),
                ..m1
            }
        },
        ClipView::Empty => m1,
    }
}

/// `P`: put the clipboard at the cursor (characters) or above its row (lines).
pub open spec fn arm_put_before(m: AppModel) -> AppModel {
    let m1 = pushed(m, Mode::Normal);
    match m.clipboard {
        ClipView::Normal(s) => AppModel {
            lines: spec_insert(m.lines, c_pos(m.cursor), s),
            cursor: c_at(spec_insert_end(c_pos(m.cursor), s)),
            ..m1
        },
        ClipView::Line(s) => AppModel {
            lines: spec_insert(m.lines, Pos { row: m.cursor.row, col: 0 }, s),
            ..m1
        },
        ClipView::Empty => m1,
    }
}

/// `y` then `k`: yank the row above and the cursor's row, and move up.
pub open spec fn arm_yank_up(m: AppModel) -> AppModel {
    let r = m.cursor.row;
    if r == 0 {
        AppModel { mode: Mode::Normal, ..m }
    } else {
        let start = Pos { row: (r - 1) as usize, col: 0 };
        let end = c_pos(c_end_of_line(m.cursor, m.lines, Mode::Insert));
        AppModel {
            cursor: c_up(m.cursor),
            mode: Mode::Normal,
            clipboard: ClipView::Line(spec_copy(m.lines, start, end)),
            ..m
        }
    }
}

/// `d` then `k`: delete the row above and the cursor's row.
pub open spec fn arm_delete_up(m: AppModel) -> AppModel {
    let m1 = pushed(m, Mode::Normal);
    let r = m.cursor.row;
    if r == 0 {
        AppModel { mode: Mode::Normal, ..m1 }
    } else {
        let start = Pos { row: (r - 1) as usize, col: 0 };
        let end = c_pos(c_end_of_line(m.cursor, m.lines, Mode::Insert));
        let lines = spec_delete_lines(m.lines, start, end);
        AppModel {
            lines,
            cursor: c_bound_row(c_up(m.cursor), lines),
            mode: Mode::Normal,
            clipboard: ClipView::Line(spec_deleted(m.lines, start, end)),
            ..m1
        }
    }
}

/// `d` then `j`: delete the cursor's row and the one below.
pub open spec fn arm_delete_down(m: AppModel) -> AppModel {
    let m1 = pushed(m, Mode::Normal);
    let r = m.cursor.row;
    if spec_row_bound(m.lines.len()) <= r {
        AppModel { mode: Mode::Normal, ..m1 }
    } else {
        let start = Pos { row: r, col: 0 };
        let end = c_pos(c_end_of_line(c_down(m.cursor, m.lines), m.lines, Mode::Insert));
        let lines = spec_delete_lines(m.lines, start, end);
        AppModel {
            lines,
            cursor: c_bound_row(m.cursor, lines),
            mode: Mode::Normal,
            clipboard: ClipView::Line(spec_deleted(m.lines, start, end)),
            ..m1
        }
    }
}

/// `y` then `j`: yank the cursor's row and the one below.
pub open spec fn arm_yank_down(m: AppModel) -> AppModel {
    let r = m.cursor.row;
    if spec_row_bound(m.lines.len()) <= r {
        AppModel { mode: Mode::Normal, ..m }
    } else {
        let start = Pos { row: r, col: 0 };
        let end = c_pos(c_end_of_line(c_down(m.cursor, m.lines), m.lines, Mode::Insert));
        AppModel {
            cursor: c_bound_row(m.cursor, m.lines),
            mode: Mode::Normal,
            clipboard: ClipView::Line(spec_copy(m.lines, start, end)),
            ..m
        }
    }
}

/// Backspace in insert mode: joins with the row above at column 0, otherwise
/// deletes the character before the cursor.
pub open spec fn arm_insert_backspace(m: AppModel) -> AppModel {
    let c = m.cursor;
    if c.row == 0 && c.col == 0 {
        m
    } else {
        let c1 = if c.col == 0 {
            c_end_of_line(c_up(c), m.lines, Mode::Insert)
        } else {
            c_left(c_bound_col(c, m.lines, Mode::Insert))
        };
        AppModel {
            lines: spec_delete_lines(m.lines, c_pos(c1), c_pos(c1)),
            cursor: c1,
            ..m
        }
    }
}

/// The cursor's row is empty.
pub open spec fn row_empty(m: AppModel) -> bool {
    m.lines[m.cursor.row as int].len() == 0
}

/// `x`: the character under the cursor goes to the clipboard; on an empty
/// row there is none, and nothing changes.
pub open spec fn arm_delete_char(m: AppModel) -> AppModel {
    let cp = c_pos(m.cursor);
    let lines = spec_delete_lines(m.lines, cp, cp);
    if row_empty(m) {
        m
    } else {
        AppModel {
            lines,
            cursor: c_bound_col(m.cursor, lines, Mode::Normal),
            clipboard: ClipView::Normal(spec_deleted(m.lines, cp, cp)),
            ..pushed(m, m.mode)
        }
    }
}

/// `o`: an empty row below the cursor's, entered in insert mode.
pub open spec fn arm_open_below(m: AppModel) -> AppModel {
    let lines = spec_insert(m.lines, c_pos(c_end_of_line(m.cursor, m.lines, Mode::Insert)), nl());
    AppModel {
        lines,
        cursor: c_bound_col(c_down(m.cursor, lines), lines, Mode::Insert),
        mode: Mode::Insert,
        ..pushed(m, m.mode)
    }
}

/// `D`: from the cursor to the end of its row goes to the clipboard; on an
/// empty row there is nothing to delete, and nothing changes.
pub open spec fn arm_delete_to_end(m: AppModel) -> AppModel {
    let cp = c_pos(m.cursor);
    let e = c_pos(c_end_of_line(m.cursor, m.lines, Mode::Normal));
    if row_empty(m) {
        m
    } else {
        AppModel {
            lines: spec_delete_lines(m.lines, pos_min(cp, e), pos_max(cp, e)),
            clipboard: ClipView::Normal(spec_deleted(m.lines, pos_min(cp, e), pos_max(cp, e))),
            ..pushed(m, Mode::Normal)
        }
    }
}

/// `r` then `key`: a printable character replaces the one under the cursor;
/// any key returns to normal mode.
pub open spec fn arm_replace(m: AppModel, key: Key) -> AppModel {
    let cp = c_pos(m.cursor);
    match key {
        Key::Sym(ch) => AppModel {
            lines: if is_control_char(ch) {
                m.lines
            } else {
                spec_insert(spec_delete_lines(m.lines, cp, cp), cp, seq![ch])
            },
            mode: Mode::Normal,
            ..pushed(m, m.mode)
        },
        _ => AppModel { mode: Mode::Normal, ..m },
    }
}

/// `y` in visual mode: the selection goes to the clipboard.
pub open spec fn arm_visual_yank(m: AppModel, lm: Pos) -> AppModel {
    let e = visual_end(m);
    AppModel {
        cursor: c_settle(pos_min(lm, e), m.lines, m.mode),
        mode: Mode::Normal,
        clipboard: ClipView::Normal(spec_copy(m.lines, pos_min(lm, e), pos_max(lm, e))),
        ..m
    }
}

/// `Y` in visual mode: the selected rows go to the clipboard.
pub open spec fn arm_visual_yank_lines(m: AppModel, lm: Pos) -> AppModel {
    let (s, e) = visual_line_range(m, lm);
    AppModel {
        cursor: c_settle(s, m.lines, m.mode),
        mode: Mode::Normal,
        clipboard: ClipView::Line(spec_copy(m.lines, s, e)),
        ..m
    }
}

/// `D` in visual mode: the selected rows are cut to the clipboard.
pub open spec fn arm_visual_delete_lines(m: AppModel, lm: Pos) -> AppModel {
    let (s, e) = visual_line_range(m, lm);
    let lines = spec_delete_lines(m.lines, s, e);
    AppModel {
        lines,
        cursor: c_settle(s, lines, m.mode),
        mode: Mode::Normal,
        clipboard: ClipView::Line(spec_deleted(m.lines, s, e)),
        ..pushed(m, m.mode)
    }
}

/// `d` in visual mode: the selection is cut to the clipboard.
pub open spec fn arm_visual_delete(m: AppModel, lm: Pos) -> AppModel {
    let e = visual_end(m);
    let lines = spec_delete_lines(m.lines, pos_min(lm, e), pos_max(lm, e));
    AppModel {
        lines,
        cursor: c_settle(pos_min(lm, e), lines, m.mode),
        mode: Mode::Normal,
        clipboard: ClipView::Normal(spec_deleted(m.lines, pos_min(lm, e), pos_max(lm, e))),
        ..pushed(m, m.mode)
    }
}

/// `d` then `d`: the cursor's row is cut to the clipboard.
pub open spec fn arm_delete_line(m: AppModel) -> AppModel {
    let start = Pos { row: m.cursor.row, col: 0 };
    let end = c_pos(c_end_of_line(m.cursor, m.lines, Mode::Insert));
    let lines = spec_delete_lines(m.lines, start, end);
    AppModel {
        lines,
        cursor: c_bound_row(m.cursor, lines),
        mode: Mode::Normal,
        clipboard: ClipView::Line(spec_deleted(m.lines, start, end)),
        ..pushed(m, Mode::Normal)
    }
}

/// `y` then `y`: the cursor's row goes to the clipboard.
pub open spec fn arm_yank_line(m: AppModel) -> AppModel {
    let start = Pos { row: m.cursor.row, col: 0 };
    let end = c_pos(c_end_of_line(m.cursor, m.lines, Mode::Insert));
    AppModel {
        cursor: c_bound_row(m.cursor, m.lines),
        mode: Mode::Normal,
        clipboard: ClipView::Line(spec_copy(m.lines, start, end)),
        ..m
    }
}

/// Undo: back to the most recently saved state, if any.
pub open spec fn arm_undo(m: AppModel) -> AppModel {
    if m.undo.len() > 0 {
        AppModel {
            lines: m.undo.last().0,
            cursor: m.undo.last().1,
            mode: m.undo.last().2,
            undo: m.undo.drop_last(),
            ..m
        }
    } else {
        m
    }
}

/// How many times a move is made: the pending count, or once when there is none.
pub open spec fn times(count: usize) -> nat {
    if count == 0 {
        1
    } else {
        count as nat
    }
}

/// The value of a digit key.
pub open spec fn digit_of_key(key: Key) -> Option<nat> {
    match key {
        Key::Sym(ch) => if '0' <= ch && ch <= '9' {
            Some((ch as nat - '0' as nat) as nat)
        } else {
            None
        },
        _ => None,
    }
}

/// A digit that extends the pending count: `1` to `9`, or `0` after another digit.
pub open spec fn is_count_key(count: usize, key: Key) -> bool {
    match digit_of_key(key) {
        Some(d) => d != 0 || count != 0,
        None => false,
    }
}

/// The pending count after digit `d`: one more decimal digit, at most `usize::MAX`.
pub open spec fn next_count(count: usize, d: nat) -> usize {
    let v = count * 10 + d;
    if v > usize::MAX {
        usize::MAX as usize
    } else {
        v as usize
    }
}

/// `h`, `j`, `k`, `l`, or an arrow key other than left.
pub open spec fn is_move_key(key: Key) -> bool {
    match key {
        Key::Sym('h') | Key::Sym('j') | Key::ArrowDown | Key::Sym('k') | Key::ArrowUp | Key::Sym('l')
        | Key::ArrowRight => true,
        _ => false,
    }
}

/// Where `h`, `j`, `k` or `l` (or an arrow) made `n` times takes the cursor:
/// left and up stop at the first column and row, down at the last row,
/// right at the line's last column in the mode.
pub open spec fn moved(m: AppModel, key: Key, n: nat) -> Cursor {
    let c = m.cursor;
    match key {
        Key::Sym('h') => {
            let b = c_bound_col(c, m.lines, m.mode).col;
            Cursor { row: c.row, col: if b > n { (b - n) as usize } else { 0 } }
        },
        Key::Sym('j') | Key::ArrowDown => {
            let rb = spec_row_bound(m.lines.len());
            Cursor { row: if c.row + n < rb { (c.row + n) as usize } else { rb as usize }, col: c.col }
        },
        Key::Sym('k') | Key::ArrowUp => Cursor {
            row: if c.row > n { (c.row - n) as usize } else { 0 },
            col: c.col,
        },
        _ => {
            let cb = spec_col_bound(m.lines[c.row as int].len(), m.mode);
            Cursor { row: c.row, col: if c.col + n < cb { (c.col + n) as usize } else { cb as usize } }
        },
    }
}

/// The result of a key in normal or visual mode: a count digit only extends
/// the pending count; any other key acts as `r` says and clears the count.
pub open spec fn counted(m: AppModel, key: Key, r: (AppModel, Flow)) -> (AppModel, Flow) {
    if is_count_key(m.count, key) {
        (AppModel { count: next_count(m.count, digit_of_key(key).unwrap()), ..m }, Flow::Continue)
    } else {
        (AppModel { count: 0, ..r.0 }, r.1)
    }
}

/// A key that acts alike in normal and visual mode.
pub open spec fn is_shared_key(key: Key) -> bool {
    match key {
        Key::Sym('Q') | Key::Sym('W') | Key::Sym('h') | Key::Sym('j') | Key::ArrowDown | Key::Sym(
            'k',
        ) | Key::ArrowUp | Key::Sym('l') | Key::ArrowRight | Key::Sym('u') | Key::Sym('w')
        | Key::Sym('b') | Key::Sym('e') | Key::Sym('G') => true,
        _ => false,
    }
}

/// Quit, write, the moves, and undo, in normal or visual mode.
pub open spec fn spec_shared(m: AppModel, key: Key) -> (AppModel, Flow) {
    let l = m.lines;
    let c = m.cursor;
    let cp = c_pos(c);
    let go = Flow::Continue;
    match key {
        Key::Sym('Q') => (m, Flow::Quit),
        Key::Sym('W') => (m, Flow::Save),
        Key::Sym('h') | Key::Sym('j') | Key::ArrowDown | Key::Sym('k') | Key::ArrowUp | Key::Sym('l')
        | Key::ArrowRight => (AppModel { cursor: moved(m, key, times(m.count)), ..m }, go),
        Key::Sym('u') => (arm_undo(m), go),
        Key::Sym('w') => (AppModel { cursor: c_at(spec_next_word(l, cp)), ..m }, go),
        Key::Sym('b') => (AppModel { cursor: c_at(spec_prev_word(l, cp)), ..m }, go),
        Key::Sym('e') => (AppModel { cursor: c_at(spec_word_end(l, cp)), ..m }, go),
        Key::Sym('G') => (AppModel { cursor: c_last_char(l), ..m }, go),
        _ => (m, go),
    }
}

/// A key in normal mode.
pub open spec fn spec_normal(m: AppModel, key: Key) -> (AppModel, Flow) {
    let l = m.lines;
    let c = m.cursor;
    let cp = c_pos(c);
    let go = Flow::Continue;
    if is_shared_key(key) {
        spec_shared(m, key)
    } else {
        match key {
            Key::Sym('i') => (
                AppModel {
                    cursor: c_bound_col(c, l, Mode::Insert),
                    mode: Mode::Insert,
                    ..pushed(m, m.mode)
                },
                go,
            ),
            Key::Sym('I') => (
                AppModel { cursor: c_start_of_line(c, l), mode: Mode::Insert, ..m },
                go,
            ),
            Key::Sym('J') => (arm_join(m), go),
            Key::Sym('A') => (
                AppModel {
                    cursor: c_end_of_line(c, l, Mode::Insert),
                    mode: Mode::Insert,
                    ..pushed(m, m.mode)
                },
                go,
            ),
            Key::Sym('s') => (
                AppModel {
                    lines: spec_delete_lines(l, cp, cp),
                    mode: Mode::Insert,
                    ..pushed(m, m.mode)
                },
                go,
            ),
            Key::Sym('a') => (
                AppModel {
                    cursor: c_right(c, l, Mode::Insert),
                    mode: Mode::Insert,
                    ..pushed(m, m.mode)
                },
                go,
            ),
            Key::Sym('o') => (arm_open_below(m), go),
            Key::Sym('r') => (AppModel { mode: Mode::Replace, ..m }, go),
            Key::Sym('x') => (arm_delete_char(m), go),
            Key::Sym('v') => (AppModel { mode: Mode::Visual(cp), ..m }, go),
            Key::Sym('P') => (arm_put_before(m), go),
            Key::Sym('p') => (arm_put_after(m), go),
            Key::Sym('D') => (arm_delete_to_end(m), go),
            Key::Sym('Y') => {
                let e = c_pos(c_end_of_line(c, l, Mode::Normal));
                if row_empty(m) {
                    (m, go)
                } else {
                    (
                        AppModel {
                            clipboard: ClipView::Normal(
                                spec_copy(l, pos_min(cp, e), pos_max(cp, e)),
                            ),
                            ..m
                        },
                        go,
                    )
                }
            },
            Key::Sym('d') => (AppModel { mode: Mode::Delete, ..m }, go),
            Key::Sym('y') => (AppModel { mode: Mode::Copy, ..m }, go),
            Key::Sym('g') => (m, Flow::AwaitKey),
            Key::Enter => (AppModel { cursor: c_start_of_line(c_down(c, l), l), ..m }, go),
            Key::Backspace => (
                AppModel {
                    cursor: if c.col == 0 {
                        c_end_of_line(c_up(c), l, m.mode)
                    } else {
                        c_left(c)
                    },
                    ..m
                },
                go,
            ),
            _ => (m, go),
        }
    }
}

/// A key in visual mode with the selection begun at `lm`.
pub open spec fn spec_visual(m: AppModel, lm: Pos, key: Key) -> (AppModel, Flow) {
    let go = Flow::Continue;
    if is_shared_key(key) {
        spec_shared(m, key)
    } else {
        match key {
            Key::Sym('J') => (arm_visual_join(m, lm), go),
            Key::Escape => (AppModel { mode: Mode::Normal, ..m }, go),
            Key::Sym('y') => (arm_visual_yank(m, lm), go),
            Key::Sym('Y') => (arm_visual_yank_lines(m, lm), go),
            Key::Sym('D') => (arm_visual_delete_lines(m, lm), go),
            Key::Sym('d') => (arm_visual_delete(m, lm), go),
            _ => (m, go),
        }
    }
}

/// A key in insert mode: escape, a new line, backspace, or a character typed in.
pub open spec fn spec_insert_key(m: AppModel, key: Key) -> AppModel {
    let l = m.lines;
    let c = m.cursor;
    let cp = c_pos(c);
    match key {
        Key::Escape => AppModel {
            cursor: c_bound_col(c, l, Mode::Normal),
            mode: Mode::Normal,
            ..m
        },
        Key::Enter => {
            let lines = spec_insert(l, cp, nl());
            AppModel { lines, cursor: c_bound_col(c_down(c, lines), lines, Mode::Insert), ..m }
        },
        Key::Backspace => arm_insert_backspace(m),
        Key::Sym(ch) => if is_control_char(ch) {
            m
        } else {
            let lines = spec_insert(l, cp, seq![ch]);
            AppModel { lines, cursor: c_right(c, lines, Mode::Insert), ..m }
        },
        _ => m,
    }
}

/// The key after `y`.
pub open spec fn spec_copy_key(m: AppModel, key: Key) -> AppModel {
    match key {
        Key::Sym('y') => arm_yank_line(m),
        Key::Sym('j') => arm_yank_down(m),
        Key::Sym('k') => arm_yank_up(m),
        _ => AppModel { mode: Mode::Normal, ..m },
    }
}

/// The key after `d`.
pub open spec fn spec_delete_key(m: AppModel, key: Key) -> AppModel {
    match key {
        Key::Sym('d') => arm_delete_line(m),
        Key::Sym('j') => arm_delete_down(m),
        Key::Sym('k') => arm_delete_up(m),
        _ => AppModel { mode: Mode::Normal, ..m },
    }
}

/// The state after `key`, and what the caller does next.
pub open spec fn spec_handle(m: AppModel, key: Key) -> (AppModel, Flow) {
    match m.mode {
        Mode::Normal => counted(m, key, spec_normal(m, key)),
        Mode::Visual(lm) => counted(m, key, spec_visual(m, lm, key)),
        Mode::Insert => (spec_insert_key(m, key), Flow::Continue),
        Mode::Replace => (arm_replace(m, key), Flow::Continue),
        Mode::Copy => (spec_copy_key(m, key), Flow::Continue),
        Mode::Delete => (spec_delete_key(m, key), Flow::Continue),
    }
}

/// The cursor is on a line of the document.
pub open spec fn on_line(m: AppModel) -> bool {
    m.cursor.row < m.lines.len()
}

/// Deleting the character under the cursor leaves its row in place: the
/// cursor is not on an empty last row below the first.
pub open spec fn keeps_row(m: AppModel) -> bool {
    let r = m.cursor.row as int;
    !(m.cursor.col == 0 && m.lines[r].len() == 0 && r + 1 == m.lines.len() && r > 0)
}

/// Inserting the clipboard's characters at column `col` keeps the end column in range.
pub open spec fn clip_fits(m: AppModel, col: int) -> bool {
    match m.clipboard {
        ClipView::Normal(s) => split_on(s, '\n').len() == 1 ==> col + s.len() <= usize::MAX,
        _ => true,
    }
}

/// The shared keys are handled without a fault.
pub open spec fn shared_defined(m: AppModel, key: Key) -> bool {
    match key {
        Key::Sym('h') => on_line(m),
        Key::Sym('j') | Key::ArrowDown => m.cursor.row < usize::MAX,
        Key::Sym('l') | Key::ArrowRight => on_line(m) && m.cursor.col < usize::MAX,
        Key::Sym('G') => m.lines.len() > 0,
        _ => true,
    }
}

/// A normal-mode key is handled without a fault.
pub open spec fn normal_defined(m: AppModel, key: Key) -> bool {
    let l = m.lines;
    let c = m.cursor;
    let r = c.row as int;
    if is_shared_key(key) {
        shared_defined(m, key)
    } else {
        match key {
            Key::Sym('i') | Key::Sym('I') | Key::Sym('A') | Key::Sym('o') | Key::Sym('Y') => on_line(
                m,
            ),
            Key::Sym('J') => on_line(m) && !join_drops_row(l, r) && l[r].len() < usize::MAX,
            Key::Sym('s') => on_line(m) && c.col <= l[r].len(),
            Key::Sym('D') | Key::Sym('x') => on_line(m) && (l[r].len() == 0 || c.col <= l[r].len()),
            Key::Sym('a') => on_line(m) && c.col < usize::MAX,
            Key::Sym('P') => match m.clipboard {
                ClipView::Normal(_) => on_line(m) && clip_fits(m, c.col as int),
                ClipView::Line(_) => on_line(m),
                ClipView::Empty => true,
            },
            Key::Sym('p') => match m.clipboard {
                ClipView::Normal(_) => on_line(m) && c.col < usize::MAX && clip_fits(
                    m,
                    c_right(c, l, Mode::Insert).col as int,
                ),
                ClipView::Line(_) => on_line(m),
                ClipView::Empty => true,
            },
            Key::Enter => c.row < usize::MAX && l.len() > 0,
            Key::Backspace => c.col != 0 || c_up(c).row < l.len(),
            _ => true,
        }
    }
}

/// A visual-mode key is handled without a fault.
pub open spec fn visual_defined(m: AppModel, lm: Pos, key: Key) -> bool {
    let l = m.lines;
    if is_shared_key(key) {
        shared_defined(m, key)
    } else {
        match key {
            Key::Sym('J') => {
                let from = pos_min(lm, c_pos(m.cursor));
                let to = pos_max(lm, c_pos(m.cursor));
                &&& from.row < l.len()
                &&& !join_drops_row(l, from.row as int)
                &&& size(l) + join_count(from, to) <= usize::MAX
            },
            Key::Sym('y') | Key::Sym('Y') | Key::Sym('D') => on_line(m) && lm.row < l.len(),
            Key::Sym('d') => on_line(m) && valid_pos(l, lm),
            _ => true,
        }
    }
}

/// An insert-mode key is handled without a fault.
pub open spec fn insert_defined(m: AppModel, key: Key) -> bool {
    let c = m.cursor;
    match key {
        Key::Escape | Key::Enter => on_line(m),
        Key::Backspace => (c.row == 0 && c.col == 0) || (if c.col == 0 {
            c_up(c).row < m.lines.len()
        } else {
            on_line(m)
        }),
        Key::Sym(ch) => is_control_char(ch) || (on_line(m) && c.col < usize::MAX),
        _ => true,
    }
}

/// `key` is handled without a fault: the editor's own conditions for each key
/// (the cursor on a line where a key reads or edits it, the cursor's column
/// within its line where `s`, `x`, `D` and `r` delete there, the selection's
/// start within its line for `d`, no join that removes the row it inserts
/// into), and the columns and sizes staying within `usize`.
pub open spec fn handle_defined(m: AppModel, key: Key) -> bool {
    let c = m.cursor;
    match m.mode {
        Mode::Normal => is_count_key(m.count, key) || normal_defined(m, key),
        Mode::Visual(lm) => is_count_key(m.count, key) || visual_defined(m, lm, key),
        Mode::Insert => insert_defined(m, key),
        Mode::Replace => match key {
            Key::Sym(ch) => is_control_char(ch) || (on_line(m) && c.col <= m.lines[c.row as int].len()
                && keeps_row(m) && c.col < usize::MAX),
            _ => true,
        },
        Mode::Copy => match key {
            Key::Sym('y') => on_line(m),
            Key::Sym('k') => c.row == 0 || on_line(m),
            _ => true,
        },
        Mode::Delete => match key {
            Key::Sym('d') => on_line(m),
            Key::Sym('k') => c.row == 0 || on_line(m),
            _ => true,
        },
    }
}

/// The digit of a key that extends the pending `count`, if it is one.
pub fn count_digit(count: usize, key: Key) -> (d: Option<usize>)
    ensures
        d.is_some() == is_count_key(count, key),
        d.is_some() ==> d.unwrap() == digit_of_key(key).unwrap() && d.unwrap() < 10,
{
    match key {
        Key::Sym(ch) => {
            if '0' <= ch && ch <= '9' {
                let d = (ch as u32 - '0' as u32) as usize;
                if d != 0 || count != 0 {
                    Some(d)
                } else {
                    None
                }
            } else {
                None
            }
        },
        _ => None,
    }
}

/// The pending count after digit `d`; see `next_count`.
pub fn extend_count(count: usize, d: usize) -> (r: usize)
    requires
        d < 10,
    ensures
        r == next_count(count, d as nat),
{
    let q = (usize::MAX - d) / 10;
    if count > q {
        assert(count * 10 + d > usize::MAX) by (nonlinear_arith)
            requires
                count > q,
                q == (usize::MAX - d) / 10,
                d < 10,
        ;
        usize::MAX
    } else {
        assert(count * 10 + d <= usize::MAX) by (nonlinear_arith)
            requires
                count <= q,
                q == (usize::MAX - d) / 10,
                d < 10,
        ;
        count * 10 + d
    }
}

/// Whether `key` acts alike in normal and visual mode.
pub fn shared_key(key: Key) -> (r: bool)
    ensures
        r == is_shared_key(key),
{
    match key {
        Key::Sym('Q') | Key::Sym('W') | Key::Sym('h') | Key::Sym('j') | Key::ArrowDown | Key::Sym(
            'k',
        ) | Key::ArrowUp | Key::Sym('l') | Key::ArrowRight | Key::Sym('u') | Key::Sym('w')
        | Key::Sym('b') | Key::Sym('e') | Key::Sym('G') => true,
        _ => false,
    }
}

/// The editor: the document, the visible window, the cursor, the mode, the
/// undo history, the clipboard, and the count typed before a move (0 for none).
pub struct App {
    pub doc: Document,
    pub viewport: Viewport,
    pub cursor: Cursor,
    pub mode: Mode,
    pub undo: UndoStack,
    pub clipboard: Clipboard,
    pub count: usize,
}

impl App {
    /// The state keys act on.
    pub open spec fn model(&self) -> AppModel {
        AppModel {
            lines: self.doc@,
            cursor: self.cursor,
            mode: self.mode,
            undo: self.undo@,
            clipboard: clip_view(self.clipboard),
            count: self.count,
        }
    }

    /// An editor on `doc` showing `viewport`: cursor at the start, normal
    /// mode, no history, empty clipboard.
    pub fn new(doc: Document, viewport: Viewport) -> (app: App)
        ensures
            app.doc == doc,
            app.viewport == viewport,
            app.cursor.row == 0 && app.cursor.col == 0,
            app.mode == Mode::Normal,
            app.undo@.len() == 0,
            app.clipboard == Clipboard::Empty,
            app.count == 0,
    {
        App {
            doc,
            viewport,
            cursor: Cursor::new(),
            mode: Mode::Normal,
            undo: UndoStack::new(),
            clipboard: Clipboard::Empty,
            count: 0,
        }
    }

    /// Saves the lines, the cursor and `mode` for undo.
    fn remember(&mut self, mode: Mode)
        ensures
            final(self).model() == pushed(old(self).model(), mode),
            final(self).doc == old(self).doc,
            final(self).viewport == old(self).viewport,
    {
        let lines = self.doc.snapshot();
        self.undo.push(lines, self.cursor, mode);
    }

    /// Handles one key; see `spec_handle` for what each key does and
    /// `handle_defined` for the states in which it is handled without a fault.
    pub fn handle_input(&mut self, key: Key) -> (flow: Flow)
        requires
            handle_defined(old(self).model(), key),
        ensures
            final(self).model() == spec_handle(old(self).model(), key).0,
            flow == spec_handle(old(self).model(), key).1,
            final(self).doc.file_path == old(self).doc.file_path,
            final(self).viewport == old(self).viewport,
    {
        match self.mode {
            Mode::Normal | Mode::Visual(_) => {
                if let Some(d) = count_digit(self.count, key) {
                    self.count = extend_count(self.count, d);
                    return Flow::Continue;
                }
                let flow = match self.mode {
                    Mode::Visual(landmark) => self.handle_visual(landmark, key),
                    _ => self.handle_normal(key),
                };
                self.count = 0;
                flow
            },
            Mode::Insert => {
                self.handle_insert(key);
                Flow::Continue
            },
            Mode::Replace => {
                match key {
                    Key::Sym(ch) => self.replace_char(ch),
                    _ => {
                        self.mode.set(Mode::Normal);
                    },
                }
                Flow::Continue
            },
            Mode::Copy => {
                match key {
                    Key::Sym('y') => self.yank_line(),
                    Key::Sym('j') => self.yank_down(),
                    Key::Sym('k') => self.yank_up(),
                    _ => {
                        self.mode.set(Mode::Normal);
                    },
                }
                Flow::Continue
            },
            Mode::Delete => {
                match key {
                    Key::Sym('d') => self.delete_line(),
                    Key::Sym('j') => self.delete_down(),
                    Key::Sym('k') => self.delete_up(),
                    _ => {
                        self.mode.set(Mode::Normal);
                    },
                }
                Flow::Continue
            },
        }
    }

    /// Quit, write, the moves, and undo, in normal or visual mode.
    fn handle_shared(&mut self, key: Key) -> (flow: Flow)
        requires
            is_shared_key(key),
            old(self).mode == Mode::Normal || old(self).mode is Visual,
            shared_defined(old(self).model(), key),
        ensures
            final(self).model() == spec_shared(old(self).model(), key).0,
            flow == spec_shared(old(self).model(), key).1,
            final(self).doc.file_path == old(self).doc.file_path,
            final(self).viewport == old(self).viewport,
    {
        let mode = self.mode;
        match key {
            Key::Sym('Q') => {
                return Flow::Quit;
            },
            Key::Sym('W') => {
                return Flow::Save;
            },
            Key::Sym('h') | Key::Sym('j') | Key::ArrowDown | Key::Sym('k') | Key::ArrowUp | Key::Sym(
                'l',
            ) | Key::ArrowRight => {
                let n = if self.count == 0 {
                    1
                } else {
                    self.count
                };
                self.move_times(key, n);
            },
            Key::Sym('u') => {
                if let Some(snapshot) = self.undo.pop() {
                    let (lines, cursor, saved) = snapshot;
                    self.doc.restore(lines);
                    self.cursor = cursor;
                    self.mode.set(saved);
                }
            },
            Key::Sym('w') => {
                let p = self.doc.next_word(self.cursor.to_pos());
                self.cursor.go_to_pos(p);
            },
            Key::Sym('b') => {
                let p = self.doc.prev_word(self.cursor.to_pos());
                self.cursor.go_to_pos(p);
            },
            Key::Sym('e') => {
                let p = self.doc.last_char_of_next_word(self.cursor.to_pos());
                self.cursor.go_to_pos(p);
            },
            Key::Sym('G') => {
                self.cursor.go_to_last_char(&self.doc);
            },
            _ => {},
        }
        Flow::Continue
    }

    /// A key in normal mode.
    fn handle_normal(&mut self, key: Key) -> (flow: Flow)
        requires
            old(self).mode == Mode::Normal,
            normal_defined(old(self).model(), key),
        ensures
            final(self).model() == spec_normal(old(self).model(), key).0,
            flow == spec_normal(old(self).model(), key).1,
            final(self).doc.file_path == old(self).doc.file_path,
            final(self).viewport == old(self).viewport,
    {
        if shared_key(key) {
            return self.handle_shared(key);
        }
        let mode = self.mode;
        match key {
            Key::Sym('i') => {
                self.remember(mode);
                let insert = self.mode.set(Mode::Insert);
                self.cursor.bound_col(&self.doc, insert);
            },
            Key::Sym('I') => {
                self.mode.set(Mode::Insert);
                self.cursor.go_to_start_of_line(&self.doc);
            },
            Key::Sym('J') => {
                self.join_line();
            },
            Key::Sym('A') => {
                self.remember(mode);
                let insert = self.mode.set(Mode::Insert);
                self.cursor.go_to_end_of_line(&self.doc, insert);
            },
            Key::Sym('s') => {
                self.remember(mode);
                self.mode.set(Mode::Insert);
                let p = self.cursor.to_pos();
                self.doc.delete(p, p);
            },
            Key::Sym('a') => {
                self.remember(mode);
                let insert = self.mode.set(Mode::Insert);
                self.cursor.right(&self.doc, insert);
            },
            Key::Sym('o') => {
                self.open_line_below();
            },
            Key::Sym('r') => {
                self.mode.set(Mode::Replace);
            },
            Key::Sym('x') => {
                self.delete_char();
            },
            Key::Sym('v') => {
                let p = self.cursor.to_pos();
                self.mode.set(Mode::Visual(p));
            },
            Key::Sym('P') => {
                self.put_before();
            },
            Key::Sym('p') => {
                self.put_after();
            },
            Key::Sym('D') => {
                self.delete_to_end_of_line();
            },
            Key::Sym('Y') => {
                if self.line_len(self.cursor.row) == 0 {
                    return Flow::Continue;
                }
                let start = self.cursor.to_pos();
                let mut end_cursor = self.cursor;
                let end = end_cursor.go_to_end_of_line(&self.doc, Mode::Normal).to_pos();
                self.clipboard = Clipboard::Normal(self.doc.copy(start, end));
            },
            Key::Sym('d') => {
                self.mode.set(Mode::Delete);
            },
            Key::Sym('y') => {
                self.mode.set(Mode::Copy);
            },
            Key::Sym('g') => {
                return Flow::AwaitKey;
            },
            Key::Enter => {
                self.cursor.down(&self.doc).go_to_start_of_line(&self.doc);
            },
            Key::Backspace => {
                if self.cursor.col == 0 {
                    self.cursor.up().go_to_end_of_line(&self.doc, mode);
                } else {
                    self.cursor.left();
                }
            },
            _ => {},
        }
        Flow::Continue
    }

    /// A key in visual mode with the selection begun at `landmark`.
    fn handle_visual(&mut self, landmark: Pos, key: Key) -> (flow: Flow)
        requires
            old(self).mode == Mode::Visual(landmark),
            visual_defined(old(self).model(), landmark, key),
        ensures
            final(self).model() == spec_visual(old(self).model(), landmark, key).0,
            flow == spec_visual(old(self).model(), landmark, key).1,
            final(self).doc.file_path == old(self).doc.file_path,
            final(self).viewport == old(self).viewport,
    {
        if shared_key(key) {
            return self.handle_shared(key);
        }
        match key {
            Key::Sym('J') => {
                self.join_selection(landmark);
            },
            Key::Escape => {
                self.mode.set(Mode::Normal);
            },
            Key::Sym('y') => {
                self.yank_selection(landmark);
            },
            Key::Sym('Y') => {
                self.yank_selected_lines(landmark);
            },
            Key::Sym('D') => {
                self.delete_selected_lines(landmark);
            },
            Key::Sym('d') => {
                self.delete_selection(landmark);
            },
            _ => {},
        }
        Flow::Continue
    }

    /// A key in insert mode.
    fn handle_insert(&mut self, key: Key)
        requires
            old(self).mode == Mode::Insert,
            insert_defined(old(self).model(), key),
        ensures
            final(self).model() == spec_insert_key(old(self).model(), key),
            final(self).doc.file_path == old(self).doc.file_path,
            final(self).viewport == old(self).viewport,
    {
        let mode = self.mode;
        match key {
            Key::Escape => {
                let normal = self.mode.set(Mode::Normal);
                self.cursor.bound_col(&self.doc, normal);
            },
            Key::Enter => {
                let p = self.cursor.to_pos();
                let _ = self.doc.lines.len();
                let newline = char_string('\n');
                proof {
                    lemma_insert_len(self.doc@, p, nl());
                    lemma_newline_splits(newline@);
                }
                self.doc.insert(p, &newline);
                self.cursor.down(&self.doc).bound_col(&self.doc, mode);
            },
            Key::Backspace => {
                self.backspace();
            },
            Key::Sym(ch) => {
                if !is_control(ch) {
                    let p = self.cursor.to_pos();
                    let s = char_string(ch);
                    proof {
                        lemma_split_single_iff(s@, '\n');
                        lemma_insert_len(self.doc@, p, s@);
                    }
                    self.doc.insert(p, &s);
                    self.cursor.right(&self.doc, mode);
                }
            },
            _ => {},
        }
    }

    /// `y` then `y`: yanks the cursor's row.
    fn yank_line(&mut self)
        requires
            old(self).mode == Mode::Copy,
            on_line(old(self).model()),
        ensures
            final(self).model() == arm_yank_line(old(self).model()),
            final(self).doc.file_path == old(self).doc.file_path,
            final(self).viewport == old(self).viewport,
    {
        let start = Pos { row: self.cursor.row, col: 0 };
        let mut end_cursor = self.cursor;
        let end = end_cursor.go_to_end_of_line(&self.doc, Mode::Insert).to_pos();
        self.clipboard = Clipboard::Line(self.doc.copy(start, end));
        self.cursor.bound_row(&self.doc);
        self.mode.set(Mode::Normal);
    }

    /// `J`: the newline after the cursor's row becomes a space.
    fn join_line(&mut self)
        requires
            old(self).mode == Mode::Normal,
            normal_defined(old(self).model(), Key::Sym('J')),
        ensures
            final(self).model() == arm_join(old(self).model()),
            final(self).doc.file_path == old(self).doc.file_path,
            final(self).viewport == old(self).viewport,
    {
        self.remember(self.mode);
        let pos = self.cursor.go_to_end_of_line(&self.doc, Mode::Insert).to_pos();
        proof {
            lemma_delete_nonempty(self.doc@, pos, pos);
            lemma_split_space();
        }
        self.doc.delete(pos, pos);
        self.doc.insert(pos, &char_string(' '));
    }

    /// `J` in visual mode: joins the selected rows with spaces.
    fn join_selection(&mut self, landmark: Pos)
        requires
            old(self).mode == Mode::Visual(landmark),
            visual_defined(old(self).model(), landmark, Key::Sym('J')),
        ensures
            final(self).model() == arm_visual_join(old(self).model(), landmark),
            final(self).doc.file_path == old(self).doc.file_path,
            final(self).viewport == old(self).viewport,
    {
        let ghost m = self.model();
        self.remember(self.mode);
        let (from, to) = ordered(landmark, self.cursor.to_pos());
        self.cursor.go_to_pos(from);
        let k = if to.row - from.row > 1 {
            to.row - from.row
        } else {
            1
        };
        let ghost l0 = m.lines;
        let ghost f = from.row as int;
        let mut i: usize = 0;
        while i < k
            invariant
                i <= k,
                k == join_count(from, to),
                f == from.row,
                f < l0.len(),
                !join_drops_row(l0, f),
                size(l0) + k <= usize::MAX,
                self.doc@ == join_times(l0, f, i as nat),
                f < self.doc@.len(),
                i > 0 ==> self.doc@[f].len() >= 1,
                size(self.doc@) <= size(l0) + i,
                self.cursor.row == from.row,
                i == 0 ==> self.cursor.col == from.col,
                i > 0 ==> self.cursor.col == join_times(l0, f, (i - 1) as nat)[f].len(),
                self.doc.file_path == old(self).doc.file_path,
                self.mode == old(self).mode,
                self.undo@ == old(self).undo@.push((l0, old(self).cursor, old(self).mode)),
                clip_view(self.clipboard) == clip_view(old(self).clipboard),
                self.count == old(self).count,
                self.viewport == old(self).viewport,
            decreases k - i,
        {
            let n = self.doc.lines.len();
            let ghost before = self.doc@;
            proof {
                lemma_line_within_size(before, f);
                lemma_join_at(before, f);
                lemma_split_space();
            }
            let pos = self.cursor.go_to_end_of_line(&self.doc, Mode::Insert).to_pos();
            proof {
                lemma_delete_nonempty(before, pos, pos);
            }
            self.doc.delete(pos, pos);
            self.doc.insert(pos, &char_string(' '));
            i += 1;
        }
        self.mode.set(Mode::Normal);
    }

    /// `o`: opens an empty row below the cursor's and enters insert mode on it.
    fn open_line_below(&mut self)
        requires
            old(self).mode == Mode::Normal,
            on_line(old(self).model()),
        ensures
            final(self).model() == arm_open_below(old(self).model()),
            final(self).doc.file_path == old(self).doc.file_path,
            final(self).viewport == old(self).viewport,
    {
        self.remember(self.mode);
        let mut end_cursor = self.cursor;
        let pos = end_cursor.go_to_end_of_line(&self.doc, Mode::Insert).to_pos();
        let _ = self.doc.lines.len();
        let newline = char_string('\n');
        proof {
            lemma_insert_len(self.doc@, pos, nl());
            lemma_newline_splits(newline@);
        }
        self.doc.insert(pos, &newline);
        let insert = self.mode.set(Mode::Insert);
        self.cursor.down(&self.doc).bound_col(&self.doc, insert);
    }

    /// `r` then a character: replaces the character under the cursor.
    fn replace_char(&mut self, ch: char)
        requires
            old(self).mode == Mode::Replace,
            handle_defined(old(self).model(), Key::Sym(ch)),
        ensures
            final(self).model() == arm_replace(old(self).model(), Key::Sym(ch)),
            final(self).doc.file_path == old(self).doc.file_path,
            final(self).viewport == old(self).viewport,
    {
        self.remember(self.mode);
        if !is_control(ch) {
            let p = self.cursor.to_pos();
            proof {
                lemma_delete_nonempty(self.doc@, p, p);
            }
            self.doc.delete(p, p);
            let s = char_string(ch);
            proof {
                lemma_split_single_iff(s@, '\n');
            }
            self.doc.insert(p, &s);
        }
        self.mode.set(Mode::Normal);
    }

    /// `x`: deletes the character under the cursor into the clipboard.
    fn delete_char(&mut self)
        requires
            old(self).mode == Mode::Normal,
            normal_defined(old(self).model(), Key::Sym('x')),
        ensures
            final(self).model() == arm_delete_char(old(self).model()),
            final(self).doc.file_path == old(self).doc.file_path,
            final(self).viewport == old(self).viewport,
    {
        if self.line_len(self.cursor.row) == 0 {
            return ;
        }
        self.remember(self.mode);
        let p = self.cursor.to_pos();
        self.clipboard = Clipboard::Normal(self.doc.delete(p, p));
        self.cursor.bound_col(&self.doc, self.mode);
    }

    /// `y` in visual mode: yanks the selection.
    fn yank_selection(&mut self, landmark: Pos)
        requires
            old(self).mode == Mode::Visual(landmark),
            visual_defined(old(self).model(), landmark, Key::Sym('y')),
        ensures
            final(self).model() == arm_visual_yank(old(self).model(), landmark),
            final(self).doc.file_path == old(self).doc.file_path,
            final(self).viewport == old(self).viewport,
    {
        let mode = self.mode;
        let mut end_cursor = self.cursor;
        let cursor_pos = end_cursor.bound_col(&self.doc, mode).to_pos();
        self.clipboard = Clipboard::Normal(self.doc.copy(landmark, cursor_pos));
        let (start, _) = ordered(landmark, cursor_pos);
        self.cursor.go_to_pos(start).bound_row(&self.doc).bound_col(&self.doc, mode);
        self.mode.set(Mode::Normal);
    }

    /// The whole-line range of the selection, from column 0 of its first row
    /// to the end of its last.
    fn selected_lines(&self, landmark: Pos) -> (r: (Pos, Pos))
        requires
            self.mode == Mode::Visual(landmark),
            on_line(self.model()),
            landmark.row < self.doc@.len(),
        ensures
            r == visual_line_range(self.model(), landmark),
    {
        let mut end_cursor = self.cursor;
        let cursor_pos = end_cursor.bound_col(&self.doc, self.mode).to_pos();
        let (mut start, mut end) = ordered(landmark, cursor_pos);
        start.col = 0;
        end.col = self.doc.col_bound(end.row, self.mode);
        (start, end)
    }

    /// `Y` in visual mode: yanks the selected rows whole.
    fn yank_selected_lines(&mut self, landmark: Pos)
        requires
            old(self).mode == Mode::Visual(landmark),
            visual_defined(old(self).model(), landmark, Key::Sym('Y')),
        ensures
            final(self).model() == arm_visual_yank_lines(old(self).model(), landmark),
            final(self).doc.file_path == old(self).doc.file_path,
            final(self).viewport == old(self).viewport,
    {
        let mode = self.mode;
        let (start, end) = self.selected_lines(landmark);
        self.clipboard = Clipboard::Line(self.doc.copy(start, end));
        self.cursor.go_to_pos(start).bound_row(&self.doc).bound_col(&self.doc, mode);
        self.mode.set(Mode::Normal);
    }

    /// `D` in visual mode: deletes the selected rows whole.
    fn delete_selected_lines(&mut self, landmark: Pos)
        requires
            old(self).mode == Mode::Visual(landmark),
            visual_defined(old(self).model(), landmark, Key::Sym('D')),
        ensures
            final(self).model() == arm_visual_delete_lines(old(self).model(), landmark),
            final(self).doc.file_path == old(self).doc.file_path,
            final(self).viewport == old(self).viewport,
    {
        let mode = self.mode;
        self.remember(mode);
        let (start, end) = self.selected_lines(landmark);
        proof {
            lemma_delete_nonempty(self.doc@, start, end);
        }
        self.clipboard = Clipboard::Line(self.doc.delete(start, end));
        self.cursor.go_to_pos(start).bound_row(&self.doc).bound_col(&self.doc, mode);
        self.mode.set(Mode::Normal);
    }

    /// `d` in visual mode: deletes the selection.
    fn delete_selection(&mut self, landmark: Pos)
        requires
            old(self).mode == Mode::Visual(landmark),
            visual_defined(old(self).model(), landmark, Key::Sym('d')),
        ensures
            final(self).model() == arm_visual_delete(old(self).model(), landmark),
            final(self).doc.file_path == old(self).doc.file_path,
            final(self).viewport == old(self).viewport,
    {
        let mode = self.mode;
        self.remember(mode);
        let mut end_cursor = self.cursor;
        let cursor_pos = end_cursor.bound_col(&self.doc, mode).to_pos();
        let (start, end) = ordered(landmark, cursor_pos);
        proof {
            lemma_delete_nonempty(self.doc@, start, end);
        }
        self.clipboard = Clipboard::Normal(self.doc.delete(landmark, cursor_pos));
        self.cursor.go_to_pos(start).bound_row(&self.doc).bound_col(&self.doc, mode);
        self.mode.set(Mode::Normal);
    }

    /// `P`: puts the clipboard at the cursor, or its lines above the cursor's row.
    fn put_before(&mut self)
        requires
            old(self).mode == Mode::Normal,
            normal_defined(old(self).model(), Key::Sym('P')),
        ensures
            final(self).model() == arm_put_before(old(self).model()),
            final(self).doc.file_path == old(self).doc.file_path,
            final(self).viewport == old(self).viewport,
    {
        self.remember(Mode::Normal);
        match &self.clipboard {
            Clipboard::Normal(s) => {
                let end = self.doc.insert(self.cursor.to_pos(), s.as_str());
                self.cursor.go_to_pos(end);
            },
            Clipboard::Line(s) => {
                let _ = char_len(s.as_str());
                self.doc.insert(Pos { row: self.cursor.row, col: 0 }, s.as_str());
            },
            Clipboard::Empty => {},
        }
    }

    /// `p`: puts the clipboard after the cursor, or its lines below the cursor's row.
    fn put_after(&mut self)
        requires
            old(self).mode == Mode::Normal,
            normal_defined(old(self).model(), Key::Sym('p')),
        ensures
            final(self).model() == arm_put_after(old(self).model()),
            final(self).doc.file_path == old(self).doc.file_path,
            final(self).viewport == old(self).viewport,
    {
        self.remember(Mode::Normal);
        let line_text: Option<String> = match &self.clipboard {
            Clipboard::Normal(s) => {
                let mut right = self.cursor;
                let p = right.right(&self.doc, Mode::Insert).to_pos();
                let end = self.doc.insert(p, s.as_str());
                self.cursor.go_to_pos(end);
                Option::None
            },
            Clipboard::Line(s) => {
                let v = chars_of(s.as_str());
                let n = v.len();
                let trimmed = if n > 0 && v[n - 1] == '\n' {
                    string_of(&v, 0, n - 1)
                } else {
                    string_of(&v, 0, n)
                };
                proof {
                    if !(n > 0 && v@[n - 1] == '\n') {
                        assert(v@.subrange(0, n as int) =~= v@);
                    }
                }
                Option::Some(trimmed)
            },
            Clipboard::Empty => Option::None,
        };
        if let Option::Some(text) = line_text {
            let _ = self.doc.lines.len();
            let mut inserted = char_string('\n');
            inserted.append(text.as_str());
            proof {
                lemma_newline_splits(inserted@);
            }
            let mut end_cursor = self.cursor;
            let p = end_cursor.go_to_end_of_line(&self.doc, Mode::Insert).to_pos();
            self.doc.insert(p, inserted.as_str());
            self.cursor.down(&self.doc);
            self.clipboard = Clipboard::Line(text);
        }
    }

    /// `d` then `d`: deletes the cursor's row into the clipboard.
    fn delete_line(&mut self)
        requires
            old(self).mode == Mode::Delete,
            on_line(old(self).model()),
        ensures
            final(self).model() == arm_delete_line(old(self).model()),
            final(self).doc.file_path == old(self).doc.file_path,
            final(self).viewport == old(self).viewport,
    {
        self.remember(Mode::Normal);
        let start = Pos { row: self.cursor.row, col: 0 };
        let mut end_cursor = self.cursor;
        let end = end_cursor.go_to_end_of_line(&self.doc, Mode::Insert).to_pos();
        self.clipboard = Clipboard::Line(self.doc.delete(start, end));
        self.cursor.bound_row(&self.doc);
        self.mode.set(Mode::Normal);
    }

    /// `D`: deletes from the cursor to the end of its row into the clipboard.
    fn delete_to_end_of_line(&mut self)
        requires
            old(self).mode == Mode::Normal,
            normal_defined(old(self).model(), Key::Sym('D')),
        ensures
            final(self).model() == arm_delete_to_end(old(self).model()),
            final(self).doc.file_path == old(self).doc.file_path,
            final(self).viewport == old(self).viewport,
    {
        if self.line_len(self.cursor.row) == 0 {
            return ;
        }
        self.remember(Mode::Normal);
        let start = self.cursor.to_pos();
        let mut end_cursor = self.cursor;
        let end = end_cursor.go_to_end_of_line(&self.doc, Mode::Normal).to_pos();
        self.clipboard = Clipboard::Normal(self.doc.delete(start, end));
    }

    /// `y` then `j`: yanks the cursor's row and the one below.
    fn yank_down(&mut self)
        requires
            old(self).mode == Mode::Copy,
        ensures
            final(self).model() == arm_yank_down(old(self).model()),
            final(self).doc.file_path == old(self).doc.file_path,
            final(self).viewport == old(self).viewport,
    {
        if self.doc.row_bound() <= self.cursor.row {
            self.mode.set(Mode::Normal);
            return ;
        }
        let start = Pos { row: self.cursor.row, col: 0 };
        let mut end_cursor = self.cursor;
        let end = end_cursor.down(&self.doc).go_to_end_of_line(&self.doc, Mode::Insert).to_pos();
        self.clipboard = Clipboard::Line(self.doc.copy(start, end));
        self.cursor.bound_row(&self.doc);
        self.mode.set(Mode::Normal);
    }

    /// `y` then `k`: yanks the row above and the cursor's row, and moves up.
    fn yank_up(&mut self)
        requires
            old(self).mode == Mode::Copy,
            old(self).cursor.row == 0 || on_line(old(self).model()),
        ensures
            final(self).model() == arm_yank_up(old(self).model()),
            final(self).doc == old(self).doc,
            final(self).viewport == old(self).viewport,
    {
        if self.cursor.row == 0 {
            self.mode.set(Mode::Normal);
            return ;
        }
        let start = Pos { row: self.cursor.row - 1, col: 0 };
        let mut end_cursor = self.cursor;
        let end = end_cursor.go_to_end_of_line(&self.doc, Mode::Insert).to_pos();
        self.clipboard = Clipboard::Line(self.doc.copy(start, end));
        self.cursor.up();
        self.mode.set(Mode::Normal);
    }

    /// `d` then `k`: deletes the row above and the cursor's row.
    fn delete_up(&mut self)
        requires
            old(self).mode == Mode::Delete,
            old(self).cursor.row == 0 || on_line(old(self).model()),
        ensures
            final(self).model() == arm_delete_up(old(self).model()),
            final(self).doc.file_path == old(self).doc.file_path,
            final(self).viewport == old(self).viewport,
    {
        self.remember(Mode::Normal);
        if self.cursor.row == 0 {
            self.mode.set(Mode::Normal);
            return ;
        }
        let start = Pos { row: self.cursor.row - 1, col: 0 };
        let mut end_cursor = self.cursor;
        let end = end_cursor.go_to_end_of_line(&self.doc, Mode::Insert).to_pos();
        self.clipboard = Clipboard::Line(self.doc.delete(start, end));
        self.cursor.up().bound_row(&self.doc);
        self.mode.set(Mode::Normal);
    }

    /// `d` then `j`: deletes the cursor's row and the one below.
    fn delete_down(&mut self)
        requires
            old(self).mode == Mode::Delete,
        ensures
            final(self).model() == arm_delete_down(old(self).model()),
            final(self).doc.file_path == old(self).doc.file_path,
            final(self).viewport == old(self).viewport,
    {
        self.remember(Mode::Normal);
        if self.doc.row_bound() <= self.cursor.row {
            self.mode.set(Mode::Normal);
            return ;
        }
        let start = Pos { row: self.cursor.row, col: 0 };
        let mut end_cursor = self.cursor;
        let end = end_cursor.down(&self.doc).go_to_end_of_line(&self.doc, Mode::Insert).to_pos();
        self.clipboard = Clipboard::Line(self.doc.delete(start, end));
        self.cursor.bound_row(&self.doc);
        self.mode.set(Mode::Normal);
    }

    /// Backspace in insert mode.
    fn backspace(&mut self)
        requires
            old(self).mode == Mode::Insert,
            insert_defined(old(self).model(), Key::Backspace),
        ensures
            final(self).model() == arm_insert_backspace(old(self).model()),
            final(self).doc.file_path == old(self).doc.file_path,
            final(self).viewport == old(self).viewport,
    {
        if self.cursor.row == 0 && self.cursor.col == 0 {
            return ;
        }
        if self.cursor.col == 0 {
            self.cursor.up().go_to_end_of_line(&self.doc, Mode::Insert);
            let p = self.cursor.to_pos();
            self.doc.delete(p, p);
            return ;
        }
        self.cursor.bound_col(&self.doc, self.mode).left();
        let p = self.cursor.to_pos();
        self.doc.delete(p, p);
    }

    /// Makes the move of `key` (`h`, `j`, `k`, `l` or an arrow) `n` times; see `moved`.
    fn move_times(&mut self, key: Key, n: usize)
        requires
            is_move_key(key),
            shared_defined(old(self).model(), key),
            n >= 1,
        ensures
            final(self).model() == (AppModel {
                cursor: moved(old(self).model(), key, n as nat),
                ..old(self).model()
            }),
            final(self).doc == old(self).doc,
            final(self).viewport == old(self).viewport,
    {
        let c = self.cursor;
        match key {
            Key::Sym('h') => {
                let cb = self.doc.col_bound(c.row, self.mode);
                let b = if c.col < cb {
                    c.col
                } else {
                    cb
                };
                self.cursor.col = if b > n {
                    b - n
                } else {
                    0
                };
            },
            Key::Sym('j') | Key::ArrowDown => {
                let rb = self.doc.row_bound();
                self.cursor.row = if c.row >= rb || n >= rb - c.row {
                    rb
                } else {
                    c.row + n
                };
            },
            Key::Sym('k') | Key::ArrowUp => {
                self.cursor.row = if c.row > n {
                    c.row - n
                } else {
                    0
                };
            },
            _ => {
                let cb = self.doc.col_bound(c.row, self.mode);
                self.cursor.col = if c.col >= cb || n >= cb - c.col {
                    cb
                } else {
                    c.col + n
                };
            },
        }
    }

    /// The number of characters on row `r`.
    fn line_len(&self, r: usize) -> (n: usize)
        requires
            r < self.doc@.len(),
        ensures
            n == self.doc@[r as int].len(),
    {
        char_len(self.doc.lines[r].as_str())
    }

    /// Whether the clipboard's text goes in at column `col` within `usize`.
    fn clip_fits_at(&self, col: usize) -> (r: bool)
        ensures
            r == clip_fits(self.model(), col as int),
    {
        match &self.clipboard {
            Clipboard::Normal(s) => {
                proof {
                    lemma_split_single_iff(s@, '\n');
                }
                contains_char(s.as_str(), '\n') || char_len(s.as_str()) <= usize::MAX - col
            },
            _ => true,
        }
    }

    /// Whether the cursor's deletion keeps its row; see `keeps_row`.
    fn keeps_cursor_row(&self) -> (r: bool)
        requires
            on_line(self.model()),
        ensures
            r == keeps_row(self.model()),
    {
        let row = self.cursor.row;
        let n = self.doc.lines.len();
        assert(self.model().lines.len() == n);
        !(self.cursor.col == 0 && self.line_len(row) == 0 && row + 1 == n && row > 0)
    }

    /// Whether `handle_input` can take `key` in the current state; see `handle_defined`.
    pub fn can_handle(&self, key: Key) -> (r: bool)
        ensures
            r == handle_defined(self.model(), key),
    {
        let ghost m = self.model();
        let n = self.doc.lines.len();
        assert(m.lines.len() == n);
        let c = self.cursor;
        let on = c.row < n;
        match self.mode {
            Mode::Normal => {
                if shared_key(key) {
                    self.shared_ok(key)
                } else {
                    match key {
                        Key::Sym('i') | Key::Sym('I') | Key::Sym('A') | Key::Sym('o') | Key::Sym(
                            'Y',
                        ) => on,
                        Key::Sym('J') => on && !(c.row + 1 == n && self.line_len(c.row) == 0 && c.row
                            > 0) && self.line_len(c.row) < usize::MAX,
                        Key::Sym('s') => on && c.col <= self.line_len(c.row),
                        Key::Sym('D') | Key::Sym('x') => on && (self.line_len(c.row) == 0
                            || c.col <= self.line_len(c.row)),
                        Key::Sym('a') => on && c.col < usize::MAX,
                        Key::Sym('P') => match &self.clipboard {
                            Clipboard::Normal(_) => on && self.clip_fits_at(c.col),
                            Clipboard::Line(_) => on,
                            Clipboard::Empty => true,
                        },
                        Key::Sym('p') => match &self.clipboard {
                            Clipboard::Normal(_) => {
                                if on && c.col < usize::MAX {
                                    let mut moved = c;
                                    moved.right(&self.doc, Mode::Insert);
                                    self.clip_fits_at(moved.col)
                                } else {
                                    false
                                }
                            },
                            Clipboard::Line(_) => on,
                            Clipboard::Empty => true,
                        },
                        Key::Enter => c.row < usize::MAX && n > 0,
                        Key::Backspace => {
                            let mut up = c;
                            up.up();
                            c.col != 0 || up.row < n
                        },
                        _ => true,
                    }
                }
            },
            Mode::Visual(lm) => {
                if shared_key(key) {
                    self.shared_ok(key)
                } else {
                    match key {
                        Key::Sym('J') => {
                            let (from, to) = ordered(lm, c.to_pos());
                            if from.row < n && !(from.row + 1 == n && self.line_len(from.row) == 0
                                && from.row > 0) {
                                let k = if to.row - from.row > 1 {
                                    to.row - from.row
                                } else {
                                    1
                                };
                                size_fits(&self.doc.lines, k)
                            } else {
                                false
                            }
                        },
                        Key::Sym('y') | Key::Sym('Y') | Key::Sym('D') => on && lm.row < n,
                        Key::Sym('d') => on && lm.row < n && lm.col <= self.line_len(lm.row),
                        _ => true,
                    }
                }
            },
            Mode::Insert => match key {
                Key::Escape | Key::Enter => on,
                Key::Backspace => {
                    if c.row == 0 && c.col == 0 {
                        true
                    } else if c.col == 0 {
                        let mut up = c;
                        up.up();
                        up.row < n
                    } else {
                        on
                    }
                },
                Key::Sym(ch) => is_control(ch) || (on && c.col < usize::MAX),
                _ => true,
            },
            Mode::Replace => match key {
                Key::Sym(ch) => is_control(ch) || (on && c.col <= self.line_len(c.row)
                    && self.keeps_cursor_row() && c.col < usize::MAX),
                _ => true,
            },
            Mode::Copy => match key {
                Key::Sym('y') => on,
                Key::Sym('k') => c.row == 0 || on,
                _ => true,
            },
            Mode::Delete => match key {
                Key::Sym('d') => on,
                Key::Sym('k') => c.row == 0 || on,
                _ => true,
            },
        }
    }

    /// Whether a shared key can be handled; see `shared_defined`.
    fn shared_ok(&self, key: Key) -> (r: bool)
        ensures
            r == shared_defined(self.model(), key),
    {
        let n = self.doc.lines.len();
        assert(self.model().lines.len() == n);
        match key {
            Key::Sym('h') => self.cursor.row < n,
            Key::Sym('j') | Key::ArrowDown => self.cursor.row < usize::MAX,
            Key::Sym('l') | Key::ArrowRight => self.cursor.row < n && self.cursor.col < usize::MAX,
            Key::Sym('G') => n > 0,
            _ => true,
        }
    }

    /// Handles the key that follows `g`: a second `g` goes to the first row,
    /// any other key is handled as usual.
    pub fn handle_g(&mut self, key: Key) -> (flow: Flow)
        requires
            old(self).mode == Mode::Normal,
            key != Key::Sym('g') ==> handle_defined(old(self).model(), key),
        ensures
            key == Key::Sym('g') ==> final(self).model() == (AppModel {
                cursor: Cursor { row: 0, col: old(self).cursor.col },
                ..old(self).model()
            }) && flow == Flow::Continue,
            key != Key::Sym('g') ==> final(self).model() == spec_handle(old(self).model(), key).0
                && flow == spec_handle(old(self).model(), key).1,
            final(self).doc.file_path == old(self).doc.file_path,
            final(self).viewport == old(self).viewport,
    {
        if key != Key::Sym('g') {
            return self.handle_input(key);
        }
        self.cursor.go_to_first_line();
        Flow::Continue
    }
}

/// In normal or visual mode, a key that grows the undo history by one entry
/// records the lines, the cursor and the mode from before it.
proof fn lemma_records_before(m: AppModel, key: Key)
    requires
        m.mode == Mode::Normal || m.mode is Visual,
        spec_handle(m, key).0.undo.len() == m.undo.len() + 1,
    ensures
        spec_handle(m, key).0.undo == m.undo.push((m.lines, m.cursor, m.mode)),
{
    let r = spec_handle(m, key).0;
    if is_count_key(m.count, key) {
    } else if is_shared_key(key) {
        assert(r.undo.len() != m.undo.len() + 1);
    } else {
        match m.mode {
            Mode::Visual(lm) => {
                assert(r == AppModel { count: 0, ..spec_visual(m, lm, key).0 });
            },
            _ => {
                assert(r == AppModel { count: 0, ..spec_normal(m, key).0 });
            },
        }
    }
}

/// After a key in normal or visual mode that records the state for undo and
/// leaves the editor in normal or visual mode, `u` brings back the lines, the
/// cursor and the mode from before the key, and the history as it was.
pub proof fn law_undo_reverts_edit(m: AppModel, key: Key)
    requires
        m.mode == Mode::Normal || m.mode is Visual,
        spec_handle(m, key).0.undo.len() == m.undo.len() + 1,
        spec_handle(m, key).0.mode == Mode::Normal || spec_handle(m, key).0.mode is Visual,
    ensures
        spec_handle(spec_handle(m, key).0, Key::Sym('u')).0.lines == m.lines,
        spec_handle(spec_handle(m, key).0, Key::Sym('u')).0.cursor == m.cursor,
        spec_handle(spec_handle(m, key).0, Key::Sym('u')).0.mode == m.mode,
        spec_handle(spec_handle(m, key).0, Key::Sym('u')).0.undo == m.undo,
{
    lemma_records_before(m, key);
    let r = spec_handle(m, key).0;
    assert(!is_count_key(r.count, Key::Sym('u')));
    assert(r.undo.drop_last() =~= m.undo);
}

/// The cursor after `key` is handled `n` times in a row, starting from `m`.
pub open spec fn repeated(m: AppModel, key: Key, n: nat) -> Cursor
    decreases n,
{
    if n == 0 {
        m.cursor
    } else {
        spec_handle(AppModel { cursor: repeated(m, key, (n - 1) as nat), ..m }, key).0.cursor
    }
}

/// Making a move `k` times, then once more, is making it `k + 1` times.
proof fn lemma_moved_step(m: AppModel, key: Key, k: nat)
    requires
        is_move_key(key),
        k >= 1,
        m.cursor.row < m.lines.len(),
        m.lines.len() <= usize::MAX,
        m.lines[m.cursor.row as int].len() <= usize::MAX,
    ensures
        moved(AppModel { cursor: moved(m, key, k), ..m }, key, 1) == moved(m, key, k + 1),
{
}

/// A move made with a count `n` takes the cursor where making it `n` times
/// without a count does: `5j` is `jjjjj`.
pub proof fn law_count_repeats_move(m: AppModel, key: Key)
    requires
        m.mode == Mode::Normal || m.mode is Visual,
        is_move_key(key),
        m.count >= 1,
        m.cursor.row < m.lines.len(),
        m.lines.len() <= usize::MAX,
        m.lines[m.cursor.row as int].len() <= usize::MAX,
    ensures
        spec_handle(m, key).0.cursor == repeated(AppModel { count: 0, ..m }, key, m.count as nat),
{
    let m0 = AppModel { count: 0, ..m };
    assert forall|k: nat| 1 <= k <= m.count implies #[trigger] repeated(m0, key, k) == moved(
        m0,
        key,
        k,
    ) by {
        lemma_repeated_moved(m0, key, k);
    }
    assert(moved(m0, key, m.count as nat) == moved(m, key, m.count as nat));
}

/// `repeated` and `moved` agree on every count from one on.
proof fn lemma_repeated_moved(m0: AppModel, key: Key, k: nat)
    requires
        m0.mode == Mode::Normal || m0.mode is Visual,
        m0.count == 0,
        is_move_key(key),
        k >= 1,
        m0.cursor.row < m0.lines.len(),
        m0.lines.len() <= usize::MAX,
        m0.lines[m0.cursor.row as int].len() <= usize::MAX,
    ensures
        repeated(m0, key, k) == moved(m0, key, k),
    decreases k,
{
    let mk = AppModel { cursor: repeated(m0, key, (k - 1) as nat), ..m0 };
    assert(!is_count_key(0, key));
    assert(is_shared_key(key));
    if k == 1 {
        assert(mk == m0);
    } else {
        lemma_repeated_moved(m0, key, (k - 1) as nat);
        lemma_moved_step(m0, key, (k - 1) as nat);
        assert(mk == AppModel { cursor: moved(m0, key, (k - 1) as nat), ..m0 });
    }
    match mk.mode {
        Mode::Visual(lm) => {
            assert(spec_handle(mk, key).0 == AppModel { count: 0, ..spec_visual(mk, lm, key).0 });
        },
        _ => {
            assert(spec_handle(mk, key).0 == AppModel { count: 0, ..spec_normal(mk, key).0 });
        },
    }
}

/// In insert mode, a typed character followed by backspace leaves the lines
/// and the cursor as they were, wherever on its line the cursor stands.
pub proof fn law_backspace_erases_typed(m: AppModel, ch: char)
    requires
        m.mode == Mode::Insert,
        !is_control_char(ch),
        m.cursor.row < m.lines.len(),
        m.cursor.col <= m.lines[m.cursor.row as int].len(),
        m.cursor.col < usize::MAX,
    ensures
        spec_handle(spec_handle(m, Key::Sym(ch)).0, Key::Backspace).0.lines == m.lines,
        spec_handle(spec_handle(m, Key::Sym(ch)).0, Key::Backspace).0.cursor == m.cursor,
{
    let l = m.lines;
    let c = m.cursor;
    let r = c.row as int;
    let line = l[r];
    let k = c.col as int;
    assert(ch != '\n');
    lemma_split_plain(seq![ch], '\n');
    let typed = line.take(k) + seq![ch] + line.skip(k);
    let l1 = spec_insert(l, c_pos(c), seq![ch]);
    assert(insert_pieces(line, k, seq![seq![ch]]) =~= seq![typed]);
    assert(l1 =~= l.take(r) + seq![typed] + l.skip(r + 1));
    assert(l1[r] == typed);
    assert(l1.len() == l.len());
    let m1 = spec_handle(m, Key::Sym(ch)).0;
    assert(m1.lines == l1);
    assert(m1.cursor == Cursor { row: c.row, col: (c.col + 1) as usize });
    let p = Pos { row: c.row, col: c.col };
    assert(typed.take(k) =~= line.take(k));
    assert(typed.skip(k + 1) =~= line.skip(k));
    assert(line.take(k) + line.skip(k) =~= line);
    assert(spec_delete_lines(l1, p, p) =~= l);
}

/// The document has at least one line, and so has every state saved for undo.
pub open spec fn keeps_a_line(m: AppModel) -> bool {
    &&& m.lines.len() >= 1
    &&& forall|i: int| 0 <= i < m.undo.len() ==> (#[trigger] m.undo[i]).0.len() >= 1
}

/// Saving the state for undo keeps a line everywhere.
proof fn lemma_pushed_keeps(m: AppModel, mode: Mode)
    requires
        keeps_a_line(m),
    ensures
        keeps_a_line(pushed(m, mode)),
{
    let u = m.undo.push((m.lines, m.cursor, mode));
    assert forall|i: int| 0 <= i < u.len() implies (#[trigger] u[i]).0.len() >= 1 by {
        if i < m.undo.len() {
            assert(u[i] == m.undo[i]);
        }
    }
}

/// Undo keeps a line everywhere.
proof fn lemma_undo_keeps(m: AppModel)
    requires
        keeps_a_line(m),
    ensures
        keeps_a_line(arm_undo(m)),
{
    if m.undo.len() > 0 {
        let u = m.undo.drop_last();
        assert forall|i: int| 0 <= i < u.len() implies (#[trigger] u[i]).0.len() >= 1 by {
            assert(u[i] == m.undo[i]);
        }
        assert(m.undo.last() == m.undo[m.undo.len() - 1]);
    }
}

/// The shared keys keep a line everywhere.
proof fn lemma_shared_keeps(m: AppModel, key: Key)
    requires
        keeps_a_line(m),
        is_shared_key(key),
    ensures
        keeps_a_line(spec_shared(m, key).0),
{
    if key == Key::Sym('u') {
        lemma_undo_keeps(m);
    }
}

/// The normal-mode keys keep a line everywhere.
#[verifier::rlimit(40)]
proof fn lemma_normal_keeps(m: AppModel, key: Key)
    requires
        keeps_a_line(m),
        normal_defined(m, key),
    ensures
        keeps_a_line(spec_normal(m, key).0),
{
    broadcast use {
        crate::document::lemma_insert_keeps_a_line,
        crate::document::lemma_delete_keeps_a_line,
    };

    lemma_pushed_keeps(m, m.mode);
    lemma_pushed_keeps(m, Mode::Normal);
    if is_shared_key(key) {
        lemma_shared_keeps(m, key);
    }
}

/// The visual-mode keys keep a line everywhere.
#[verifier::rlimit(40)]
proof fn lemma_visual_keeps(m: AppModel, lm: Pos, key: Key)
    requires
        keeps_a_line(m),
        visual_defined(m, lm, key),
    ensures
        keeps_a_line(spec_visual(m, lm, key).0),
{
    broadcast use {
        crate::document::lemma_delete_keeps_a_line,
        crate::document::lemma_join_keeps_a_line,
    };

    lemma_pushed_keeps(m, m.mode);
    if is_shared_key(key) {
        lemma_shared_keeps(m, key);
    }
}

/// The keys of the other modes keep a line everywhere.
#[verifier::rlimit(40)]
proof fn lemma_other_modes_keep(m: AppModel, key: Key)
    requires
        keeps_a_line(m),
        handle_defined(m, key),
        m.mode != Mode::Normal,
        !(m.mode is Visual),
    ensures
        keeps_a_line(spec_handle(m, key).0),
{
    broadcast use {
        crate::document::lemma_insert_keeps_a_line,
        crate::document::lemma_delete_keeps_a_line,
    };

    lemma_pushed_keeps(m, m.mode);
    lemma_pushed_keeps(m, Mode::Normal);
}

/// The document never runs out of lines: every key handled keeps a line in
/// the document and in each state saved for undo.
pub proof fn law_document_keeps_a_line(m: AppModel, key: Key)
    requires
        keeps_a_line(m),
        handle_defined(m, key),
    ensures
        keeps_a_line(spec_handle(m, key).0),
{
    match m.mode {
        Mode::Normal => {
            if !is_count_key(m.count, key) {
                lemma_normal_keeps(m, key);
            }
        },
        Mode::Visual(lm) => {
            if !is_count_key(m.count, key) {
                lemma_visual_keeps(m, lm, key);
            }
        },
        _ => {
            lemma_other_modes_keep(m, key);
        },
    }
}

/// `d` in normal mode only enters delete mode.
proof fn lemma_handle_d(m: AppModel)
    requires
        m.mode == Mode::Normal,
    ensures
        spec_handle(m, Key::Sym('d')).0 == (AppModel { mode: Mode::Delete, count: 0, ..m }),
{
    assert(!is_count_key(m.count, Key::Sym('d')));
    assert(!is_shared_key(Key::Sym('d')));
}

/// `d` in delete mode deletes the cursor's row.
proof fn lemma_handle_dd(m: AppModel)
    requires
        m.mode == Mode::Delete,
    ensures
        spec_handle(m, Key::Sym('d')).0 == arm_delete_line(m),
{
}

/// `P` in normal mode puts the clipboard before the cursor.
proof fn lemma_handle_put_before(m: AppModel)
    requires
        m.mode == Mode::Normal,
    ensures
        spec_handle(m, Key::Sym('P')).0 == (AppModel { count: 0, ..arm_put_before(m) }),
{
    assert(!is_count_key(m.count, Key::Sym('P')));
    assert(!is_shared_key(Key::Sym('P')));
}

/// Deleting a row that is not the last, then inserting the deleted text at
/// the start of the row that took its place, gives the lines back.
proof fn lemma_line_cut_and_put_back(l: Seq<Seq<char>>, r: int)
    requires
        0 <= r,
        r + 1 < l.len(),
        l.len() <= usize::MAX,
        l[r].len() <= usize::MAX,
        !l[r].contains('\n'),
    ensures
        ({
            let start = Pos { row: r as usize, col: 0 };
            let end = Pos { row: r as usize, col: l[r].len() as usize };
            spec_insert(spec_delete_lines(l, start, end), start, spec_deleted(l, start, end)) == l
        }),
{
    let line = l[r];
    let start = Pos { row: r as usize, col: 0 };
    let end = Pos { row: r as usize, col: line.len() as usize };
    let l2 = spec_delete_lines(l, start, end);
    assert(line.take(0) =~= Seq::<char>::empty());
    assert(l2 =~= l.take(r) + l.skip(r + 1));
    let text = spec_deleted(l, start, end);
    assert(line.subrange(0, line.len() as int) =~= line);
    assert(text =~= line + nl());
    lemma_split_plain(line, '\n');
    lemma_split_concat(line, Seq::<char>::empty(), '\n');
    assert(line + seq!['\n'] + Seq::<char>::empty() =~= text);
    assert(split_on(Seq::<char>::empty(), '\n') == seq![Seq::<char>::empty()]);
    assert(split_on(text, '\n') =~= seq![line, Seq::<char>::empty()]);
    assert(l2[r] == l[r + 1]);
    assert(l2[r].take(0) =~= Seq::<char>::empty());
    assert(l2[r].skip(0) =~= l2[r]);
    assert(insert_pieces(l2[r], 0, seq![line, Seq::<char>::empty()]) =~= seq![line, l[r + 1]]);
    assert(spec_insert(l2, start, text) =~= l);
}

/// In normal mode, `dd` and then `P` on a row that is not the last give the
/// document back as it was: the deleted row goes back above the row that
/// took its place.
#[verifier::rlimit(60)]
pub proof fn law_delete_line_then_put_restores(m: AppModel)
    requires
        m.mode == Mode::Normal,
        m.cursor.row + 1 < m.lines.len(),
        m.lines.len() <= usize::MAX,
        m.lines[m.cursor.row as int].len() <= usize::MAX,
        !m.lines[m.cursor.row as int].contains('\n'),
    ensures
        spec_handle(
            spec_handle(spec_handle(m, Key::Sym('d')).0, Key::Sym('d')).0,
            Key::Sym('P'),
        ).0.lines == m.lines,
{
    let l = m.lines;
    let r = m.cursor.row as int;
    lemma_handle_d(m);
    let m1 = spec_handle(m, Key::Sym('d')).0;
    lemma_handle_dd(m1);
    let m2 = spec_handle(m1, Key::Sym('d')).0;
    let start = Pos { row: m.cursor.row, col: 0 };
    let end = Pos { row: m.cursor.row, col: l[r].len() as usize };
    assert(c_pos(c_end_of_line(m1.cursor, l, Mode::Insert)) == end);
    assert(m2.mode == Mode::Normal);
    assert(m2.lines == spec_delete_lines(l, start, end));
    assert(m2.clipboard == ClipView::Line(spec_deleted(l, start, end)));
    assert(l[r].take(0) =~= Seq::<char>::empty());
    assert(spec_delete_lines(l, start, end).len() == l.len() - 1);
    assert(m2.cursor.row == m.cursor.row);
    lemma_handle_put_before(m2);
    lemma_line_cut_and_put_back(l, r);
}

/// The cursor is on a line of a document that has one, and so is the cursor
/// of every state saved for undo.
pub open spec fn cursor_on_line(m: AppModel) -> bool {
    &&& 1 <= m.lines.len()
    &&& m.cursor.row < m.lines.len()
    &&& forall|i: int|
        0 <= i < m.undo.len() ==> 1 <= (#[trigger] m.undo[i]).0.len() && m.undo[i].1.row
            < m.undo[i].0.len()
}

/// A key whose deletion takes the cursor's row away: the row is the last,
/// not the first, and the deletion runs from its start through its end. That
/// is, in normal mode, `s` on an empty last row and `D` past the end of a last
/// row of one character; in insert mode, backspace past the start of an empty
/// last row.
pub open spec fn drops_cursor_row(m: AppModel, key: Key) -> bool {
    let r = m.cursor.row as int;
    let len = m.lines[r].len();
    &&& r + 1 == m.lines.len()
    &&& r > 0
    &&& {
        ||| m.mode == Mode::Normal && key == Key::Sym('s') && len == 0
        ||| m.mode == Mode::Normal && key == Key::Sym('D') && len == 1 && m.cursor.col == 1
        ||| m.mode == Mode::Insert && key == Key::Backspace && len == 0 && m.cursor.col > 0
    }
}

/// Saving the state for undo keeps the cursors on their lines.
proof fn lemma_pushed_on_line(m: AppModel, mode: Mode)
    requires
        cursor_on_line(m),
    ensures
        cursor_on_line(pushed(m, mode)),
{
    let u = m.undo.push((m.lines, m.cursor, mode));
    assert forall|i: int| 0 <= i < u.len() implies 1 <= (#[trigger] u[i]).0.len() && u[i].1.row
        < u[i].0.len() by {
        if i < m.undo.len() {
            assert(u[i] == m.undo[i]);
        }
    }
}

/// Undo keeps the cursors on their lines.
proof fn lemma_undo_on_line(m: AppModel)
    requires
        cursor_on_line(m),
    ensures
        cursor_on_line(arm_undo(m)),
{
    if m.undo.len() > 0 {
        let u = m.undo.drop_last();
        assert forall|i: int| 0 <= i < u.len() implies 1 <= (#[trigger] u[i]).0.len() && u[i].1.row
            < u[i].0.len() by {
            assert(u[i] == m.undo[i]);
        }
        assert(m.undo.last() == m.undo[m.undo.len() - 1]);
    }
}

/// The shared keys keep the cursors on their lines.
proof fn lemma_shared_on_line(m: AppModel, key: Key)
    requires
        cursor_on_line(m),
        is_shared_key(key),
    ensures
        cursor_on_line(spec_shared(m, key).0),
{
    if key == Key::Sym('u') {
        lemma_undo_on_line(m);
    }
    crate::document::lemma_word_motion_rows(m.lines, c_pos(m.cursor));
}

/// The normal-mode keys keep the cursors on their lines, but for the keys
/// that take the cursor's row away.
#[verifier::rlimit(60)]
proof fn lemma_normal_on_line(m: AppModel, key: Key)
    requires
        cursor_on_line(m),
        m.mode == Mode::Normal,
        normal_defined(m, key),
        !drops_cursor_row(m, key),
    ensures
        cursor_on_line(spec_normal(m, key).0),
{
    broadcast use {
        crate::document::lemma_insert_grows,
        crate::document::lemma_delete_keeps_row,
        crate::document::lemma_delete_keeps_a_line,
    };

    lemma_pushed_on_line(m, m.mode);
    lemma_pushed_on_line(m, Mode::Normal);
    if is_shared_key(key) {
        lemma_shared_on_line(m, key);
    }
}

/// The visual-mode keys keep the cursors on their lines.
#[verifier::rlimit(60)]
proof fn lemma_visual_on_line(m: AppModel, lm: Pos, key: Key)
    requires
        cursor_on_line(m),
        m.mode == Mode::Visual(lm),
        visual_defined(m, lm, key),
    ensures
        cursor_on_line(spec_visual(m, lm, key).0),
{
    broadcast use crate::document::lemma_delete_keeps_a_line;

    lemma_pushed_on_line(m, m.mode);
    if is_shared_key(key) {
        lemma_shared_on_line(m, key);
    } else if key == Key::Sym('J') {
        let from = pos_min(lm, c_pos(m.cursor));
        let to = pos_max(lm, c_pos(m.cursor));
        crate::document::lemma_join_times_keeps_row(m.lines, from.row as int, join_count(from, to));
    }
}

/// The insert-mode keys keep the cursors on their lines.
#[verifier::rlimit(60)]
proof fn lemma_insert_on_line(m: AppModel, key: Key)
    requires
        cursor_on_line(m),
        m.mode == Mode::Insert,
        insert_defined(m, key),
        !drops_cursor_row(m, key),
    ensures
        cursor_on_line(spec_insert_key(m, key)),
{
    broadcast use {
        crate::document::lemma_insert_grows,
        crate::document::lemma_delete_keeps_row,
        crate::document::lemma_delete_keeps_a_line,
    };

}

/// The replace-mode keys keep the cursors on their lines.
proof fn lemma_replace_on_line(m: AppModel, key: Key)
    requires
        cursor_on_line(m),
        m.mode == Mode::Replace,
        handle_defined(m, key),
    ensures
        cursor_on_line(arm_replace(m, key)),
{
    broadcast use {
        crate::document::lemma_insert_grows,
        crate::document::lemma_delete_keeps_row,
        crate::document::lemma_delete_keeps_a_line,
    };

    lemma_pushed_on_line(m, m.mode);
}

/// The keys after `y` or `d` keep the cursors on their lines.
#[verifier::rlimit(60)]
proof fn lemma_copy_delete_on_line(m: AppModel, key: Key)
    requires
        cursor_on_line(m),
        m.mode == Mode::Copy || m.mode == Mode::Delete,
        handle_defined(m, key),
    ensures
        m.mode == Mode::Copy ==> cursor_on_line(spec_copy_key(m, key)),
        m.mode == Mode::Delete ==> cursor_on_line(spec_delete_key(m, key)),
{
    broadcast use crate::document::lemma_delete_keeps_a_line;

    lemma_pushed_on_line(m, Mode::Normal);
}

/// Every key keeps the cursor on a line of the document, and the cursors
/// saved for undo on theirs, except `s` or `D` in normal mode when they take
/// the cursor's row away (see `drops_cursor_row`).
pub proof fn law_cursor_stays_on_a_line(m: AppModel, key: Key)
    requires
        cursor_on_line(m),
        handle_defined(m, key),
        !drops_cursor_row(m, key),
    ensures
        cursor_on_line(spec_handle(m, key).0),
{
    match m.mode {
        Mode::Normal => {
            if !is_count_key(m.count, key) {
                lemma_normal_on_line(m, key);
            }
        },
        Mode::Visual(lm) => {
            if !is_count_key(m.count, key) {
                lemma_visual_on_line(m, lm, key);
            }
        },
        Mode::Insert => {
            lemma_insert_on_line(m, key);
        },
        Mode::Replace => {
            lemma_replace_on_line(m, key);
        },
        _ => {
            lemma_copy_delete_on_line(m, key);
        },
    }
}

/// `y` in normal mode only enters copy mode.
proof fn lemma_handle_y(m: AppModel)
    requires
        m.mode == Mode::Normal,
    ensures
        spec_handle(m, Key::Sym('y')).0 == (AppModel { mode: Mode::Copy, count: 0, ..m }),
{
    assert(!is_count_key(m.count, Key::Sym('y')));
    assert(!is_shared_key(Key::Sym('y')));
}

/// `y` in copy mode yanks the cursor's row.
proof fn lemma_handle_yy(m: AppModel)
    requires
        m.mode == Mode::Copy,
    ensures
        spec_handle(m, Key::Sym('y')).0 == arm_yank_line(m),
{
}

/// `p` in normal mode puts the clipboard after the cursor.
proof fn lemma_handle_put_after(m: AppModel)
    requires
        m.mode == Mode::Normal,
    ensures
        spec_handle(m, Key::Sym('p')).0 == (AppModel { count: 0, ..arm_put_after(m) }),
{
    assert(!is_count_key(m.count, Key::Sym('p')));
    assert(!is_shared_key(Key::Sym('p')));
}

/// Yanking row `r` as a line and putting it after the row's end gives the
/// lines with row `r` doubled.
proof fn lemma_line_yank_and_put_below(l: Seq<Seq<char>>, r: int)
    requires
        0 <= r < l.len(),
        l.len() <= usize::MAX,
        l[r].len() <= usize::MAX,
        !l[r].contains('\n'),
    ensures
        ({
            let line = l[r];
            let text = spec_copy(
                l,
                Pos { row: r as usize, col: 0 },
                Pos { row: r as usize, col: line.len() as usize },
            );
            &&& text == line + nl()
            &&& text.drop_last() == line
            &&& spec_insert(l, Pos { row: r as usize, col: line.len() as usize }, nl() + line)
                == l.take(r + 1) + seq![line] + l.skip(r + 1)
        }),
{
    let line = l[r];
    let first = line + nl();
    assert(first.subrange(0, line.len() + 1int) =~= first);
    assert((line + nl()).drop_last() =~= line);
    lemma_split_plain(line, '\n');
    lemma_split_concat(Seq::<char>::empty(), line, '\n');
    assert(Seq::<char>::empty() + seq!['\n'] + line =~= nl() + line);
    assert(split_on(Seq::<char>::empty(), '\n') == seq![Seq::<char>::empty()]);
    let parts = split_on(nl() + line, '\n');
    assert(parts =~= seq![Seq::<char>::empty(), line]);
    let k = line.len() as int;
    assert(line.take(k) =~= line);
    assert(line.skip(k) =~= Seq::<char>::empty());
    assert(insert_pieces(line, k, parts) =~= seq![line, line]);
    assert(spec_insert(l, Pos { row: r as usize, col: line.len() as usize }, nl() + line) =~= l.take(
        r + 1,
    ) + seq![line] + l.skip(r + 1));
}

/// In normal mode, `yy` and then `p` put a copy of the cursor's row below it
/// and move the cursor onto the copy, staying in normal mode.
#[verifier::rlimit(60)]
pub proof fn law_yank_line_then_put_duplicates(m: AppModel)
    requires
        m.mode == Mode::Normal,
        m.cursor.row < m.lines.len(),
        m.lines.len() <= usize::MAX,
        m.lines[m.cursor.row as int].len() <= usize::MAX,
        !m.lines[m.cursor.row as int].contains('\n'),
    ensures
        ({
            let r = m.cursor.row as int;
            let after = spec_handle(
                spec_handle(spec_handle(m, Key::Sym('y')).0, Key::Sym('y')).0,
                Key::Sym('p'),
            ).0;
            &&& after.lines == m.lines.take(r + 1) + seq![m.lines[r]] + m.lines.skip(r + 1)
            &&& after.cursor.row == r + 1
            &&& after.mode == Mode::Normal
        }),
{
    let l = m.lines;
    let r = m.cursor.row as int;
    lemma_handle_y(m);
    let m1 = spec_handle(m, Key::Sym('y')).0;
    lemma_handle_yy(m1);
    let m2 = spec_handle(m1, Key::Sym('y')).0;
    lemma_line_yank_and_put_below(l, r);
    let line = l[r];
    let end = Pos { row: m.cursor.row, col: line.len() as usize };
    assert(c_pos(c_end_of_line(m1.cursor, l, Mode::Insert)) == end);
    assert(m2.lines == l);
    assert(m2.mode == Mode::Normal);
    assert(m2.cursor.row == m.cursor.row);
    assert(m2.clipboard == ClipView::Line(line + nl()));
    lemma_handle_put_after(m2);
    assert(c_pos(c_end_of_line(m2.cursor, l, Mode::Insert)) == end);
    let l3 = l.take(r + 1) + seq![line] + l.skip(r + 1);
    assert(l3.len() == l.len() + 1);
}

/// `P` in normal mode puts the clipboard at the cursor; `p` just after the
/// character under it. With characters (no newline) in the clipboard and the
/// cursor on a character of its row: `p` puts them after that character and
/// leaves the cursor just past them; `P` puts them before it.
pub proof fn law_put_after_goes_after_the_cursor(m: AppModel, s: Seq<char>)
    requires
        m.mode == Mode::Normal,
        m.clipboard == ClipView::Normal(s),
        !s.contains('\n'),
        m.cursor.row < m.lines.len(),
        m.lines.len() <= usize::MAX,
        m.cursor.col < m.lines[m.cursor.row as int].len(),
        m.lines[m.cursor.row as int].len() <= usize::MAX,
        m.cursor.col + 1 + s.len() <= usize::MAX,
    ensures
        ({
            let r = m.cursor.row as int;
            let c = m.cursor.col as int;
            let line = m.lines[r];
            let after = spec_handle(m, Key::Sym('p')).0;
            let before = spec_handle(m, Key::Sym('P')).0;
            &&& after.lines == m.lines.take(r) + seq![line.take(c + 1) + s + line.skip(c + 1)]
                + m.lines.skip(r + 1)
            &&& after.cursor == Cursor { row: m.cursor.row, col: (c + 1 + s.len()) as usize }
            &&& before.lines == m.lines.take(r) + seq![line.take(c) + s + line.skip(c)]
                + m.lines.skip(r + 1)
            &&& before.cursor == Cursor { row: m.cursor.row, col: (c + s.len()) as usize }
        }),
{
    let r = m.cursor.row as int;
    let c = m.cursor.col as int;
    let line = m.lines[r];
    lemma_split_plain(s, '\n');
    lemma_handle_put_after(m);
    lemma_handle_put_before(m);
    let p = Pos { row: m.cursor.row, col: (c + 1) as usize };
    assert(c_pos(c_right(m.cursor, m.lines, Mode::Insert)) == p);
    assert(insert_pieces(line, c + 1, seq![s]) =~= seq![line.take(c + 1) + s + line.skip(c + 1)]);
    assert(insert_pieces(line, c, seq![s]) =~= seq![line.take(c) + s + line.skip(c)]);
}

/// `Y` in normal mode on a row with a character under the cursor copies
/// from the cursor's column to the end of the row, and changes nothing else.
pub proof fn law_yank_to_end_of_line(m: AppModel)
    requires
        m.mode == Mode::Normal,
        m.cursor.row < m.lines.len(),
        m.lines.len() <= usize::MAX,
        m.cursor.col < m.lines[m.cursor.row as int].len(),
        m.lines[m.cursor.row as int].len() <= usize::MAX,
    ensures
        spec_handle(m, Key::Sym('Y')).0 == (AppModel {
            clipboard: ClipView::Normal(m.lines[m.cursor.row as int].skip(m.cursor.col as int)),
            count: 0,
            ..m
        }),
{
    let r = m.cursor.row as int;
    let c = m.cursor.col as int;
    let line = m.lines[r];
    lemma_handle_normal_key(m, Key::Sym('Y'));
    let first = line + nl();
    let cp = c_pos(m.cursor);
    let e = c_pos(c_end_of_line(m.cursor, m.lines, Mode::Normal));
    assert(pos_min(cp, e) == cp);
    assert(pos_max(cp, e) == e);
    assert(first.subrange(c, line.len() as int) =~= line.skip(c));
    assert(spec_copy(m.lines, cp, e) == line.skip(c));
    assert(!row_empty(m));
}

/// A key that is neither a count digit nor shared acts in normal mode as
/// `spec_normal` says, and clears the count.
proof fn lemma_handle_normal_key(m: AppModel, key: Key)
    requires
        m.mode == Mode::Normal,
        digit_of_key(key).is_none(),
        !is_shared_key(key),
    ensures
        spec_handle(m, key) == (AppModel { count: 0, ..spec_normal(m, key).0 }, spec_normal(m, key).1),
{
}

/// Handling `keys` one after another from `m`.
pub open spec fn handle_all(m: AppModel, keys: Seq<Key>) -> AppModel
    decreases keys.len(),
{
    if keys.len() == 0 {
        m
    } else {
        spec_handle(handle_all(m, keys.drop_last()), keys.last()).0
    }
}

/// Keys typed in insert mode other than escape keep insert mode and leave
/// the undo history alone.
proof fn lemma_insert_session_keeps_history(m: AppModel, keys: Seq<Key>)
    requires
        m.mode == Mode::Insert,
        forall|k: int| 0 <= k < keys.len() ==> #[trigger] keys[k] != Key::Escape,
    ensures
        handle_all(m, keys).mode == Mode::Insert,
        handle_all(m, keys).undo == m.undo,
        handle_all(m, keys).count == m.count,
    decreases keys.len(),
{
    if keys.len() > 0 {
        let ks = keys.drop_last();
        assert forall|k: int| 0 <= k < ks.len() implies #[trigger] ks[k] != Key::Escape by {
            assert(ks[k] == keys[k]);
        }
        lemma_insert_session_keeps_history(m, ks);
        assert(keys.last() == keys[keys.len() - 1]);
    }
}

/// `i` in normal mode records the lines, the cursor and the mode for undo:
/// after `i`, any keys typed in insert mode, escape and `u`, the lines, the
/// cursor and the history are those from before `i`.
pub proof fn law_insert_session_is_undone(m: AppModel, typed: Seq<Key>)
    requires
        m.mode == Mode::Normal,
        forall|k: int| 0 <= k < typed.len() ==> #[trigger] typed[k] != Key::Escape,
    ensures
        spec_handle(m, Key::Sym('i')).0.undo == m.undo.push((m.lines, m.cursor, m.mode)),
        ({
            let session = handle_all(spec_handle(m, Key::Sym('i')).0, typed);
            let undone = spec_handle(spec_handle(session, Key::Escape).0, Key::Sym('u')).0;
            &&& undone.lines == m.lines
            &&& undone.cursor == m.cursor
            &&& undone.mode == m.mode
            &&& undone.undo == m.undo
        }),
{
    assert(!is_count_key(m.count, Key::Sym('i')));
    assert(!is_shared_key(Key::Sym('i')));
    let m1 = spec_handle(m, Key::Sym('i')).0;
    assert(m1.mode == Mode::Insert);
    lemma_insert_session_keeps_history(m1, typed);
    let session = handle_all(m1, typed);
    let m3 = spec_handle(session, Key::Escape).0;
    assert(m3.mode == Mode::Normal);
    assert(m3.undo == m.undo.push((m.lines, m.cursor, m.mode)));
    assert(!is_count_key(m3.count, Key::Sym('u')));
    assert(m3.undo.drop_last() =~= m.undo);
}

/// `d` then `j` in normal mode, with a row below the cursor's: the cursor's
/// row and the row below go, with their line breaks, into the clipboard as
/// lines; when they were the only rows, one empty row stays.
pub proof fn law_delete_down_removes_two_rows(m: AppModel)
    requires
        m.mode == Mode::Normal,
        m.cursor.row + 1 < m.lines.len(),
        m.lines.len() <= usize::MAX,
        m.lines[m.cursor.row + 1].len() <= usize::MAX,
    ensures
        ({
            let r = m.cursor.row as int;
            let l = m.lines;
            let after = spec_handle(spec_handle(m, Key::Sym('d')).0, Key::Sym('j')).0;
            &&& after.lines == if r == 0 && r + 2 == l.len() {
                seq![Seq::<char>::empty()]
            } else {
                l.take(r) + l.skip(r + 2)
            }
            &&& after.clipboard == ClipView::Line(l[r] + nl() + l[r + 1] + nl())
            &&& after.mode == Mode::Normal
            &&& after.undo == m.undo.push((l, m.cursor, Mode::Normal))
        }),
{
    let r = m.cursor.row as int;
    let l = m.lines;
    lemma_handle_d(m);
    let m1 = spec_handle(m, Key::Sym('d')).0;
    lemma_handle_dj(m1);
    let end = Pos { row: (r + 1) as usize, col: l[r + 1].len() as usize };
    assert(c_pos(c_end_of_line(c_down(m1.cursor, l), l, Mode::Insert)) == end);
    lemma_two_rows_cut(l, r);
}

/// `j` in delete mode deletes the cursor's row and the one below.
proof fn lemma_handle_dj(m: AppModel)
    requires
        m.mode == Mode::Delete,
    ensures
        spec_handle(m, Key::Sym('j')).0 == arm_delete_down(m),
{
}

/// Deleting from the start of row `r` through the end of row `r + 1`.
proof fn lemma_two_rows_cut(l: Seq<Seq<char>>, r: int)
    requires
        0 <= r,
        r + 1 < l.len(),
        l.len() <= usize::MAX,
        l[r + 1].len() <= usize::MAX,
    ensures
        ({
            let start = Pos { row: r as usize, col: 0 };
            let end = Pos { row: (r + 1) as usize, col: l[r + 1].len() as usize };
            &&& spec_delete_lines(l, start, end) == if r == 0 && r + 2 == l.len() {
                seq![Seq::<char>::empty()]
            } else {
                l.take(r) + l.skip(r + 2)
            }
            &&& spec_deleted(l, start, end) == l[r] + nl() + l[r + 1] + nl()
        }),
{
    let start = Pos { row: r as usize, col: 0 };
    let end = Pos { row: (r + 1) as usize, col: l[r + 1].len() as usize };
    assert(l[r].take(0) =~= Seq::<char>::empty());
    assert(l[r].skip(0) =~= l[r]);
    assert(l[r + 1].take(l[r + 1].len() as int) =~= l[r + 1]);
    assert(joined(l, r + 1, r + 1) == Seq::<char>::empty());
    assert(spec_deleted(l, start, end) =~= l[r] + nl() + l[r + 1] + nl());
    if r + 2 == l.len() {
        if r == 0 {
            assert(spec_delete_lines(l, start, end) =~= seq![Seq::<char>::empty()]);
        } else {
            assert(spec_delete_lines(l, start, end) =~= l.take(r) + l.skip(r + 2));
        }
    } else {
        assert(spec_delete_lines(l, start, end) =~= l.take(r) + l.skip(r + 2));
    }
}

/// `D` in visual mode over rows `a..=b`, with a row below `b`: those rows go,
/// with their line breaks, and the clipboard holds each of them followed by a
/// newline, as lines.
pub proof fn law_visual_delete_lines_removes_rows(m: AppModel, lm: Pos)
    requires
        m.mode == Mode::Visual(lm),
        lm.row < m.lines.len(),
        m.cursor.row < m.lines.len(),
        m.lines.len() <= usize::MAX,
        forall|i: int| 0 <= i < m.lines.len() ==> (#[trigger] m.lines[i]).len() <= usize::MAX,
        (if lm.row < m.cursor.row {
            m.cursor.row
        } else {
            lm.row
        }) + 1 < m.lines.len(),
    ensures
        ({
            let a = if lm.row < m.cursor.row {
                lm.row as int
            } else {
                m.cursor.row as int
            };
            let b = if lm.row < m.cursor.row {
                m.cursor.row as int
            } else {
                lm.row as int
            };
            let after = spec_handle(m, Key::Sym('D')).0;
            &&& after.lines == m.lines.take(a) + m.lines.skip(b + 1)
            &&& after.clipboard == ClipView::Line(joined(m.lines, a, b + 1))
            &&& after.mode == Mode::Normal
            &&& after.undo == m.undo.push((m.lines, m.cursor, m.mode))
        }),
{
    let l = m.lines;
    assert(!is_count_key(m.count, Key::Sym('D')));
    assert(!is_shared_key(Key::Sym('D')));
    assert(spec_handle(m, Key::Sym('D')).0 == AppModel {
        count: 0,
        ..arm_visual_delete_lines(m, lm)
    });
    let (s, e) = visual_line_range(m, lm);
    let a = s.row as int;
    let b = e.row as int;
    let cp = visual_end(m);
    assert(cp.row == m.cursor.row);
    assert(a == if lm.row < m.cursor.row {
        lm.row as int
    } else {
        m.cursor.row as int
    });
    assert(b == if lm.row < m.cursor.row {
        m.cursor.row as int
    } else {
        lm.row as int
    });
    assert(s == Pos { row: a as usize, col: 0 });
    assert(e == Pos { row: b as usize, col: l[b].len() as usize });
    assert(l[a].take(0) =~= Seq::<char>::empty());
    assert(l[a].skip(0) =~= l[a]);
    assert(l[b].take(l[b].len() as int) =~= l[b]);
    assert(spec_delete_lines(l, s, e) =~= l.take(a) + l.skip(b + 1));
    if a == b {
        assert(l[a].subrange(0, l[a].len() as int) =~= l[a]);
        assert(joined(l, a, a) == Seq::<char>::empty());
        assert(joined(l, a, b + 1) =~= l[a] + nl());
        assert(spec_deleted(l, s, e) == joined(l, a, b + 1));
    } else {
        crate::document::lemma_joined_front(l, a, b + 1);
        assert(joined(l, a + 1, b + 1) == joined(l, a + 1, b) + l[b] + nl());
        assert(spec_deleted(l, s, e) =~= joined(l, a, b + 1));
    }
}

} // verus!
