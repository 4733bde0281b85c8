//! The edited text: a list of lines, addressed by (row, character column).
use vstd::prelude::*;

use crate::app::Mode;
use crate::text::{
    char_len, chars_of, clamp, is_alphanumeric, is_alphanumeric_char, is_white_space,
    is_whitespace, lemma_split_on_nonempty, lemma_split_single_iff, push_char, push_chars,
    split_chars, split_on, string_of, without_final_newline,
};

verus! {

/// A position in the document: a row and a column counted in characters.
/// Positions are ordered by row, then by column.
#[derive(Clone, Copy, Debug, PartialEq, Eq, PartialOrd, Ord, Hash, Structural)]
pub struct Pos {
    pub row: usize,
    pub col: usize,
}

/// `a` comes at or before `b` (by row, then column).
pub open spec fn pos_le(a: Pos, b: Pos) -> bool {
    a.row < b.row || (a.row == b.row && a.col <= b.col)
}

/// The earlier of two positions.
pub open spec fn pos_min(a: Pos, b: Pos) -> Pos {
    if pos_le(a, b) {
        a
    } else {
        b
    }
}

/// The later of two positions.
pub open spec fn pos_max(a: Pos, b: Pos) -> Pos {
    if pos_le(a, b) {
        b
    } else {
        a
    }
}

/// Whether `a` comes strictly before `b`.
pub fn pos_less(a: Pos, b: Pos) -> (r: bool)
    ensures
        r == (pos_le(a, b) && a != b),
{
    a.row < b.row || (a.row == b.row && a.col < b.col)
}

/// The two positions in order: (earlier, later).
pub fn ordered(a: Pos, b: Pos) -> (r: (Pos, Pos))
    ensures
        r.0 == pos_min(a, b),
        r.1 == pos_max(a, b),
{
    if pos_less(b, a) {
        (b, a)
    } else {
        (a, b)
    }
}

/// The characters of each line.
pub open spec fn view_lines(v: Seq<String>) -> Seq<Seq<char>> {
    v.map_values(|l: String| l@)
}

/// A one-character newline sequence.
pub open spec fn nl() -> Seq<char> {
    seq!['\n']
}

/// Lines `a..b`, each followed by a newline.
pub open spec fn joined(lines: Seq<Seq<char>>, a: int, b: int) -> Seq<char>
    decreases b - a,
{
    if a >= b {
        Seq::empty()
    } else {
        joined(lines, a, b - 1) + lines[b - 1] + nl()
    }
}

/// `p` names a line of `lines` and a column within it or just past its end.
pub open spec fn valid_pos(lines: Seq<Seq<char>>, p: Pos) -> bool {
    p.row < lines.len() && p.col <= lines[p.row as int].len()
}

/// Lines after inserting `s` at `pos` (the column clamped to the line's end):
/// `s` is split at its newlines; the first piece joins the head of the line,
/// the last piece the rest of the line.
pub open spec fn spec_insert(lines: Seq<Seq<char>>, pos: Pos, s: Seq<char>) -> Seq<Seq<char>> {
    let line = lines[pos.row as int];
    let c = clamp(pos.col as int, line.len() as int);
    lines.take(pos.row as int) + insert_pieces(line, c, split_on(s, '\n')) + lines.skip(
        pos.row + 1,
    )
}

/// The lines that replace `line` when `parts` go in at column `c`.
pub open spec fn insert_pieces(line: Seq<char>, c: int, parts: Seq<Seq<char>>) -> Seq<Seq<char>> {
    Seq::new(parts.len(), |i: int| insert_piece(line, c, parts, i))
}

/// The `i`-th of `insert_pieces`.
pub open spec fn insert_piece(line: Seq<char>, c: int, parts: Seq<Seq<char>>, i: int) -> Seq<
    char,
> {
    (if i == 0 {
        line.take(c)
    } else {
        Seq::empty()
    }) + parts[i] + (if i == parts.len() - 1 {
        line.skip(c)
    } else {
        Seq::empty()
    })
}

/// Where the cursor lands after inserting `s` at `pos`: just after the inserted text.
pub open spec fn spec_insert_end(pos: Pos, s: Seq<char>) -> Pos {
    let parts = split_on(s, '\n');
    let k = parts.len();
    Pos {
        row: (pos.row + k - 1) as usize,
        col: if k == 1 {
            (pos.col + s.len()) as usize
        } else {
            parts[k - 1].len() as usize
        },
    }
}

/// The text from `s` to `e` inclusive (`s` before `e`), where the column just
/// past a line's end stands for its newline.
pub open spec fn spec_deleted(lines: Seq<Seq<char>>, s: Pos, e: Pos) -> Seq<char> {
    let end_line = lines[e.row as int];
    let cut = clamp(e.col + 1, end_line.len() as int);
    let newline = if e.col == end_line.len() {
        nl()
    } else {
        Seq::empty()
    };
    if s.row == e.row {
        end_line.subrange(s.col as int, cut) + newline
    } else {
        lines[s.row as int].skip(s.col as int) + nl() + joined(lines, s.row + 1, e.row as int)
            + end_line.take(cut) + newline
    }
}

/// Lines after deleting from `s` to `e` inclusive (`s` before `e`).  When the
/// deletion runs through the end of the last line from the start of a line
/// other than the first, that line disappears with the newline before it.
pub open spec fn spec_delete_lines(lines: Seq<Seq<char>>, s: Pos, e: Pos) -> Seq<Seq<char>> {
    let end_line = lines[e.row as int];
    let through_newline = e.col == end_line.len();
    let is_last = e.row + 1 == lines.len();
    let prefix = lines[s.row as int].take(s.col as int);
    let suffix = if through_newline {
        if is_last {
            Seq::empty()
        } else {
            lines[e.row + 1]
        }
    } else {
        end_line.skip(e.col + 1)
    };
    let through = if through_newline && !is_last {
        e.row + 1
    } else {
        e.row as int
    };
    if through_newline && is_last && s.col == 0 && s.row > 0 {
        lines.take(s.row as int)
    } else {
        lines.take(s.row as int).push(prefix + suffix) + lines.skip(through + 1)
    }
}

/// The text that a copy from `s` to `e` (`s` before `e`) yields: on one line
/// the columns `s.col..=e.col` of the line and its newline; across lines the
/// rest of the first line, the lines between, and the first `e.col`
/// characters of the last line (each line followed by its newline).
pub open spec fn spec_copy(lines: Seq<Seq<char>>, s: Pos, e: Pos) -> Seq<char> {
    let first = lines[s.row as int] + nl();
    if s.row == e.row {
        first.subrange(
            clamp(s.col as int, first.len() as int),
            clamp(e.col + 1, first.len() as int),
        )
    } else {
        let last = lines[e.row as int] + nl();
        first.skip(clamp(s.col as int, first.len() as int)) + joined(
            lines,
            s.row + 1,
            e.row as int,
        ) + last.take(clamp(e.col as int, last.len() as int))
    }
}

/// The last column the cursor may take on a line of `len` characters.
pub open spec fn spec_col_bound(len: nat, mode: Mode) -> nat {
    match mode {
        Mode::Insert | Mode::Visual(_) => len,
        _ => if len == 0 {
            0
        } else {
            (len - 1) as nat
        },
    }
}

/// The last row index (0 for an empty document).
pub open spec fn spec_row_bound(n: nat) -> nat {
    if n == 0 {
        0
    } else {
        (n - 1) as nat
    }
}

/// The content a file holds for `lines`: each line followed by a newline
/// (a lone newline when there are no lines).
pub open spec fn spec_contents(lines: Seq<Seq<char>>) -> Seq<char> {
    if lines.len() == 0 {
        nl()
    } else {
        joined(lines, 0, lines.len() as int)
    }
}

/// The lines read from file content: one trailing newline dropped, the rest split at newlines.
pub open spec fn spec_lines_of(contents: Seq<char>) -> Seq<Seq<char>> {
    split_on(without_final_newline(contents), '\n')
}

/// The open file: its path and its lines (without newline characters).
pub struct Document {
    pub file_path: String,
    pub lines: Vec<String>,
}

impl View for Document {
    type V = Seq<Seq<char>>;

    open spec fn view(&self) -> Seq<Seq<char>> {
        view_lines(self.lines@)
    }
}

/// Appends the lines `src[a..b]` to `out`.
fn push_lines(out: &mut Vec<String>, src: &Vec<String>, a: usize, b: usize)
    requires
        a <= b <= src@.len(),
    ensures
        view_lines(final(out)@) == view_lines(old(out)@) + view_lines(src@).subrange(
            a as int,
            b as int,
        ),
{
    let mut i = a;
    while i < b
        invariant
            a <= i <= b <= src@.len(),
            view_lines(out@) == view_lines(old(out)@) + view_lines(src@).subrange(
                a as int,
                i as int,
            ),
        decreases b - i,
    {
        let ghost before = out@;
        out.push(src[i].clone());
        i = i + 1;
        proof {
            assert(view_lines(out@) =~= view_lines(before).push(src@[i - 1]@));
            assert(view_lines(src@).subrange(a as int, i as int) =~= view_lines(src@).subrange(
                a as int,
                i - 1,
            ).push(src@[i - 1]@));
        }
    }
}

impl Document {
    /// A document for `file_path` holding the lines of `contents`.
    pub fn from_contents(file_path: String, contents: &str) -> (doc: Document)
        ensures
            doc@ == spec_lines_of(contents@),
            doc.file_path == file_path,
    {
        let mut v = chars_of(contents);
        if v.len() > 0 && v[v.len() - 1] == '\n' {
            v.pop();
        }
        proof {
            assert(v@ =~= without_final_newline(contents@));
        }
        let lines = split_chars(&v, '\n');
        let doc = Document { file_path, lines };
        proof {
            assert(doc@ =~= spec_lines_of(contents@));
        }
        doc
    }

    /// The content written to the file: each line followed by a newline.
    pub fn contents(&self) -> (s: String)
        ensures
            s@ == spec_contents(self@),
    {
        let mut s = String::new();
        let mut i: usize = 0;
        while i < self.lines.len()
            invariant
                i <= self@.len(),
                s@ == joined(self@, 0, i as int),
            decreases self@.len() - i,
        {
            s.append(self.lines[i].as_str());
            push_char(&mut s, '\n');
            i = i + 1;
        }
        if self.lines.len() == 0 {
            push_char(&mut s, '\n');
            proof {
                assert(s@ =~= nl());
            }
        }
        s
    }

    /// Inserts `str` at `pos` (the column clamped to the end of the line) and
    /// returns the position just after the inserted text.
    pub fn insert(&mut self, pos: Pos, str: &str) -> (end: Pos)
        requires
            pos.row < old(self)@.len(),
            split_on(str@, '\n').len() == 1 ==> pos.col + str@.len() <= usize::MAX,
        ensures
            final(self)@ == spec_insert(old(self)@, pos, str@),
            end == spec_insert_end(pos, str@),
            final(self).file_path == old(self).file_path,
    {
        let ghost old_lines = self@;
        let n = self.lines.len();
        let line = chars_of(self.lines[pos.row].as_str());
        let c = if pos.col < line.len() {
            pos.col
        } else {
            line.len()
        };
        let parts = split_chars(&chars_of(str), '\n');
        proof {
            lemma_split_on_nonempty(str@, '\n');
        }
        let k = parts.len();
        let ghost mid = insert_pieces(line@, c as int, split_on(str@, '\n'));
        let mut out: Vec<String> = Vec::new();
        push_lines(&mut out, &self.lines, 0, pos.row);
        let mut i: usize = 0;
        while i < k
            invariant
                k == parts@.len(),
                k == split_on(str@, '\n').len(),
                forall|j: int|
                    0 <= j < parts@.len() ==> #[trigger] parts@[j]@ == split_on(str@, '\n')[j],
                pos.row < self@.len(),
                self@ == old_lines,
                line@ == old_lines[pos.row as int],
                c <= line@.len(),
                mid == insert_pieces(line@, c as int, split_on(str@, '\n')),
                i <= k,
                view_lines(out@) == old_lines.take(pos.row as int) + mid.take(i as int),
            decreases k - i,
        {
            let mut piece = if i == 0 {
                string_of(&line, 0, c)
            } else {
                String::new()
            };
            piece.append(parts[i].as_str());
            if i == k - 1 {
                push_chars(&mut piece, &line, c, line.len());
            }
            proof {
                assert(piece@ =~= mid[i as int]);
            }
            let ghost before = out@;
            out.push(piece);
            i = i + 1;
            proof {
                assert(view_lines(out@) =~= view_lines(before).push(mid[i - 1]));
                assert(mid.take(i as int) =~= mid.take(i - 1).push(mid[i - 1]));
            }
        }
        push_lines(&mut out, &self.lines, pos.row + 1, n);
        let total = out.len();
        proof {
            assert(mid.take(k as int) =~= mid);
            assert(old_lines.subrange(pos.row + 1, old_lines.len() as int) =~= old_lines.skip(
                pos.row + 1,
            ));
            assert(view_lines(out@) =~= spec_insert(old_lines, pos, str@));
        }
        self.lines = out;
        let row = pos.row + k - 1;
        proof {
            if k == 1 {
                lemma_split_single(str@, '\n');
            }
        }
        let col = if k == 1 {
            pos.col + char_len(parts[0].as_str())
        } else {
            char_len(parts[k - 1].as_str())
        };
        Pos { row, col }
    }

    /// Copies the text between `from` and `to` (in either order); see `spec_copy`.
    pub fn copy(&mut self, from: Pos, to: Pos) -> (r: String)
        requires
            pos_min(from, to).row < old(self)@.len(),
            pos_max(from, to).row < old(self)@.len(),
        ensures
            r@ == spec_copy(old(self)@, pos_min(from, to), pos_max(from, to)),
            *final(self) == *old(self),
    {
        let (start, end) = ordered(from, to);
        let mut first = chars_of(self.lines[start.row].as_str());
        first.push('\n');
        let a = if start.col < first.len() {
            start.col
        } else {
            first.len()
        };
        if start.row == end.row {
            let b = if end.col < first.len() {
                end.col + 1
            } else {
                first.len()
            };
            return string_of(&first, a, b);
        }
        let mut result = string_of(&first, a, first.len());
        let ghost head = result@;
        let mut i = start.row + 1;
        while i < end.row
            invariant
                start.row < i <= end.row < self@.len(),
                result@ == head + joined(self@, start.row + 1, i as int),
            decreases end.row - i,
        {
            result.append(self.lines[i].as_str());
            push_char(&mut result, '\n');
            i = i + 1;
        }
        let mut last = chars_of(self.lines[end.row].as_str());
        last.push('\n');
        let b = if end.col < last.len() {
            end.col
        } else {
            last.len()
        };
        push_chars(&mut result, &last, 0, b);
        proof {
            assert(first@.skip(a as int) =~= first@.subrange(a as int, first@.len() as int));
            assert(result@ =~= spec_copy(self@, start, end));
        }
        result
    }

    /// Deletes the text between `from` and `to` (in either order, both ends
    /// included) and returns it; see `spec_delete_lines` and `spec_deleted`.
    pub fn delete(&mut self, from: Pos, to: Pos) -> (r: String)
        requires
            valid_pos(old(self)@, pos_min(from, to)),
            valid_pos(old(self)@, pos_max(from, to)),
        ensures
            final(self)@ == spec_delete_lines(old(self)@, pos_min(from, to), pos_max(from, to)),
            r@ == spec_deleted(old(self)@, pos_min(from, to), pos_max(from, to)),
            final(self).file_path == old(self).file_path,
    {
        let (start, end) = ordered(from, to);
        if start.row == end.row {
            return self.delete_same_line(start, end);
        }
        let ghost old_lines = self@;
        let sl = chars_of(self.lines[start.row].as_str());
        let el = chars_of(self.lines[end.row].as_str());
        let mut result = string_of(&sl, start.col, sl.len());
        push_char(&mut result, '\n');
        let ghost head = result@;
        let mut i = start.row + 1;
        while i < end.row
            invariant
                start.row < i <= end.row < self@.len(),
                self@ == old_lines,
                result@ == head + joined(self@, start.row + 1, i as int),
            decreases end.row - i,
        {
            result.append(self.lines[i].as_str());
            push_char(&mut result, '\n');
            i = i + 1;
        }
        let cut = if end.col < el.len() {
            end.col + 1
        } else {
            el.len()
        };
        push_chars(&mut result, &el, 0, cut);
        let through_newline = end.col == el.len();
        if through_newline {
            push_char(&mut result, '\n');
        }
        proof {
            assert(sl@.subrange(start.col as int, sl@.len() as int) =~= sl@.skip(
                start.col as int,
            ));
            assert(result@ =~= spec_deleted(old_lines, start, end));
        }
        let n = self.lines.len();
        let is_last = end.row + 1 == n;
        if through_newline && is_last && start.col == 0 && start.row > 0 {
            self.lines.truncate(start.row);
            proof {
                assert(self@ =~= spec_delete_lines(old_lines, start, end));
            }
        } else {
            let mut replacement = string_of(&sl, 0, start.col);
            if through_newline {
                if !is_last {
                    replacement.append(self.lines[end.row + 1].as_str());
                }
            } else {
                push_chars(&mut replacement, &el, end.col + 1, el.len());
            }
            let through = if through_newline && !is_last {
                end.row + 1
            } else {
                end.row
            };
            let mut out: Vec<String> = Vec::new();
            push_lines(&mut out, &self.lines, 0, start.row);
            let ghost before = out@;
            out.push(replacement);
            proof {
                assert(view_lines(out@) =~= view_lines(before).push(replacement@));
            }
            push_lines(&mut out, &self.lines, through + 1, self.lines.len());
            proof {
                assert(view_lines(out@) =~= spec_delete_lines(old_lines, start, end));
            }
            self.lines = out;
        }
        result
    }

    /// `delete` for a range within one line.
    fn delete_same_line(&mut self, start: Pos, end: Pos) -> (r: String)
        requires
            start.row == end.row,
            start.col <= end.col,
            valid_pos(old(self)@, end),
        ensures
            final(self)@ == spec_delete_lines(old(self)@, start, end),
            r@ == spec_deleted(old(self)@, start, end),
            final(self).file_path == old(self).file_path,
    {
        let ghost old_lines = self@;
        let row = start.row;
        let n = self.lines.len();
        let line = chars_of(self.lines[row].as_str());
        let line_len = line.len();
        let deletes_newline = end.col == line_len;
        let cut = if end.col < line_len {
            end.col + 1
        } else {
            line_len
        };
        let mut result = string_of(&line, start.col, cut);
        if deletes_newline {
            push_char(&mut result, '\n');
        }
        let prefix = string_of(&line, 0, start.col);
        if deletes_newline {
            if row + 1 < n {
                let next_line = self.lines.remove(row + 1);
                let mut joined_line = prefix;
                joined_line.append(next_line.as_str());
                self.lines.set(row, joined_line);
            } else if start.col == 0 && row > 0 {
                self.lines.remove(row);
            } else {
                self.lines.set(row, prefix);
            }
        } else {
            let mut replacement = prefix;
            push_chars(&mut replacement, &line, end.col + 1, line_len);
            self.lines.set(row, replacement);
        }
        proof {
            assert(self@ =~= spec_delete_lines(old_lines, start, end));
        }
        result
    }

    /// The position after `pos` where the next word begins: the rest of the
    /// character class under `pos` is skipped, then any whitespace.
    pub fn next_word(&self, pos: Pos) -> (r: Pos)
        ensures
            r == spec_next_word(self@, pos),
    {
        let chars = self.indexed_chars();
        let mut idx = self.pos_idx(pos, &chars);
        let ghost start = idx as int;
        let state = CharState::from(chars[idx].1);
        let ghost st = class_of(chars@[start].1);
        let n = chars.len();
        while idx < n - 1 && state.matches(chars[idx].1)
            invariant
                chars@ == indexed(self@),
                n == chars@.len(),
                n >= 1,
                state == st,
                start <= idx < n,
                skip_class(chars@, start, st) == skip_class(chars@, idx as int, st),
            decreases n - idx,
        {
            idx += 1;
        }
        let ghost mid = idx as int;
        while idx < n - 1 && is_whitespace(chars[idx].1)
            invariant
                chars@ == indexed(self@),
                n == chars@.len(),
                mid <= idx < n,
                skip_white(chars@, mid) == skip_white(chars@, idx as int),
            decreases n - idx,
        {
            idx += 1;
        }
        chars[idx].0
    }

    /// The position where the word before `pos` begins: whitespace before
    /// `pos` is skipped, then the run of the class found there.
    pub fn prev_word(&self, pos: Pos) -> (r: Pos)
        ensures
            r == spec_prev_word(self@, pos),
    {
        let chars = self.indexed_chars();
        let idx = self.pos_idx(pos, &chars);
        if idx == 0 {
            return chars[idx].0;
        }
        let mut idx = idx - 1;
        let ghost start = idx as int;
        while idx > 0 && is_whitespace(chars[idx].1)
            invariant
                chars@ == indexed(self@),
                0 <= idx <= start < chars@.len(),
                back_white(chars@, start) == back_white(chars@, idx as int),
            decreases idx,
        {
            idx -= 1;
        }
        let ghost mid = idx as int;
        let state = CharState::from(chars[idx].1);
        let ghost st = class_of(chars@[mid].1);
        while idx > 0 && state.matches(chars[idx - 1].1)
            invariant
                chars@ == indexed(self@),
                0 <= idx <= mid < chars@.len(),
                state == st,
                back_class(chars@, mid, st) == back_class(chars@, idx as int, st),
            decreases idx,
        {
            idx -= 1;
        }
        chars[idx].0
    }

    /// The last character of the word after `pos`: one step forward, any
    /// whitespace skipped, then forward while the next character keeps the class.
    pub fn last_char_of_next_word(&self, pos: Pos) -> (r: Pos)
        ensures
            r == spec_word_end(self@, pos),
    {
        let chars = self.indexed_chars();
        let mut idx = self.pos_idx(pos, &chars);
        let n = chars.len();
        if idx < n - 1 {
            idx += 1;
        }
        let ghost start = idx as int;
        while idx < n - 1 && is_whitespace(chars[idx].1)
            invariant
                chars@ == indexed(self@),
                n == chars@.len(),
                start <= idx < n,
                skip_white(chars@, start) == skip_white(chars@, idx as int),
            decreases n - idx,
        {
            idx += 1;
        }
        let ghost mid = idx as int;
        let state = CharState::from(chars[idx].1);
        let ghost st = class_of(chars@[mid].1);
        while idx < n - 1 && state.matches(chars[idx + 1].1)
            invariant
                chars@ == indexed(self@),
                n == chars@.len(),
                state == st,
                mid <= idx < n,
                extend_class(chars@, mid, st) == extend_class(chars@, idx as int, st),
            decreases n - idx,
        {
            idx += 1;
        }
        chars[idx].0
    }

    /// Every character with its position, each line followed by a newline
    /// except the last; a lone newline at (0, 0) when there is no character.
    fn indexed_chars(&self) -> (chars: Vec<(Pos, char)>)
        ensures
            chars@ == indexed(self@),
    {
        let mut chars: Vec<(Pos, char)> = Vec::new();
        let n = self.lines.len();
        let mut row: usize = 0;
        while row < n
            invariant
                n == self@.len(),
                row <= n,
                chars@ == chars_upto(self@, row as int),
            decreases n - row,
        {
            let line = chars_of(self.lines[row].as_str());
            let mut col: usize = 0;
            while col < line.len()
                invariant
                    n == self@.len(),
                    row < n,
                    line@ == self@[row as int],
                    col <= line@.len(),
                    chars@ == chars_upto(self@, row as int) + row_chars(self@, row as int).take(
                        col as int,
                    ),
                decreases line@.len() - col,
            {
                chars.push((Pos { row, col }, line[col]));
                col += 1;
                proof {
                    assert(row_chars(self@, row as int).take(col as int) =~= row_chars(
                        self@,
                        row as int,
                    ).take(col - 1).push((Pos { row, col: (col - 1) as usize }, line@[col - 1])));
                }
            }
            if row + 1 < n {
                chars.push((Pos { row, col: line.len() }, '\n'));
            }
            proof {
                assert(chars@ =~= chars_upto(self@, row + 1));
            }
            row += 1;
        }
        if chars.len() == 0 {
            chars.push((Pos { row: 0, col: 0 }, '\n'));
            proof {
                assert(chars@ =~= indexed(self@));
            }
        }
        chars
    }

    /// The index in `chars` of `pos`, bounded to the document; the last index
    /// when the bounded position has no entry.
    fn pos_idx(&self, pos: Pos, chars: &Vec<(Pos, char)>) -> (r: usize)
        requires
            chars@ == indexed(self@),
        ensures
            r == pos_index(self@, pos),
            r < chars@.len(),
    {
        proof {
            lemma_indexed_nonempty(self@);
        }
        let n = chars.len();
        if self.lines.len() == 0 {
            return n - 1;
        }
        let row = if pos.row < self.lines.len() - 1 {
            pos.row
        } else {
            self.lines.len() - 1
        };
        let len = char_len(self.lines[row].as_str());
        let col = if pos.col < len {
            pos.col
        } else {
            len
        };
        let bounded = Pos { row, col };
        let mut i: usize = 0;
        while i < n
            invariant
                chars@ == indexed(self@),
                n == chars@.len(),
                n >= 1,
                i <= n,
                bounded == bounded_pos(self@, pos),
                find_from(chars@, bounded, 0) == find_from(chars@, bounded, i as int),
            decreases n - i,
        {
            if chars[i].0 == bounded {
                return i;
            }
            i += 1;
        }
        n - 1
    }

    /// Inserts an empty line at `row`.
    pub fn insert_line(&mut self, row: usize)
        requires
            row <= old(self)@.len(),
        ensures
            final(self)@ == old(self)@.insert(row as int, Seq::<char>::empty()),
            final(self).file_path == old(self).file_path,
    {
        let ghost before = self.lines@;
        self.lines.insert(row, String::new());
        proof {
            assert(self@ =~= view_lines(before).insert(row as int, Seq::<char>::empty()));
        }
    }

    /// The last column the cursor may take on `row` in `mode`.
    pub fn col_bound(&self, row: usize, mode: Mode) -> (b: usize)
        requires
            row < self@.len(),
        ensures
            b == spec_col_bound(self@[row as int].len(), mode),
    {
        let line_len = char_len(self.lines[row].as_str());
        match mode {
            Mode::Insert | Mode::Visual(_) => line_len,
            _ => if line_len == 0 {
                0
            } else {
                line_len - 1
            },
        }
    }

    /// The last row index.
    pub fn row_bound(&self) -> (b: usize)
        ensures
            b == spec_row_bound(self@.len()),
    {
        if self.lines.len() == 0 {
            0
        } else {
            self.lines.len() - 1
        }
    }

    /// A copy of the lines.
    pub fn snapshot(&self) -> (s: Vec<String>)
        ensures
            view_lines(s@) == self@,
    {
        let mut s: Vec<String> = Vec::new();
        push_lines(&mut s, &self.lines, 0, self.lines.len());
        proof {
            assert(view_lines(s@) =~= self@);
        }
        s
    }

    /// Replaces the lines.
    pub fn restore(&mut self, lines: Vec<String>)
        ensures
            final(self)@ == view_lines(lines@),
            final(self).file_path == old(self).file_path,
    {
        self.lines = lines;
    }
}

/// How a word motion groups characters.
#[derive(PartialEq, Eq, Debug, Clone, Copy, Structural)]
pub enum CharState {
    Alphabetic,
    NonAlphabetic,
    WhiteSpace,
}

/// The class of a character that is `alphanumeric` or `whitespace` or neither.
pub open spec fn class_by(alphanumeric: bool, whitespace: bool) -> CharState {
    if alphanumeric {
        CharState::Alphabetic
    } else if whitespace {
        CharState::WhiteSpace
    } else {
        CharState::NonAlphabetic
    }
}

/// The class of a character.
pub open spec fn class_of(c: char) -> CharState {
    class_by(is_alphanumeric_char(c), is_white_space(c))
}

/// The class of a character from its two properties: alphanumeric ones are
/// word characters, then white space, and all others are punctuation.
pub fn class_from(alphanumeric: bool, whitespace: bool) -> (st: CharState)
    ensures
        st == class_by(alphanumeric, whitespace),
{
    if alphanumeric {
        CharState::Alphabetic
    } else if whitespace {
        CharState::WhiteSpace
    } else {
        CharState::NonAlphabetic
    }
}

/// Whether `c` belongs to the class `st`.
pub open spec fn class_matches(st: CharState, c: char) -> bool {
    match st {
        CharState::Alphabetic => is_alphanumeric_char(c),
        CharState::NonAlphabetic => !is_alphanumeric_char(c) && !is_white_space(c),
        CharState::WhiteSpace => is_white_space(c),
    }
}

impl CharState {
    fn from(ch: char) -> (st: CharState)
        ensures
            st == class_of(ch),
    {
        class_from(is_alphanumeric(ch), is_whitespace(ch))
    }

    fn matches(&self, ch: char) -> (r: bool)
        ensures
            r == class_matches(*self, ch),
    {
        match self {
            CharState::Alphabetic => is_alphanumeric(ch),
            CharState::NonAlphabetic => !is_alphanumeric(ch) && !is_whitespace(ch),
            CharState::WhiteSpace => is_whitespace(ch),
        }
    }
}

/// The characters of row `r` with their positions, and its newline unless `r` is the last row.
pub open spec fn row_chars(lines: Seq<Seq<char>>, r: int) -> Seq<(Pos, char)> {
    let line = lines[r];
    Seq::new(line.len(), |c: int| (Pos { row: r as usize, col: c as usize }, line[c])) + (if r
        + 1 < lines.len() {
        seq![(Pos { row: r as usize, col: line.len() as usize }, '\n')]
    } else {
        Seq::empty()
    })
}

/// `row_chars` of the rows before `k`.
pub open spec fn chars_upto(lines: Seq<Seq<char>>, k: int) -> Seq<(Pos, char)>
    decreases k,
{
    if k <= 0 {
        Seq::empty()
    } else {
        chars_upto(lines, k - 1) + row_chars(lines, k - 1)
    }
}

/// The document's characters with their positions, as the word motions walk them.
pub open spec fn indexed(lines: Seq<Seq<char>>) -> Seq<(Pos, char)> {
    let f = chars_upto(lines, lines.len() as int);
    if f.len() == 0 {
        seq![(Pos { row: 0, col: 0 }, '\n')]
    } else {
        f
    }
}

/// `p` moved into the document: the row to the last row, the column to the line's end.
pub open spec fn bounded_pos(lines: Seq<Seq<char>>, p: Pos) -> Pos {
    let row = if p.row < lines.len() - 1 {
        p.row as int
    } else {
        lines.len() - 1
    };
    let len = lines[row].len();
    Pos { row: row as usize, col: if p.col < len { p.col } else { len as usize } }
}

/// The first index from `i` on whose position is `p`, or the last index.
pub open spec fn find_from(chars: Seq<(Pos, char)>, p: Pos, i: int) -> int
    decreases chars.len() - i,
{
    if i >= chars.len() {
        chars.len() - 1
    } else if chars[i].0 == p {
        i
    } else {
        find_from(chars, p, i + 1)
    }
}

/// Where a word motion from `p` starts in `indexed(lines)`.
pub open spec fn pos_index(lines: Seq<Seq<char>>, p: Pos) -> int {
    let chars = indexed(lines);
    if lines.len() == 0 {
        chars.len() - 1
    } else {
        find_from(chars, bounded_pos(lines, p), 0)
    }
}

/// From `i`, forward past characters of class `st`, stopping at the last index.
pub open spec fn skip_class(chars: Seq<(Pos, char)>, i: int, st: CharState) -> int
    decreases chars.len() - i,
{
    if i < chars.len() - 1 && class_matches(st, chars[i].1) {
        skip_class(chars, i + 1, st)
    } else {
        i
    }
}

/// From `i`, forward past whitespace, stopping at the last index.
pub open spec fn skip_white(chars: Seq<(Pos, char)>, i: int) -> int
    decreases chars.len() - i,
{
    if i < chars.len() - 1 && is_white_space(chars[i].1) {
        skip_white(chars, i + 1)
    } else {
        i
    }
}

/// From `i`, back over whitespace, stopping at index 0.
pub open spec fn back_white(chars: Seq<(Pos, char)>, i: int) -> int
    decreases i,
{
    if i > 0 && is_white_space(chars[i].1) {
        back_white(chars, i - 1)
    } else {
        i
    }
}

/// From `i`, back while the character before has class `st`.
pub open spec fn back_class(chars: Seq<(Pos, char)>, i: int, st: CharState) -> int
    decreases i,
{
    if i > 0 && class_matches(st, chars[i - 1].1) {
        back_class(chars, i - 1, st)
    } else {
        i
    }
}

/// From `i`, forward while the character after has class `st`.
pub open spec fn extend_class(chars: Seq<(Pos, char)>, i: int, st: CharState) -> int
    decreases chars.len() - i,
{
    if i < chars.len() - 1 && class_matches(st, chars[i + 1].1) {
        extend_class(chars, i + 1, st)
    } else {
        i
    }
}

/// Index reached by `next_word` from index `i`.
pub open spec fn next_word_index(chars: Seq<(Pos, char)>, i: int) -> int {
    skip_white(chars, skip_class(chars, i, class_of(chars[i].1)))
}

/// Index reached by `prev_word` from index `i`.
pub open spec fn prev_word_index(chars: Seq<(Pos, char)>, i: int) -> int {
    if i == 0 {
        0
    } else {
        let j = back_white(chars, i - 1);
        back_class(chars, j, class_of(chars[j].1))
    }
}

/// Index reached by `last_char_of_next_word` from index `i`.
pub open spec fn word_end_index(chars: Seq<(Pos, char)>, i: int) -> int {
    let start = if i < chars.len() - 1 {
        i + 1
    } else {
        i
    };
    let j = skip_white(chars, start);
    extend_class(chars, j, class_of(chars[j].1))
}

pub proof fn lemma_indexed_nonempty(lines: Seq<Seq<char>>)
    ensures
        indexed(lines).len() >= 1,
{
}

pub proof fn lemma_find_from_bounds(chars: Seq<(Pos, char)>, p: Pos, i: int)
    requires
        chars.len() >= 1,
        0 <= i,
    ensures
        0 <= find_from(chars, p, i) < chars.len(),
    decreases chars.len() - i,
{
    if i < chars.len() && chars[i].0 != p {
        lemma_find_from_bounds(chars, p, i + 1);
    }
}

/// Where `next_word` goes from `p`.
pub open spec fn spec_next_word(lines: Seq<Seq<char>>, p: Pos) -> Pos {
    indexed(lines)[next_word_index(indexed(lines), pos_index(lines, p))].0
}

/// Where `prev_word` goes from `p`.
pub open spec fn spec_prev_word(lines: Seq<Seq<char>>, p: Pos) -> Pos {
    indexed(lines)[prev_word_index(indexed(lines), pos_index(lines, p))].0
}

/// Where `last_char_of_next_word` goes from `p`.
pub open spec fn spec_word_end(lines: Seq<Seq<char>>, p: Pos) -> Pos {
    indexed(lines)[word_end_index(indexed(lines), pos_index(lines, p))].0
}

/// The number of characters of the lines, counting one newline after each.
pub open spec fn size(lines: Seq<Seq<char>>) -> nat
    decreases lines.len(),
{
    if lines.len() == 0 {
        0
    } else {
        size(lines.drop_last()) + lines.last().len() + 1
    }
}

pub proof fn lemma_size_concat(a: Seq<Seq<char>>, b: Seq<Seq<char>>)
    ensures
        size(a + b) == size(a) + size(b),
    decreases b.len(),
{
    if b.len() > 0 {
        lemma_size_concat(a, b.drop_last());
        assert((a + b).drop_last() =~= a + b.drop_last());
    } else {
        assert(a + b =~= a);
    }
}

/// `lines` cut around row `r`.
pub proof fn lemma_size_split(lines: Seq<Seq<char>>, r: int)
    requires
        0 <= r < lines.len(),
    ensures
        size(lines) == size(lines.take(r)) + lines[r].len() + 1 + size(lines.skip(r + 1)),
{
    assert(lines =~= lines.take(r).push(lines[r]) + lines.skip(r + 1));
    lemma_size_concat(lines.take(r).push(lines[r]), lines.skip(r + 1));
    assert(lines.take(r).push(lines[r]).drop_last() =~= lines.take(r));
}

/// One join of the Visual-mode `J`: the newline after row `row` becomes a space.
pub open spec fn join_at(lines: Seq<Seq<char>>, row: int) -> Seq<Seq<char>> {
    let p = Pos { row: row as usize, col: lines[row].len() as usize };
    spec_insert(spec_delete_lines(lines, p, p), p, seq![' '])
}

/// `join_at` done `k` times at `row`.
pub open spec fn join_times(lines: Seq<Seq<char>>, row: int, k: nat) -> Seq<Seq<char>>
    decreases k,
{
    if k == 0 {
        lines
    } else {
        join_at(join_times(lines, row, (k - 1) as nat), row)
    }
}

/// A join at `row` would remove that row and leave nothing to insert into:
/// the row is the last one, empty, and not the first.
pub open spec fn join_drops_row(lines: Seq<Seq<char>>, row: int) -> bool {
    row + 1 == lines.len() && lines[row].len() == 0 && row > 0
}

pub proof fn lemma_split_space()
    ensures
        split_on(seq![' '], '\n') == seq![seq![' ']],
{
    let s = seq![' '];
    assert(s.drop_last() =~= Seq::<char>::empty());
    assert(split_on(Seq::<char>::empty(), '\n') == seq![Seq::<char>::empty()]);
    assert(Seq::<char>::empty().push(' ') =~= seq![' ']);
    assert(split_on(s, '\n') =~= seq![seq![' ']]);
}

/// A join keeps the row, leaves it non-empty, and adds at most one character.
pub proof fn lemma_join_at(lines: Seq<Seq<char>>, row: int)
    requires
        0 <= row < lines.len() <= usize::MAX,
        lines[row].len() <= usize::MAX,
        !join_drops_row(lines, row),
    ensures
        row < join_at(lines, row).len(),
        join_at(lines, row)[row].len() >= 1,
        size(join_at(lines, row)) <= size(lines) + 1,
{
    let p = Pos { row: row as usize, col: lines[row].len() as usize };
    let d = spec_delete_lines(lines, p, p);
    lemma_split_space();
    lemma_size_split(lines, row);
    assert(lines[row].take(lines[row].len() as int) =~= lines[row]);
    if row + 1 < lines.len() {
        lemma_size_split(lines, row + 1);
        assert(lines.skip(row + 1).skip(1) =~= lines.skip(row + 2));
        assert(lines.skip(row + 1) =~= seq![lines[row + 1]] + lines.skip(row + 2));
        lemma_size_concat(seq![lines[row + 1]], lines.skip(row + 2));
        assert(seq![lines[row + 1]].drop_last() =~= Seq::<Seq<char>>::empty());
        assert(d =~= lines.take(row).push(lines[row] + lines[row + 1]) + lines.skip(row + 2));
        lemma_size_concat(lines.take(row).push(lines[row] + lines[row + 1]), lines.skip(row + 2));
        assert(lines.take(row).push(lines[row] + lines[row + 1]).drop_last() =~= lines.take(row));
        lemma_size_split(d, row);
        assert(d.take(row) =~= lines.take(row));
        assert(d.skip(row + 1) =~= lines.skip(row + 2));
    } else {
        assert(d =~= lines);
    }
    lemma_size_split(d, row);
    let j = join_at(lines, row);
    let line = d[row];
    let c = clamp(p.col as int, line.len() as int);
    assert(insert_pieces(line, c, seq![seq![' ']]) =~= seq![line.take(c) + seq![' '] + line.skip(c)]);
    assert(j =~= d.take(row).push(line.take(c) + seq![' '] + line.skip(c)) + d.skip(row + 1));
    lemma_size_concat(d.take(row).push(line.take(c) + seq![' '] + line.skip(c)), d.skip(row + 1));
    assert(d.take(row).push(line.take(c) + seq![' '] + line.skip(c)).drop_last() =~= d.take(row));
    assert((line.take(c) + seq![' '] + line.skip(c)).len() == line.len() + 1);
}

pub proof fn lemma_line_within_size(lines: Seq<Seq<char>>, r: int)
    requires
        0 <= r < lines.len(),
    ensures
        lines[r].len() + 1 <= size(lines),
{
    lemma_size_split(lines, r);
}

/// Inserting a piece without newlines grows the line count by nothing; with
/// newlines, by their number.  In either case the count does not drop.
pub proof fn lemma_insert_len(lines: Seq<Seq<char>>, pos: Pos, s: Seq<char>)
    requires
        pos.row < lines.len(),
    ensures
        spec_insert(lines, pos, s).len() == lines.len() + split_on(s, '\n').len() - 1,
        spec_insert(lines, pos, s).len() >= lines.len(),
{
    lemma_split_on_nonempty(s, '\n');
}

/// Deletion leaves at least one line.
pub proof fn lemma_delete_nonempty(lines: Seq<Seq<char>>, s: Pos, e: Pos)
    requires
        valid_pos(lines, s),
        valid_pos(lines, e),
        pos_le(s, e),
    ensures
        spec_delete_lines(lines, s, e).len() >= 1,
{
}

/// A split without separators is the whole sequence.
pub proof fn lemma_split_single(s: Seq<char>, sep: char)
    requires
        split_on(s, sep).len() == 1,
    ensures
        split_on(s, sep)[0] == s,
    decreases s.len(),
{
    if s.len() > 0 {
        let rest = split_on(s.drop_last(), sep);
        lemma_split_on_nonempty(s.drop_last(), sep);
        if s.last() == sep {
            assert(false);
        } else {
            lemma_split_single(s.drop_last(), sep);
            assert(s =~= s.drop_last().push(s.last()));
        }
    }
}

/// Whether the total size of `lines` (characters and one newline each) plus
/// `extra` stays within `usize`.
pub fn size_fits(lines: &Vec<String>, extra: usize) -> (r: bool)
    ensures
        r == (size(view_lines(lines@)) + extra <= usize::MAX),
{
    let ghost l = view_lines(lines@);
    let mut acc: usize = extra;
    let mut i: usize = 0;
    while i < lines.len()
        invariant
            i <= lines@.len(),
            l == view_lines(lines@),
            acc == extra + size(l.take(i as int)),
        decreases lines@.len() - i,
    {
        let n = char_len(lines[i].as_str());
        proof {
            assert(l.take(i + 1).drop_last() =~= l.take(i as int));
            assert(l =~= l.take(i + 1) + l.skip(i + 1));
            lemma_size_concat(l.take(i + 1), l.skip(i + 1));
        }
        match acc.checked_add(n) {
            None => {
                return false;
            },
            Some(a) => {
                match a.checked_add(1) {
                    None => {
                        return false;
                    },
                    Some(b) => {
                        acc = b;
                    },
                }
            },
        }
        i = i + 1;
    }
    assert(l.take(i as int) =~= l);
    true
}

/// Splitting at a separator splits the two sides apart.
pub proof fn lemma_split_concat(x: Seq<char>, y: Seq<char>, sep: char)
    ensures
        split_on(x + seq![sep] + y, sep) == split_on(x, sep) + split_on(y, sep),
    decreases y.len(),
{
    let xs = x + seq![sep];
    if y.len() == 0 {
        assert(xs + y =~= xs);
        assert(xs.drop_last() =~= x);
        assert(split_on(x, sep) + split_on(y, sep) =~= split_on(x, sep).push(Seq::<char>::empty()));
    } else {
        let y0 = y.drop_last();
        let c = y.last();
        lemma_split_concat(x, y0, sep);
        lemma_split_on_nonempty(y0, sep);
        assert((xs + y).drop_last() =~= xs + y0);
        assert((xs + y).last() == c);
        let a = split_on(x, sep);
        let b = split_on(y0, sep);
        if c == sep {
            assert((a + b).push(Seq::<char>::empty()) =~= a + b.push(Seq::<char>::empty()));
        } else {
            let r = a + b;
            assert(r.update(r.len() - 1, r.last().push(c)) =~= a + b.update(
                b.len() - 1,
                b.last().push(c),
            ));
        }
    }
}

/// A line without separators splits into itself alone.
pub proof fn lemma_split_plain(s: Seq<char>, sep: char)
    requires
        !s.contains(sep),
    ensures
        split_on(s, sep) == seq![s],
{
    lemma_split_single_iff(s, sep);
    lemma_split_single(s, sep);
    assert(split_on(s, sep) =~= seq![s]);
}

/// `joined` reads only the lines it joins.
pub proof fn lemma_joined_prefix(a: Seq<Seq<char>>, b: Seq<Seq<char>>, k: int)
    requires
        0 <= k <= a.len(),
        k <= b.len(),
        forall|i: int| 0 <= i < k ==> a[i] == b[i],
    ensures
        joined(a, 0, k) == joined(b, 0, k),
    decreases k,
{
    if k > 0 {
        lemma_joined_prefix(a, b, k - 1);
    }
}

/// The lines of `lines.take(k)` joined, less the last newline, split back into those lines.
proof fn lemma_split_joined(lines: Seq<Seq<char>>, k: int)
    requires
        1 <= k <= lines.len(),
        forall|i: int| 0 <= i < lines.len() ==> !(#[trigger] lines[i]).contains('\n'),
    ensures
        split_on(without_final_newline(joined(lines, 0, k)), '\n') == lines.take(k),
    decreases k,
{
    let j = joined(lines, 0, k);
    let prev = joined(lines, 0, k - 1);
    assert(j == prev + lines[k - 1] + nl());
    assert(without_final_newline(j) =~= prev + lines[k - 1]);
    lemma_split_plain(lines[k - 1], '\n');
    if k == 1 {
        assert(prev =~= Seq::<char>::empty());
        assert(without_final_newline(j) =~= lines[0]);
        assert(lines.take(1) =~= seq![lines[0]]);
    } else {
        lemma_split_joined(lines, k - 1);
        assert(prev.len() > 0 && prev.last() == '\n');
        let w = without_final_newline(prev);
        assert(prev =~= w + seq!['\n']);
        assert(without_final_newline(j) =~= w + seq!['\n'] + lines[k - 1]);
        lemma_split_concat(w, lines[k - 1], '\n');
        assert(lines.take(k) =~= lines.take(k - 1) + seq![lines[k - 1]]);
    }
}

/// Saving lines and reading the file back gives the same lines, when there is
/// at least one line and no line holds a newline.
pub proof fn law_save_then_load(lines: Seq<Seq<char>>)
    requires
        lines.len() >= 1,
        forall|i: int| 0 <= i < lines.len() ==> !(#[trigger] lines[i]).contains('\n'),
    ensures
        spec_lines_of(spec_contents(lines)) == lines,
{
    lemma_split_joined(lines, lines.len() as int);
    assert(lines.take(lines.len() as int) =~= lines);
}

/// The pieces of `w`, each followed by a newline, give `w` and one final newline.
proof fn lemma_joined_split(w: Seq<char>)
    ensures
        joined(split_on(w, '\n'), 0, split_on(w, '\n').len() as int) == w + nl(),
    decreases w.len(),
{
    lemma_split_on_nonempty(w, '\n');
    if w.len() == 0 {
        let p = split_on(w, '\n');
        assert(p == seq![Seq::<char>::empty()]);
        assert(joined(p, 0, 0) == Seq::<char>::empty());
        assert(joined(p, 0, 1) =~= w + nl());
    } else {
        let w0 = w.drop_last();
        let c = w.last();
        lemma_joined_split(w0);
        lemma_split_on_nonempty(w0, '\n');
        let r = split_on(w0, '\n');
        let k = r.len() as int;
        assert(w =~= w0.push(c));
        if c == '\n' {
            let p = r.push(Seq::<char>::empty());
            lemma_joined_prefix(p, r, k);
            assert(joined(p, 0, k + 1) == joined(p, 0, k) + p[k] + nl());
            assert(joined(p, 0, k + 1) =~= w + nl());
        } else {
            let p = r.update(k - 1, r.last().push(c));
            lemma_joined_prefix(p, r, k - 1);
            assert(joined(r, 0, k) == joined(r, 0, k - 1) + r[k - 1] + nl());
            assert(joined(p, 0, k) == joined(p, 0, k - 1) + p[k - 1] + nl());
            assert(joined(r, 0, k - 1) + r[k - 1] =~= w0) by {
                assert(joined(r, 0, k - 1) + r[k - 1] + nl() =~= w0 + nl());
                assert((joined(r, 0, k - 1) + r[k - 1] + nl()).drop_last() =~= joined(r, 0, k
                    - 1) + r[k - 1]);
                assert((w0 + nl()).drop_last() =~= w0);
            }
            assert(joined(p, 0, k) =~= w + nl());
        }
    }
}

/// Reading a file that ends with a newline and saving it unchanged writes
/// the same content back.
pub proof fn law_load_then_save(contents: Seq<char>)
    requires
        contents.len() >= 1,
        contents.last() == '\n',
    ensures
        spec_contents(spec_lines_of(contents)) == contents,
{
    let w = contents.drop_last();
    lemma_joined_split(w);
    lemma_split_on_nonempty(w, '\n');
    assert(w + nl() =~= contents);
}

/// An insertion always leaves at least one line.
pub broadcast proof fn lemma_insert_keeps_a_line(lines: Seq<Seq<char>>, pos: Pos, s: Seq<char>)
    ensures
        #[trigger] spec_insert(lines, pos, s).len() >= 1,
{
    lemma_split_on_nonempty(s, '\n');
}

/// A deletion from a row of the document leaves at least one line.
pub broadcast proof fn lemma_delete_keeps_a_line(lines: Seq<Seq<char>>, s: Pos, e: Pos)
    requires
        s.row < lines.len(),
    ensures
        #[trigger] spec_delete_lines(lines, s, e).len() >= 1,
{
}

/// Joins leave at least one line of a document that has one.
pub broadcast proof fn lemma_join_keeps_a_line(lines: Seq<Seq<char>>, row: int, k: nat)
    requires
        lines.len() >= 1,
    ensures
        #[trigger] join_times(lines, row, k).len() >= 1,
{
    if k > 0 {
        let prev = join_times(lines, row, (k - 1) as nat);
        let p = Pos { row: row as usize, col: prev[row].len() as usize };
        lemma_insert_keeps_a_line(spec_delete_lines(prev, p, p), p, seq![' ']);
    }
}

/// On one row, copying a range yields exactly the text that deleting the
/// same range removes.
pub proof fn law_copy_matches_delete_on_one_row(lines: Seq<Seq<char>>, s: Pos, e: Pos)
    requires
        valid_pos(lines, s),
        valid_pos(lines, e),
        s.row == e.row,
        s.col <= e.col,
    ensures
        spec_copy(lines, s, e) == spec_deleted(lines, s, e),
{
    let line = lines[s.row as int];
    let first = line + nl();
    if e.col < line.len() {
        assert(first.subrange(s.col as int, e.col + 1) =~= line.subrange(s.col as int, e.col + 1));
    } else {
        assert(first.subrange(s.col as int, line.len() + 1int) =~= line.subrange(
            s.col as int,
            line.len() as int,
        ) + nl());
    }
}

/// Every position that `chars_upto` lists lies on a row of `lines`.
proof fn lemma_chars_upto_rows(lines: Seq<Seq<char>>, j: int)
    requires
        0 <= j <= lines.len(),
    ensures
        forall|k: int|
            0 <= k < chars_upto(lines, j).len() ==> (#[trigger] chars_upto(lines, j)[k]).0.row
                < lines.len(),
    decreases j,
{
    if j > 0 {
        lemma_chars_upto_rows(lines, j - 1);
        let a = chars_upto(lines, j - 1);
        let b = row_chars(lines, j - 1);
        assert forall|k: int| 0 <= k < (a + b).len() implies (#[trigger] (a + b)[k]).0.row
            < lines.len() by {
            if k >= a.len() {
                let line = lines[j - 1];
                if k - a.len() < line.len() {
                    assert(b[k - a.len()].0.row == (j - 1) as usize);
                } else {
                    assert(b[k - a.len()].0.row == (j - 1) as usize);
                }
            }
        }
    }
}

/// The walks of the word motions stay within the characters.
proof fn lemma_walk_bounds(chars: Seq<(Pos, char)>, i: int, st: CharState)
    requires
        0 <= i < chars.len(),
    ensures
        i <= skip_class(chars, i, st) < chars.len(),
        i <= skip_white(chars, i) < chars.len(),
        0 <= back_white(chars, i) <= i,
        0 <= back_class(chars, i, st) <= i,
        i <= extend_class(chars, i, st) < chars.len(),
    decreases chars.len() - i,
{
    lemma_walk_back(chars, i, st);
    if i < chars.len() - 1 {
        lemma_walk_bounds(chars, i + 1, st);
    }
}

/// The backward walks of the word motions stay at or before their start.
proof fn lemma_walk_back(chars: Seq<(Pos, char)>, i: int, st: CharState)
    requires
        0 <= i < chars.len(),
    ensures
        0 <= back_white(chars, i) <= i,
        0 <= back_class(chars, i, st) <= i,
    decreases i,
{
    if i > 0 {
        lemma_walk_back(chars, i - 1, st);
    }
}

/// The word motions land on a row of the document.
pub proof fn lemma_word_motion_rows(lines: Seq<Seq<char>>, p: Pos)
    requires
        lines.len() >= 1,
    ensures
        spec_next_word(lines, p).row < lines.len(),
        spec_prev_word(lines, p).row < lines.len(),
        spec_word_end(lines, p).row < lines.len(),
{
    let chars = indexed(lines);
    lemma_chars_upto_rows(lines, lines.len() as int);
    assert forall|k: int| 0 <= k < chars.len() implies (#[trigger] chars[k]).0.row
        < lines.len() by {
        if chars_upto(lines, lines.len() as int).len() != 0 {
            assert(chars[k] == chars_upto(lines, lines.len() as int)[k]);
        }
    }
    lemma_indexed_nonempty(lines);
    lemma_find_from_bounds(chars, bounded_pos(lines, p), 0);
    let i = pos_index(lines, p);
    assert(0 <= i < chars.len());
    lemma_walk_bounds(chars, i, class_of(chars[i].1));
    let a = skip_class(chars, i, class_of(chars[i].1));
    lemma_walk_bounds(chars, a, class_of(chars[a].1));
    if i > 0 {
        lemma_walk_bounds(chars, i - 1, class_of(chars[i - 1].1));
        let j = back_white(chars, i - 1);
        lemma_walk_bounds(chars, j, class_of(chars[j].1));
    }
    let start = if i < chars.len() - 1 {
        i + 1
    } else {
        i
    };
    lemma_walk_bounds(chars, start, class_of(chars[start].1));
    let j = skip_white(chars, start);
    lemma_walk_bounds(chars, j, class_of(chars[j].1));
}

/// A deletion keeps the row it starts on, unless it runs from the start of
/// a row below the first through the end of the last row, which then goes.
pub broadcast proof fn lemma_delete_keeps_row(lines: Seq<Seq<char>>, s: Pos, e: Pos)
    requires
        s.row < lines.len(),
    ensures
        #[trigger] spec_delete_lines(lines, s, e).len() >= s.row + 1 || (e.col
            == lines[e.row as int].len() && e.row + 1 == lines.len() && s.col == 0 && s.row > 0),
{
}

/// An insertion at a row of the document keeps every row.
pub broadcast proof fn lemma_insert_grows(lines: Seq<Seq<char>>, pos: Pos, s: Seq<char>)
    requires
        pos.row < lines.len(),
    ensures
        #[trigger] spec_insert(lines, pos, s).len() >= lines.len(),
        spec_insert_end(pos, s).row < spec_insert(lines, pos, s).len(),
{
    lemma_insert_len(lines, pos, s);
}

/// Joining at a row keeps that row, as long as the joins fit in `usize`.
pub proof fn lemma_join_times_keeps_row(lines: Seq<Seq<char>>, row: int, k: nat)
    requires
        0 <= row < lines.len(),
        !join_drops_row(lines, row),
        size(lines) + k <= usize::MAX,
    ensures
        row < join_times(lines, row, k).len(),
        k > 0 ==> join_times(lines, row, k)[row].len() >= 1,
        size(join_times(lines, row, k)) <= size(lines) + k,
    decreases k,
{
    if k > 0 {
        lemma_join_times_keeps_row(lines, row, (k - 1) as nat);
        let prev = join_times(lines, row, (k - 1) as nat);
        lemma_line_within_size(prev, row);
        lemma_size_split(lines, row);
        assert(prev.len() <= size(prev)) by {
            lemma_size_at_least_len(prev);
        }
        lemma_join_at(prev, row);
    }
}

/// The size of the lines is at least their number.
proof fn lemma_size_at_least_len(lines: Seq<Seq<char>>)
    ensures
        lines.len() <= size(lines),
    decreases lines.len(),
{
    if lines.len() > 0 {
        lemma_size_at_least_len(lines.drop_last());
    }
}

/// A document as values: its lines and its file path.
pub struct DocState {
    pub lines: Seq<Seq<char>>,
    pub path: Seq<char>,
}

/// An edit as `insert`, `delete` and `insert_line` make it.
pub enum Edit {
    Insert(Pos, Seq<char>),
    Delete(Pos, Pos),
    InsertLine(usize),
}

/// The document after `e`, as the `ensures` of `insert`, `delete` and
/// `insert_line` give it: the lines change, the path stays.
pub open spec fn apply_edit(d: DocState, e: Edit) -> DocState {
    DocState {
        lines: match e {
            Edit::Insert(p, s) => spec_insert(d.lines, p, s),
            Edit::Delete(a, b) => spec_delete_lines(d.lines, pos_min(a, b), pos_max(a, b)),
            Edit::InsertLine(r) => d.lines.insert(r as int, Seq::empty()),
        },
        path: d.path,
    }
}

/// The document after the edits, in order.
pub open spec fn apply_edits(d: DocState, edits: Seq<Edit>) -> DocState
    decreases edits.len(),
{
    if edits.len() == 0 {
        d
    } else {
        apply_edit(apply_edits(d, edits.drop_last()), edits.last())
    }
}

/// The document after `restore(snap)`, as its `ensures` gives it.
pub open spec fn restored(d: DocState, snap: Seq<String>) -> DocState {
    DocState { lines: view_lines(snap), path: d.path }
}

/// Edits keep the file path.
proof fn lemma_edits_keep_path(d: DocState, edits: Seq<Edit>)
    ensures
        apply_edits(d, edits).path == d.path,
    decreases edits.len(),
{
    if edits.len() > 0 {
        lemma_edits_keep_path(d, edits.drop_last());
    }
}

/// Restoring a snapshot, whatever edits were made since it was taken, gives
/// back the lines it was taken of, and the file path is the one the document
/// had then.
pub proof fn law_restore_after_edits(d: DocState, edits: Seq<Edit>, snap: Seq<String>)
    requires
        view_lines(snap) == d.lines,
    ensures
        restored(apply_edits(d, edits), snap) == d,
{
    lemma_edits_keep_path(d, edits);
}

/// `skip_class` stops at the first index from `i` on that is the last one or
/// whose character is not of class `st`.
pub proof fn lemma_skip_class_first_stop(chars: Seq<(Pos, char)>, i: int, st: CharState)
    requires
        0 <= i < chars.len(),
    ensures
        i <= skip_class(chars, i, st) < chars.len(),
        forall|k: int|
            i <= k < skip_class(chars, i, st) ==> k < chars.len() - 1 && class_matches(
                st,
                #[trigger] chars[k].1,
            ),
        skip_class(chars, i, st) == chars.len() - 1 || !class_matches(
            st,
            chars[skip_class(chars, i, st)].1,
        ),
    decreases chars.len() - i,
{
    if i < chars.len() - 1 && class_matches(st, chars[i].1) {
        lemma_skip_class_first_stop(chars, i + 1, st);
    }
}

/// `skip_white` stops at the first index from `i` on that is the last one or
/// whose character is not white space.
pub proof fn lemma_skip_white_first_stop(chars: Seq<(Pos, char)>, i: int)
    requires
        0 <= i < chars.len(),
    ensures
        i <= skip_white(chars, i) < chars.len(),
        forall|k: int|
            i <= k < skip_white(chars, i) ==> k < chars.len() - 1 && is_white_space(
                #[trigger] chars[k].1,
            ),
        skip_white(chars, i) == chars.len() - 1 || !is_white_space(chars[skip_white(chars, i)].1),
    decreases chars.len() - i,
{
    if i < chars.len() - 1 && is_white_space(chars[i].1) {
        lemma_skip_white_first_stop(chars, i + 1);
    }
}

/// `back_white` stops at the first index from `i` back that is 0 or whose
/// character is not white space.
pub proof fn lemma_back_white_first_stop(chars: Seq<(Pos, char)>, i: int)
    requires
        0 <= i < chars.len(),
    ensures
        0 <= back_white(chars, i) <= i,
        forall|k: int|
            back_white(chars, i) < k <= i ==> k > 0 && is_white_space(#[trigger] chars[k].1),
        back_white(chars, i) == 0 || !is_white_space(chars[back_white(chars, i)].1),
    decreases i,
{
    if i > 0 && is_white_space(chars[i].1) {
        lemma_back_white_first_stop(chars, i - 1);
    }
}

/// `back_class` stops at the first index from `i` back that is 0 or whose
/// preceding character is not of class `st`.
pub proof fn lemma_back_class_first_stop(chars: Seq<(Pos, char)>, i: int, st: CharState)
    requires
        0 <= i < chars.len(),
    ensures
        0 <= back_class(chars, i, st) <= i,
        forall|k: int|
            back_class(chars, i, st) < k <= i ==> k > 0 && class_matches(
                st,
                #[trigger] chars[k - 1].1,
            ),
        back_class(chars, i, st) == 0 || !class_matches(st, chars[back_class(chars, i, st) - 1].1),
    decreases i,
{
    if i > 0 && class_matches(st, chars[i - 1].1) {
        lemma_back_class_first_stop(chars, i - 1, st);
    }
}

/// `extend_class` stops at the first index from `i` on that is the last one
/// or whose following character is not of class `st`.
pub proof fn lemma_extend_class_first_stop(chars: Seq<(Pos, char)>, i: int, st: CharState)
    requires
        0 <= i < chars.len(),
    ensures
        i <= extend_class(chars, i, st) < chars.len(),
        forall|k: int|
            i <= k < extend_class(chars, i, st) ==> k < chars.len() - 1 && class_matches(
                st,
                #[trigger] chars[k + 1].1,
            ),
        extend_class(chars, i, st) == chars.len() - 1 || !class_matches(
            st,
            chars[extend_class(chars, i, st) + 1].1,
        ),
    decreases chars.len() - i,
{
    if i < chars.len() - 1 && class_matches(st, chars[i + 1].1) {
        lemma_extend_class_first_stop(chars, i + 1, st);
    }
}

/// What `next_word_index` is, directly: from `i`, past the run of
/// characters of the class of `chars[i]` and then past white space, to the
/// first character that is neither (or to the last character).
pub proof fn lemma_next_word_index_direct(chars: Seq<(Pos, char)>, i: int)
    requires
        0 <= i < chars.len(),
    ensures
        exists|a: int|
            #![trigger chars[a]]
            i <= a <= next_word_index(chars, i) < chars.len() && (forall|k: int|
                i <= k < a ==> class_matches(class_of(chars[i].1), #[trigger] chars[k].1)) && (a
                == chars.len() - 1 || !class_matches(class_of(chars[i].1), chars[a].1)) && (forall|
                k: int|
                a <= k < next_word_index(chars, i) ==> is_white_space(#[trigger] chars[k].1)) && (
            next_word_index(chars, i) == chars.len() - 1 || !is_white_space(
                chars[next_word_index(chars, i)].1,
            )),
{
    let st = class_of(chars[i].1);
    let a = skip_class(chars, i, st);
    lemma_skip_class_first_stop(chars, i, st);
    lemma_skip_white_first_stop(chars, a);
    assert(chars[a] == chars[a]);
}

/// What `prev_word_index` is, directly: from the index before `i`, back over
/// white space to a character, then back to the start of that character's run
/// of its class; index 0 stays.
pub proof fn lemma_prev_word_index_direct(chars: Seq<(Pos, char)>, i: int)
    requires
        0 < i < chars.len(),
    ensures
        exists|b: int|
            #![trigger chars[b]]
            0 <= prev_word_index(chars, i) <= b <= i - 1 && (forall|k: int|
                b < k <= i - 1 ==> is_white_space(#[trigger] chars[k].1)) && (b == 0
                || !is_white_space(chars[b].1)) && (forall|k: int|
                prev_word_index(chars, i) < k <= b ==> class_matches(
                    class_of(chars[b].1),
                    #[trigger] chars[k - 1].1,
                )) && (prev_word_index(chars, i) == 0 || !class_matches(
                class_of(chars[b].1),
                chars[prev_word_index(chars, i) - 1].1,
            )),
{
    let b = back_white(chars, i - 1);
    lemma_back_white_first_stop(chars, i - 1);
    lemma_back_class_first_stop(chars, b, class_of(chars[b].1));
    assert(chars[b] == chars[b]);
}

/// What `word_end_index` is, directly: from the index after `i` (or `i`, at
/// the last), past white space to a character, then to the last character of
/// that character's run of its class.
pub proof fn lemma_word_end_index_direct(chars: Seq<(Pos, char)>, i: int)
    requires
        0 <= i < chars.len(),
    ensures
        exists|j: int|
            #![trigger chars[j]]
            i <= j <= word_end_index(chars, i) < chars.len() && (i < chars.len() - 1 ==> i < j)
                && (forall|k: int|
                (if i < chars.len() - 1 {
                    i + 1
                } else {
                    i
                }) <= k < j ==> is_white_space(#[trigger] chars[k].1)) && (j == chars.len() - 1
                || !is_white_space(chars[j].1)) && (forall|k: int|
                j <= k < word_end_index(chars, i) ==> class_matches(
                    class_of(chars[j].1),
                    #[trigger] chars[k + 1].1,
                )) && (word_end_index(chars, i) == chars.len() - 1 || !class_matches(
                class_of(chars[j].1),
                chars[word_end_index(chars, i) + 1].1,
            )),
{
    let start = if i < chars.len() - 1 {
        i + 1
    } else {
        i
    };
    let j = skip_white(chars, start);
    lemma_skip_white_first_stop(chars, start);
    lemma_extend_class_first_stop(chars, j, class_of(chars[j].1));
    assert(chars[j] == chars[j]);
}

/// `joined` from its first line: that line and its newline, then the rest.
pub proof fn lemma_joined_front(lines: Seq<Seq<char>>, a: int, b: int)
    requires
        a < b,
    ensures
        joined(lines, a, b) == lines[a] + nl() + joined(lines, a + 1, b),
    decreases b - a,
{
    if a + 1 < b {
        lemma_joined_front(lines, a, b - 1);
        assert(joined(lines, a, b) =~= lines[a] + nl() + joined(lines, a + 1, b));
    } else {
        assert(joined(lines, a + 1, b) == Seq::<char>::empty());
        assert(joined(lines, a, a) == Seq::<char>::empty());
        assert(joined(lines, a, b) =~= lines[a] + nl() + joined(lines, a + 1, b));
    }
}

} // verus!
