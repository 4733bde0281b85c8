//! Screen cells, the color theme, and the theme file format.
use vstd::prelude::*;

use crate::document::Pos;
use crate::text::{
    chars_of, decimal, is_white_space, is_whitespace, move_seq, push_char, push_decimal, push_move,
    push_sgr, split_on,
    split_chars, str_eq, string_of,
};

verus! {

/// The named colors a cell refers to; the theme gives each a value.
#[derive(Clone, PartialEq, Copy, Debug, Eq, Hash, Structural)]
pub enum Color {
    Accent,
    Cursor,
    Foreground,
    Background,
    SelectionForeground,
    SelectionBackground,
    CurrentLine,
    CurrentLineNumber,
    BarForeground,
    BarBackground,
    FileName,
    Whitespace,
    Color0,
    Color1,
    Color2,
    Color3,
    Color4,
    Color5,
    Color6,
    Color7,
    Color8,
    Color9,
    Color10,
    Color11,
    Color12,
    Color13,
    Color14,
    Color15,
}

/// A color value: the terminal's default, or red, green and blue.
#[derive(Clone, PartialEq, Eq, Copy, Debug, Structural)]
pub enum ThemeColor {
    Default,
    Rgb(u8, u8, u8),
}

/// The values of the named colors.
#[derive(Clone, Debug)]
pub struct Theme {
    accent: ThemeColor,
    cursor: ThemeColor,
    foreground: ThemeColor,
    background: ThemeColor,
    selection_foreground: ThemeColor,
    selection_background: ThemeColor,
    current_line: ThemeColor,
    current_line_number: ThemeColor,
    bar_foreground: ThemeColor,
    bar_background: ThemeColor,
    file_name: ThemeColor,
    whitespace: ThemeColor,
    colors: [ThemeColor; 16],
}

/// The palette color with index `i` (`i < 16`).
pub open spec fn palette(i: nat) -> Color {
    if i == 0 {
        Color::Color0
    } else if i == 1 {
        Color::Color1
    } else if i == 2 {
        Color::Color2
    } else if i == 3 {
        Color::Color3
    } else if i == 4 {
        Color::Color4
    } else if i == 5 {
        Color::Color5
    } else if i == 6 {
        Color::Color6
    } else if i == 7 {
        Color::Color7
    } else if i == 8 {
        Color::Color8
    } else if i == 9 {
        Color::Color9
    } else if i == 10 {
        Color::Color10
    } else if i == 11 {
        Color::Color11
    } else if i == 12 {
        Color::Color12
    } else if i == 13 {
        Color::Color13
    } else if i == 14 {
        Color::Color14
    } else {
        Color::Color15
    }
}

/// The built-in value of each color.
pub open spec fn default_color(c: Color) -> ThemeColor {
    match c {
        Color::Accent => ThemeColor::Rgb(127, 127, 255),
        Color::Cursor => ThemeColor::Default,
        Color::Foreground => ThemeColor::Rgb(235, 219, 178),
        Color::Background => ThemeColor::Rgb(40, 40, 40),
        Color::SelectionForeground => ThemeColor::Rgb(251, 241, 199),
        Color::SelectionBackground => ThemeColor::Rgb(80, 73, 69),
        Color::CurrentLine => ThemeColor::Rgb(60, 56, 54),
        Color::CurrentLineNumber => ThemeColor::Rgb(250, 189, 47),
        Color::BarForeground => ThemeColor::Rgb(235, 219, 178),
        Color::BarBackground => ThemeColor::Rgb(80, 73, 69),
        Color::FileName => ThemeColor::Rgb(250, 189, 47),
        Color::Whitespace => ThemeColor::Rgb(102, 92, 84),
        Color::Color0 => ThemeColor::Rgb(40, 40, 40),
        Color::Color1 => ThemeColor::Rgb(204, 36, 29),
        Color::Color2 => ThemeColor::Rgb(152, 151, 26),
        Color::Color3 => ThemeColor::Rgb(215, 153, 33),
        Color::Color4 => ThemeColor::Rgb(69, 133, 136),
        Color::Color5 => ThemeColor::Rgb(177, 98, 134),
        Color::Color6 => ThemeColor::Rgb(104, 157, 106),
        Color::Color7 => ThemeColor::Rgb(168, 153, 132),
        Color::Color8 => ThemeColor::Rgb(146, 131, 116),
        Color::Color9 => ThemeColor::Rgb(251, 73, 52),
        Color::Color10 => ThemeColor::Rgb(184, 187, 38),
        Color::Color11 => ThemeColor::Rgb(250, 189, 47),
        Color::Color12 => ThemeColor::Rgb(131, 165, 152),
        Color::Color13 => ThemeColor::Rgb(211, 134, 155),
        Color::Color14 => ThemeColor::Rgb(142, 192, 124),
        Color::Color15 => ThemeColor::Rgb(235, 219, 178),
    }
}

/// An ASCII decimal digit.
pub open spec fn is_digit(c: char) -> bool {
    '0' <= c <= '9'
}

/// The value of a decimal digit character.
pub open spec fn digit_value(c: char) -> nat {
    (c as u32 - '0' as u32) as nat
}

/// The value of a string of decimal digits.
pub open spec fn digits_value(s: Seq<char>) -> nat
    decreases s.len(),
{
    if s.len() == 0 {
        0
    } else {
        digits_value(s.drop_last()) * 10 + digit_value(s.last())
    }
}

/// The palette index that `usize::from_str` reads from `s` (an optional `+`,
/// then at least one digit), when it is below 16.
pub open spec fn palette_index(s: Seq<char>) -> Option<nat> {
    let d = strip_plus(s);
    if d.len() > 0 && (forall|i: int| 0 <= i < d.len() ==> is_digit(#[trigger] d[i]))
        && digits_value(d) < 16 {
        Some(digits_value(d))
    } else {
        None
    }
}

/// `s` without a leading `+`.
pub open spec fn strip_plus(s: Seq<char>) -> Seq<char> {
    if s.len() > 0 && s[0] == '+' {
        s.drop_first()
    } else {
        s
    }
}

/// The color a theme key names, if any.
pub open spec fn key_slot(key: Seq<char>) -> Option<Color> {
    if key == "accent"@ {
        Some(Color::Accent)
    } else if key == "cursor"@ {
        Some(Color::Cursor)
    } else if key == "foreground"@ || key == "fg"@ {
        Some(Color::Foreground)
    } else if key == "background"@ || key == "bg"@ {
        Some(Color::Background)
    } else if key == "selectionforeground"@ || key == "selectionfg"@ {
        Some(Color::SelectionForeground)
    } else if key == "selectionbackground"@ || key == "selectionbg"@ {
        Some(Color::SelectionBackground)
    } else if key == "currentline"@ || key == "cursorline"@ {
        Some(Color::CurrentLine)
    } else if key == "currentlinenumber"@ || key == "cursorlinenumber"@ {
        Some(Color::CurrentLineNumber)
    } else if key == "barforeground"@ || key == "barfg"@ || key == "statusforeground"@ || key
        == "statusfg"@ {
        Some(Color::BarForeground)
    } else if key == "barbackground"@ || key == "barbg"@ || key == "statusbackground"@ || key
        == "statusbg"@ {
        Some(Color::BarBackground)
    } else if key == "filename"@ || key == "fileforeground"@ || key == "filefg"@ {
        Some(Color::FileName)
    } else if key == "whitespace"@ || key == "space"@ || key == "spaces"@ || key
        == "listchars"@ {
        Some(Color::Whitespace)
    } else if key.len() >= 5 && key.take(5) == seq!['c', 'o', 'l', 'o', 'r'] {
        match palette_index(key.skip(5)) {
            Some(i) => Some(palette(i)),
            None => None,
        }
    } else {
        None
    }
}

impl Theme {
    /// The value the theme gives `c`.
    pub closed spec fn color_of(&self, c: Color) -> ThemeColor {
        match c {
            Color::Accent => self.accent,
            Color::Cursor => self.cursor,
            Color::Foreground => self.foreground,
            Color::Background => self.background,
            Color::SelectionForeground => self.selection_foreground,
            Color::SelectionBackground => self.selection_background,
            Color::CurrentLine => self.current_line,
            Color::CurrentLineNumber => self.current_line_number,
            Color::BarForeground => self.bar_foreground,
            Color::BarBackground => self.bar_background,
            Color::FileName => self.file_name,
            Color::Whitespace => self.whitespace,
            Color::Color0 => self.colors@[0],
            Color::Color1 => self.colors@[1],
            Color::Color2 => self.colors@[2],
            Color::Color3 => self.colors@[3],
            Color::Color4 => self.colors@[4],
            Color::Color5 => self.colors@[5],
            Color::Color6 => self.colors@[6],
            Color::Color7 => self.colors@[7],
            Color::Color8 => self.colors@[8],
            Color::Color9 => self.colors@[9],
            Color::Color10 => self.colors@[10],
            Color::Color11 => self.colors@[11],
            Color::Color12 => self.colors@[12],
            Color::Color13 => self.colors@[13],
            Color::Color14 => self.colors@[14],
            Color::Color15 => self.colors@[15],
        }
    }

    /// The value the theme gives `color`.
    pub fn get(&self, color: Color) -> (r: ThemeColor)
        ensures
            r == self.color_of(color),
    {
        match color {
            Color::Accent => self.accent,
            Color::Cursor => self.cursor,
            Color::Foreground => self.foreground,
            Color::Background => self.background,
            Color::SelectionForeground => self.selection_foreground,
            Color::SelectionBackground => self.selection_background,
            Color::CurrentLine => self.current_line,
            Color::CurrentLineNumber => self.current_line_number,
            Color::BarForeground => self.bar_foreground,
            Color::BarBackground => self.bar_background,
            Color::FileName => self.file_name,
            Color::Whitespace => self.whitespace,
            Color::Color0 => self.colors[0],
            Color::Color1 => self.colors[1],
            Color::Color2 => self.colors[2],
            Color::Color3 => self.colors[3],
            Color::Color4 => self.colors[4],
            Color::Color5 => self.colors[5],
            Color::Color6 => self.colors[6],
            Color::Color7 => self.colors[7],
            Color::Color8 => self.colors[8],
            Color::Color9 => self.colors[9],
            Color::Color10 => self.colors[10],
            Color::Color11 => self.colors[11],
            Color::Color12 => self.colors[12],
            Color::Color13 => self.colors[13],
            Color::Color14 => self.colors[14],
            Color::Color15 => self.colors[15],
        }
    }

    /// Gives the color that `key` names (see `key_slot`) the value `color`;
    /// a key that names none changes nothing.
    pub fn set(&mut self, key: &str, color: ThemeColor)
        ensures
            forall|c: Color|
                #![trigger final(self).color_of(c)]
                final(self).color_of(c) == if key_slot(key@) == Some(c) {
                    color
                } else {
                    old(self).color_of(c)
                },
    {
        if str_eq(key, "accent") {
            self.accent = color;
        } else if str_eq(key, "cursor") {
            self.cursor = color;
        } else if str_eq(key, "foreground") || str_eq(key, "fg") {
            self.foreground = color;
        } else if str_eq(key, "background") || str_eq(key, "bg") {
            self.background = color;
        } else if str_eq(key, "selectionforeground") || str_eq(key, "selectionfg") {
            self.selection_foreground = color;
        } else if str_eq(key, "selectionbackground") || str_eq(key, "selectionbg") {
            self.selection_background = color;
        } else if str_eq(key, "currentline") || str_eq(key, "cursorline") {
            self.current_line = color;
        } else if str_eq(key, "currentlinenumber") || str_eq(key, "cursorlinenumber") {
            self.current_line_number = color;
        } else if str_eq(key, "barforeground") || str_eq(key, "barfg") || str_eq(
            key,
            "statusforeground",
        ) || str_eq(key, "statusfg") {
            self.bar_foreground = color;
        } else if str_eq(key, "barbackground") || str_eq(key, "barbg") || str_eq(
            key,
            "statusbackground",
        ) || str_eq(key, "statusbg") {
            self.bar_background = color;
        } else if str_eq(key, "filename") || str_eq(key, "fileforeground") || str_eq(
            key,
            "filefg",
        ) {
            self.file_name = color;
        } else if str_eq(key, "whitespace") || str_eq(key, "space") || str_eq(key, "spaces")
            || str_eq(key, "listchars") {
            self.whitespace = color;
        } else {
            let v = chars_of(key);
            if v.len() >= 5 && v[0] == 'c' && v[1] == 'o' && v[2] == 'l' && v[3] == 'o' && v[4]
                == 'r' {
                proof {
                    assert(key@.take(5) =~= seq!['c', 'o', 'l', 'o', 'r']);
                }
                if let Some(index) = parse_palette_index(&v, 5) {
                    proof {
                        assert(v@.subrange(5, v@.len() as int) =~= key@.skip(5));
                    }
                    self.colors[index] = color;
                }
            } else {
                proof {
                    if key@.len() >= 5 {
                        assert(!(key@.take(5) =~= seq!['c', 'o', 'l', 'o', 'r']) ==> key@.take(5)
                            != seq!['c', 'o', 'l', 'o', 'r']);
                        if key@.take(5) == seq!['c', 'o', 'l', 'o', 'r'] {
                            assert(key@.take(5)[0] == 'c');
                            assert(key@.take(5)[1] == 'o');
                            assert(key@.take(5)[2] == 'l');
                            assert(key@.take(5)[3] == 'o');
                            assert(key@.take(5)[4] == 'r');
                        }
                    }
                }
            }
        }
    }
}

/// Reads the palette index from `v[start..]`; see `palette_index`.
fn parse_palette_index(v: &Vec<char>, start: usize) -> (r: Option<usize>)
    requires
        start <= v@.len(),
    ensures
        r matches Some(i) ==> palette_index(v@.skip(start as int)) == Some(i as nat),
        r is None ==> palette_index(v@.skip(start as int)) is None,
{
    let ghost s = v@.skip(start as int);
    let mut i = start;
    if i < v.len() && v[i] == '+' {
        i += 1;
    }
    let ghost d = v@.skip(i as int);
    proof {
        if s.len() > 0 && s[0] == '+' {
            assert(s.drop_first() =~= d);
        } else {
            assert(s =~= d);
        }
    }
    if i == v.len() {
        return None;
    }
    let first = i;
    let mut value: usize = 0;
    while i < v.len()
        invariant
            first <= i <= v@.len(),
            d == v@.skip(first as int),
            s == v@.skip(start as int),
            d == strip_plus(s),
            value <= 16,
            value == min16(digits_value(v@.subrange(first as int, i as int))),
            forall|j: int| first <= j < i ==> is_digit(#[trigger] v@[j]),
        decreases v@.len() - i,
    {
        let c = v[i];
        if !('0' <= c && c <= '9') {
            proof {
                assert(d[i - first] == c);
                assert(!is_digit(strip_plus(s)[i - first]));
            }
            return None;
        }
        let dv = (c as u32 - '0' as u32) as usize;
        let ghost before = v@.subrange(first as int, i as int);
        proof {
            assert(v@.subrange(first as int, i + 1).drop_last() =~= before);
            lemma_min16_step(digits_value(before), dv as nat);
        }
        value = if value * 10 + dv < 16 {
            value * 10 + dv
        } else {
            16
        };
        i += 1;
    }
    proof {
        assert(v@.subrange(first as int, v@.len() as int) =~= d);
        assert forall|j: int| 0 <= j < d.len() implies is_digit(#[trigger] d[j]) by {
            assert(d[j] == v@[first + j]);
        }
    }
    if value < 16 {
        Some(value)
    } else {
        None
    }
}

/// `min(n, 16)`.
pub open spec fn min16(n: nat) -> nat {
    if n < 16 {
        n
    } else {
        16
    }
}

proof fn lemma_min16_step(v: nat, d: nat)
    requires
        d < 10,
    ensures
        min16(v * 10 + d) == min16(min16(v) * 10 + d),
{
    if v >= 16 {
        assert(v * 10 + d >= 16) by (nonlinear_arith)
            requires
                v >= 16,
        ;
    }
}

impl Default for Theme {
    fn default() -> (t: Self)
        ensures
            forall|c: Color| #[trigger] t.color_of(c) == default_color(c),
    {
        let t = Theme {
            accent: ThemeColor::Rgb(127, 127, 255),
            cursor: ThemeColor::Default,
            foreground: ThemeColor::Rgb(235, 219, 178),
            background: ThemeColor::Rgb(40, 40, 40),
            selection_foreground: ThemeColor::Rgb(251, 241, 199),
            selection_background: ThemeColor::Rgb(80, 73, 69),
            current_line: ThemeColor::Rgb(60, 56, 54),
            current_line_number: ThemeColor::Rgb(250, 189, 47),
            bar_foreground: ThemeColor::Rgb(235, 219, 178),
            bar_background: ThemeColor::Rgb(80, 73, 69),
            file_name: ThemeColor::Rgb(250, 189, 47),
            whitespace: ThemeColor::Rgb(102, 92, 84),
            colors: [
                ThemeColor::Rgb(40, 40, 40),
                ThemeColor::Rgb(204, 36, 29),
                ThemeColor::Rgb(152, 151, 26),
                ThemeColor::Rgb(215, 153, 33),
                ThemeColor::Rgb(69, 133, 136),
                ThemeColor::Rgb(177, 98, 134),
                ThemeColor::Rgb(104, 157, 106),
                ThemeColor::Rgb(168, 153, 132),
                ThemeColor::Rgb(146, 131, 116),
                ThemeColor::Rgb(251, 73, 52),
                ThemeColor::Rgb(184, 187, 38),
                ThemeColor::Rgb(250, 189, 47),
                ThemeColor::Rgb(131, 165, 152),
                ThemeColor::Rgb(211, 134, 155),
                ThemeColor::Rgb(142, 192, 124),
                ThemeColor::Rgb(235, 219, 178),
            ],
        };
        proof {
            assert forall|c: Color| #[trigger] t.color_of(c) == default_color(c) by {
                match c {
                    Color::Color0 => assert(t.colors@[0] == ThemeColor::Rgb(40, 40, 40)),
                    _ => {},
                }
            }
        }
        t
    }
}


/// One screen cell: a character, its colors, and whether it is italic or bold.
#[derive(Clone, PartialEq, Eq, Copy, Debug, Structural)]
pub struct Cell {
    pub char: char,
    pub fg: Color,
    pub bg: Color,
    pub italic: bool,
    pub bold: bool,
}

/// The escape sequence that selects `color` for the text (`foreground`) or the background.
pub open spec fn ansi_seq(color: ThemeColor, foreground: bool) -> Seq<char> {
    let layer = if foreground {
        '3'
    } else {
        '4'
    };
    match color {
        ThemeColor::Default => seq!['\x1b', '[', layer, '9', 'm'],
        ThemeColor::Rgb(r, g, b) => seq!['\x1b', '[', layer, '8', ';', '2', ';'] + decimal(
            r as nat,
        ) + seq![';'] + decimal(g as nat) + seq![';'] + decimal(b as nat) + seq!['m'],
    }
}

/// What `Cell::build` writes: move to `pos`, bold and italic if set, the two
/// colors, the character, then a reset.
pub open spec fn cell_seq(cell: Cell, pos: Pos, theme: Theme) -> Seq<char> {
    move_seq(pos.row as nat, pos.col as nat) + (if cell.bold {
        seq!['\x1b', '[', '1', 'm']
    } else {
        Seq::empty()
    }) + (if cell.italic {
        seq!['\x1b', '[', '3', 'm']
    } else {
        Seq::empty()
    }) + ansi_seq(theme.color_of(cell.fg), true) + ansi_seq(theme.color_of(cell.bg), false)
        + seq![cell.char] + seq!['\x1b', '[', '0', 'm']
}

impl Default for Cell {
    fn default() -> (c: Self)
        ensures
            c == (Cell {
                char: ' ',
                fg: Color::Foreground,
                bg: Color::Background,
                italic: false,
                bold: false,
            }),
    {
        Cell { char: ' ', fg: Color::Foreground, bg: Color::Background, italic: false, bold: false }
    }
}

impl Cell {
    /// A plain cell showing `char`: default colors, neither italic nor bold.
    pub fn new(char: char) -> (c: Cell)
        ensures
            c == (Cell {
                char,
                fg: Color::Foreground,
                bg: Color::Background,
                italic: false,
                bold: false,
            }),
    {
        Cell { char, fg: Color::Foreground, bg: Color::Background, italic: false, bold: false }
    }

    /// The escape sequence that draws the cell at `pos`; see `cell_seq`.
    pub fn build(&self, pos: Pos, theme: &Theme) -> (s: String)
        ensures
            s@ == cell_seq(*self, pos, *theme),
    {
        let mut out = String::new();
        push_move(&mut out, pos.row, pos.col);
        let ghost a = out@;
        if self.bold {
            push_sgr(&mut out, '1');
        }
        if self.italic {
            push_sgr(&mut out, '3');
        }
        out.append(ansi_color(theme.get(self.fg), true).as_str());
        out.append(ansi_color(theme.get(self.bg), false).as_str());
        push_char(&mut out, self.char);
        push_sgr(&mut out, '0');
        proof {
            assert(a =~= move_seq(pos.row as nat, pos.col as nat));
            assert(out@ =~= cell_seq(*self, pos, *theme));
        }
        out
    }

    /// Gives the cell the selection colors.
    pub fn selected(&mut self) -> (r: &mut Self)
        ensures
            *r == (Cell {
                fg: Color::SelectionForeground,
                bg: Color::SelectionBackground,
                ..*old(self)
            }),
            *final(self) == *final(r),
    {
        self.fg = Color::SelectionForeground;
        self.bg = Color::SelectionBackground;
        self
    }
}

/// The escape sequence for `color` as text color (`foreground`) or background.
pub fn ansi_color(color: ThemeColor, foreground: bool) -> (s: String)
    ensures
        s@ == ansi_seq(color, foreground),
{
    let layer = if foreground {
        '3'
    } else {
        '4'
    };
    let mut s = String::new();
    push_char(&mut s, '\x1b');
    push_char(&mut s, '[');
    push_char(&mut s, layer);
    match color {
        ThemeColor::Default => {
            push_char(&mut s, '9');
            push_char(&mut s, 'm');
        },
        ThemeColor::Rgb(r, g, b) => {
            push_char(&mut s, '8');
            push_char(&mut s, ';');
            push_char(&mut s, '2');
            push_char(&mut s, ';');
            push_decimal(&mut s, r as usize);
            push_char(&mut s, ';');
            push_decimal(&mut s, g as usize);
            push_char(&mut s, ';');
            push_decimal(&mut s, b as usize);
            push_char(&mut s, 'm');
        },
    }
    proof {
        assert(s@ =~= ansi_seq(color, foreground));
    }
    s
}

/// The ASCII lowercase of `c` (other characters unchanged).
pub open spec fn ascii_lower(c: char) -> char {
    if 'A' <= c <= 'Z' {
        ((c as u32) + 32) as char
    } else {
        c
    }
}

fn lower(c: char) -> (r: char)
    ensures
        r == ascii_lower(c),
{
    if 'A' <= c && c <= 'Z' {
        ((c as u8) + 32) as char
    } else {
        c
    }
}

/// A theme key reduced to its ASCII letters and digits, in lowercase.
pub open spec fn spec_normalize_key(k: Seq<char>) -> Seq<char>
    decreases k.len(),
{
    if k.len() == 0 {
        Seq::empty()
    } else {
        let rest = spec_normalize_key(k.drop_last());
        if crate::text::is_ascii_alnum(k.last()) {
            rest.push(ascii_lower(k.last()))
        } else {
            rest
        }
    }
}

/// Keeps the ASCII letters and digits of `key`, lowercased.
pub fn normalize_key(key: &str) -> (r: String)
    ensures
        r@ == spec_normalize_key(key@),
{
    let v = chars_of(key);
    let mut r = String::new();
    let mut i: usize = 0;
    while i < v.len()
        invariant
            v@ == key@,
            i <= v@.len(),
            r@ == spec_normalize_key(v@.take(i as int)),
        decreases v@.len() - i,
    {
        let c = v[i];
        proof {
            assert(v@.take(i + 1).drop_last() =~= v@.take(i as int));
        }
        if ('a' <= c && c <= 'z') || ('A' <= c && c <= 'Z') || ('0' <= c && c <= '9') {
            push_char(&mut r, lower(c));
        }
        i += 1;
    }
    proof {
        assert(v@.take(v@.len() as int) =~= key@);
    }
    r
}

/// What `clean_value` keeps of `v` before trimming, the quote still open,
/// and whether a comment has begun: a `#` outside quotes ends the value,
/// quote characters open and close quotes and are dropped.
pub open spec fn clean_state(v: Seq<char>) -> (Seq<char>, Option<char>, bool)
    decreases v.len(),
{
    if v.len() == 0 {
        (Seq::empty(), None, false)
    } else {
        let (acc, quote, stopped) = clean_state(v.drop_last());
        let ch = v.last();
        if stopped {
            (acc, quote, stopped)
        } else {
            match quote {
                None => if ch == '#' {
                    (acc, quote, true)
                } else if ch == '"' || ch == '\'' {
                    (acc, Some(ch), false)
                } else {
                    (acc.push(ch), quote, false)
                },
                Some(active) => if ch == active {
                    (acc, None, false)
                } else {
                    (acc.push(ch), quote, false)
                },
            }
        }
    }
}

/// `s` without leading White_Space.
pub open spec fn trim_start(s: Seq<char>) -> Seq<char>
    decreases s.len(),
{
    if s.len() > 0 && is_white_space(s[0]) {
        trim_start(s.drop_first())
    } else {
        s
    }
}

/// `s` without trailing White_Space.
pub open spec fn trim_end(s: Seq<char>) -> Seq<char>
    decreases s.len(),
{
    if s.len() > 0 && is_white_space(s.last()) {
        trim_end(s.drop_last())
    } else {
        s
    }
}

/// `str::trim`: leading and trailing White_Space removed.
pub open spec fn trim(s: Seq<char>) -> Seq<char> {
    trim_end(trim_start(s))
}

/// A theme value with its comment and quotes removed, trimmed.
pub open spec fn spec_clean_value(v: Seq<char>) -> Seq<char> {
    trim(clean_state(v).0)
}

/// The characters of `v[a..b]` trimmed; see `trim`.
fn trim_range(v: &Vec<char>, a: usize, b: usize) -> (r: String)
    requires
        a <= b <= v@.len(),
    ensures
        r@ == trim(v@.subrange(a as int, b as int)),
{
    let ghost s = v@.subrange(a as int, b as int);
    let mut i = a;
    while i < b && is_whitespace(v[i])
        invariant
            a <= i <= b <= v@.len(),
            trim_start(s) == trim_start(v@.subrange(i as int, b as int)),
        decreases b - i,
    {
        proof {
            assert(v@.subrange(i + 1, b as int) =~= v@.subrange(i as int, b as int).drop_first());
        }
        i += 1;
    }
    let ghost t = v@.subrange(i as int, b as int);
    proof {
        assert(trim_start(t) == t);
    }
    let mut j = b;
    while j > i && is_whitespace(v[j - 1])
        invariant
            i <= j <= b <= v@.len(),
            trim_end(t) == trim_end(v@.subrange(i as int, j as int)),
        decreases j,
    {
        proof {
            assert(v@.subrange(i as int, j - 1) =~= v@.subrange(i as int, j as int).drop_last());
        }
        j -= 1;
    }
    string_of(v, i, j)
}

/// Removes a trailing comment and the quotes from a theme value, then trims it.
pub fn clean_value(value: &str) -> (r: String)
    ensures
        r@ == spec_clean_value(value@),
{
    let v = chars_of(value);
    let mut cleaned: Vec<char> = Vec::new();
    let mut quote: Option<char> = None;
    let mut i: usize = 0;
    while i < v.len()
        invariant
            v@ == value@,
            i <= v@.len(),
            clean_state(v@.take(i as int)) == (cleaned@, quote, false),
        decreases v@.len() - i,
    {
        let ch = v[i];
        proof {
            assert(v@.take(i + 1).drop_last() =~= v@.take(i as int));
        }
        match quote {
            None => {
                if ch == '#' {
                    proof {
                        assert(v@.take(i + 1).last() == ch);
                        assert(clean_state(v@.take(i + 1)) == (cleaned@, quote, true));
                        lemma_clean_stopped(v@, (i + 1) as int);
                        assert(v@.take(v@.len() as int) =~= v@);
                        assert(cleaned@.subrange(0, cleaned@.len() as int) =~= cleaned@);
                    }
                    return trim_range(&cleaned, 0, cleaned.len());
                } else if ch == '"' || ch == '\'' {
                    quote = Some(ch);
                } else {
                    cleaned.push(ch);
                }
            },
            Some(active) => {
                if ch == active {
                    quote = None;
                } else {
                    cleaned.push(ch);
                }
            },
        }
        i += 1;
    }
    proof {
        assert(v@.take(v@.len() as int) =~= v@);
        assert(cleaned@.subrange(0, cleaned@.len() as int) =~= cleaned@);
    }
    trim_range(&cleaned, 0, cleaned.len())
}

/// Once a comment has begun, the rest of the value changes nothing.
proof fn lemma_clean_stopped(v: Seq<char>, k: int)
    requires
        0 <= k <= v.len(),
        clean_state(v.take(k)).2,
    ensures
        clean_state(v) == clean_state(v.take(k)),
    decreases v.len() - k,
{
    if k < v.len() {
        assert(v.take(k + 1).drop_last() =~= v.take(k));
        lemma_clean_stopped(v, k + 1);
    } else {
        assert(v.take(k) =~= v);
    }
}


/// `s` and `t` are equal up to ASCII case.
pub open spec fn eq_ignore_ascii_case(s: Seq<char>, t: Seq<char>) -> bool {
    s.len() == t.len() && forall|i: int| 0 <= i < s.len() ==> ascii_lower(#[trigger] s[i])
        == ascii_lower(t[i])
}

/// An ASCII hexadecimal digit.
pub open spec fn is_hex(c: char) -> bool {
    ('0' <= c <= '9') || ('a' <= c <= 'f') || ('A' <= c <= 'F')
}

/// The value of a hexadecimal digit.
pub open spec fn hex_value(c: char) -> nat {
    if '0' <= c <= '9' {
        (c as u32 - '0' as u32) as nat
    } else if 'a' <= c <= 'f' {
        (c as u32 - 'a' as u32 + 10) as nat
    } else {
        (c as u32 - 'A' as u32 + 10) as nat
    }
}

/// A color written `#RRGGBB` in hexadecimal.
pub open spec fn spec_parse_rgb(v: Seq<char>) -> Option<(u8, u8, u8)> {
    if v.len() == 7 && v[0] == '#' && (forall|i: int| 1 <= i < 7 ==> is_hex(#[trigger] v[i])) {
        Some(
            (
                (hex_value(v[1]) * 16 + hex_value(v[2])) as u8,
                (hex_value(v[3]) * 16 + hex_value(v[4])) as u8,
                (hex_value(v[5]) * 16 + hex_value(v[6])) as u8,
            ),
        )
    } else {
        None
    }
}

/// A theme value: `none` or `default` in any case, or `#RRGGBB`.
pub open spec fn spec_parse_color(v: Seq<char>) -> Option<ThemeColor> {
    if eq_ignore_ascii_case(v, seq!['n', 'o', 'n', 'e']) || eq_ignore_ascii_case(
        v,
        seq!['d', 'e', 'f', 'a', 'u', 'l', 't'],
    ) {
        Some(ThemeColor::Default)
    } else {
        match spec_parse_rgb(v) {
            Some((r, g, b)) => Some(ThemeColor::Rgb(r, g, b)),
            None => None,
        }
    }
}

/// Whether `v` equals `word` (lowercase ASCII letters) up to ASCII case.
fn eq_ignore_case_chars(v: &Vec<char>, word: &Vec<char>) -> (r: bool)
    ensures
        r == eq_ignore_ascii_case(v@, word@),
{
    if v.len() != word.len() {
        return false;
    }
    let mut i: usize = 0;
    while i < v.len()
        invariant
            v@.len() == word@.len(),
            i <= v@.len(),
            forall|j: int| 0 <= j < i ==> ascii_lower(#[trigger] v@[j]) == ascii_lower(word@[j]),
        decreases v@.len() - i,
    {
        if lower(v[i]) != lower(word[i]) {
            return false;
        }
        i += 1;
    }
    true
}

fn hex_digit(c: char) -> (r: Option<u8>)
    ensures
        r matches Some(d) ==> is_hex(c) && d == hex_value(c) && d < 16,
        r is None ==> !is_hex(c),
{
    if '0' <= c && c <= '9' {
        Some((c as u32 - '0' as u32) as u8)
    } else if 'a' <= c && c <= 'f' {
        Some((c as u32 - 'a' as u32 + 10) as u8)
    } else if 'A' <= c && c <= 'F' {
        Some((c as u32 - 'A' as u32 + 10) as u8)
    } else {
        None
    }
}

/// Reads `#RRGGBB`; see `spec_parse_rgb`.
pub fn parse_rgb(value: &str) -> (r: Option<(u8, u8, u8)>)
    ensures
        r == spec_parse_rgb(value@),
{
    let v = chars_of(value);
    if v.len() != 7 || v[0] != '#' {
        return None;
    }
    let mut digits: Vec<u8> = Vec::new();
    let mut i: usize = 1;
    while i < 7
        invariant
            v@ == value@,
            v@.len() == 7,
            1 <= i <= 7,
            digits@.len() == i - 1,
            forall|j: int|
                1 <= j < i ==> is_hex(#[trigger] v@[j]) && digits@[j - 1] == hex_value(v@[j])
                    && digits@[j - 1] < 16,
        decreases 7 - i,
    {
        match hex_digit(v[i]) {
            Some(d) => digits.push(d),
            None => {
                return None;
            },
        }
        i += 1;
    }
    let r = digits[0] * 16 + digits[1];
    let g = digits[2] * 16 + digits[3];
    let b = digits[4] * 16 + digits[5];
    Some((r, g, b))
}

/// Reads a theme value; see `spec_parse_color`.
pub fn parse_color(value: &str) -> (r: Option<ThemeColor>)
    ensures
        r == spec_parse_color(value@),
{
    let v = chars_of(value);
    let none = vec!['n', 'o', 'n', 'e'];
    let default = vec!['d', 'e', 'f', 'a', 'u', 'l', 't'];
    proof {
        assert(none@ =~= seq!['n', 'o', 'n', 'e']);
        assert(default@ =~= seq!['d', 'e', 'f', 'a', 'u', 'l', 't']);
    }
    if eq_ignore_case_chars(&v, &none) || eq_ignore_case_chars(&v, &default) {
        return Some(ThemeColor::Default);
    }
    match parse_rgb(value) {
        Some((r, g, b)) => Some(ThemeColor::Rgb(r, g, b)),
        None => None,
    }
}

/// `s` without a trailing carriage return.
pub open spec fn strip_cr(s: Seq<char>) -> Seq<char> {
    if s.len() > 0 && s.last() == '\r' {
        s.drop_last()
    } else {
        s
    }
}

/// `str::lines`: the pieces between newlines, each that a newline ends
/// losing a carriage return before it; no empty piece after a final newline.
pub open spec fn text_lines(s: Seq<char>) -> Seq<Seq<char>> {
    let parts = split_on(s, '\n');
    let ended = Seq::new((parts.len() - 1) as nat, |i: int| strip_cr(parts[i]));
    if parts.last().len() == 0 {
        ended
    } else {
        ended.push(parts.last())
    }
}

/// The color a line of the theme file sets, and to what: `key = value`,
/// split at the first `=`, with a key that names a color and a value that
/// reads as one.
pub open spec fn line_setting(line: Seq<char>) -> Option<(Color, ThemeColor)> {
    if line.contains('=') {
        let i = choose|i: int| 0 <= i < line.len() && line[i] == '=' && !line.take(i).contains('=');
        match (
            key_slot(spec_normalize_key(line.take(i))),
            spec_parse_color(spec_clean_value(line.skip(i + 1))),
        ) {
            (Some(c), Some(v)) => Some((c, v)),
            _ => None,
        }
    } else {
        None
    }
}

/// The value the last line of `lines` that sets `c` gives it, if any.
pub open spec fn last_setting(lines: Seq<Seq<char>>, c: Color) -> Option<ThemeColor>
    decreases lines.len(),
{
    if lines.len() == 0 {
        None
    } else {
        match line_setting(lines.last()) {
            Some((c1, v)) if c1 == c => Some(v),
            _ => last_setting(lines.drop_last(), c),
        }
    }
}

/// The color `c` gets from a theme file holding `contents`: the value of the
/// last line that sets it, else its built-in value.
pub open spec fn theme_color(contents: Seq<char>, c: Color) -> ThemeColor {
    match last_setting(text_lines(contents), c) {
        Some(v) => v,
        None => default_color(c),
    }
}

/// The index of the first `=` in `v`, if any.
fn find_eq(v: &Vec<char>) -> (r: Option<usize>)
    ensures
        r matches Some(i) ==> i < v@.len() && v@[i as int] == '=' && !v@.take(i as int).contains(
            '=',
        ),
        r is None ==> !v@.contains('='),
{
    let mut i: usize = 0;
    while i < v.len()
        invariant
            i <= v@.len(),
            forall|j: int| 0 <= j < i ==> v@[j] != '=',
        decreases v@.len() - i,
    {
        if v[i] == '=' {
            proof {
                if v@.take(i as int).contains('=') {
                    let j = choose|j: int| 0 <= j < i && v@.take(i as int)[j] == '=';
                    assert(v@[j] == '=');
                }
            }
            return Some(i);
        }
        i += 1;
    }
    None
}

/// The theme that a theme file holding `contents` describes; see `theme_color`.
pub fn theme_from_contents(contents: &str) -> (t: Theme)
    ensures
        forall|c: Color| #[trigger] t.color_of(c) == theme_color(contents@, c),
{
    let mut theme = Theme::default();
    let lines = lines_of_text(contents);
    let mut i: usize = 0;
    while i < lines.len()
        invariant
            i <= lines@.len(),
            forall|j: int| 0 <= j < lines@.len() ==> #[trigger] lines@[j]@ == text_lines(contents@)[j],
            lines@.len() == text_lines(contents@).len(),
            forall|c: Color|
                #[trigger] theme.color_of(c) == match last_setting(
                    text_lines(contents@).take(i as int),
                    c,
                ) {
                    Some(v) => v,
                    None => default_color(c),
                },
        decreases lines@.len() - i,
    {
        let line = chars_of(lines[i].as_str());
        let ghost done = text_lines(contents@).take(i as int);
        let ghost next = text_lines(contents@).take(i + 1);
        proof {
            assert(next.drop_last() =~= done);
            assert(next.last() == line@);
        }
        if let Some(eq) = find_eq(&line) {
            let key = normalize_key(string_of(&line, 0, eq).as_str());
            let value = clean_value(string_of(&line, eq + 1, line.len()).as_str());
            proof {
                assert(line@.subrange(0, eq as int) =~= line@.take(eq as int));
                assert(line@.subrange(eq + 1, line@.len() as int) =~= line@.skip(eq + 1));
                assert(line@.contains('='));
                let k = choose|k: int|
                    0 <= k < line@.len() && line@[k] == '=' && !line@.take(k).contains('=');
                if k < eq {
                    assert(line@.take(eq as int)[k] == '=');
                }
                if k > eq {
                    assert(line@.take(k)[eq as int] == '=');
                }
            }
            if let Some(color) = parse_color(value.as_str()) {
                theme.set(key.as_str(), color);
            }
        }
        i += 1;
    }
    proof {
        assert(text_lines(contents@).take(lines@.len() as int) =~= text_lines(contents@));
    }
    theme
}

/// The lines of `s`; see `text_lines`.
fn lines_of_text(s: &str) -> (lines: Vec<String>)
    ensures
        lines@.len() == text_lines(s@).len(),
        forall|j: int| 0 <= j < lines@.len() ==> #[trigger] lines@[j]@ == text_lines(s@)[j],
{
    let parts = split_chars(&chars_of(s), '\n');
    proof {
        crate::text::lemma_split_on_nonempty(s@, '\n');
    }
    let k = parts.len();
    let mut lines: Vec<String> = Vec::new();
    let mut i: usize = 0;
    while i + 1 < k
        invariant
            k == parts@.len(),
            k == split_on(s@, '\n').len(),
            k >= 1,
            forall|j: int| 0 <= j < k ==> #[trigger] parts@[j]@ == split_on(s@, '\n')[j],
            i + 1 <= k,
            lines@.len() == i,
            forall|j: int|
                0 <= j < i ==> #[trigger] lines@[j]@ == strip_cr(split_on(s@, '\n')[j]),
        decreases k - i,
    {
        let v = chars_of(parts[i].as_str());
        let n = v.len();
        let line = if n > 0 && v[n - 1] == '\r' {
            string_of(&v, 0, n - 1)
        } else {
            string_of(&v, 0, n)
        };
        proof {
            if !(n > 0 && v@[n - 1] == '\r') {
                assert(v@.subrange(0, n as int) =~= v@);
            }
        }
        lines.push(line);
        i += 1;
    }
    let last = chars_of(parts[k - 1].as_str());
    if last.len() > 0 {
        lines.push(string_of(&last, 0, last.len()));
        proof {
            assert(last@.subrange(0, last@.len() as int) =~= last@);
        }
    }
    lines
}

} // verus!
