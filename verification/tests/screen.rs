use ti::app::{App, Mode};
use ti::cell::{Cell, Color, Theme};
use ti::cursor::Cursor;
use ti::document::{Document, Pos};
use ti::key::Key;
use ti::render_buffer::RenderBuffer;
use ti::viewport::Viewport;

fn app_on(path: &str, lines: &[&str], width: usize, height: usize) -> App {
    let doc = Document {
        file_path: path.to_owned(),
        lines: lines.iter().map(|l| (*l).to_owned()).collect(),
    };
    App::new(doc, Viewport::new(width, height))
}

fn chars(buffer: &RenderBuffer, from: usize, to: usize) -> String {
    buffer.cells[from..to].iter().map(|c| c.char).collect()
}

#[test]
fn new_buffer_is_blank() {
    let b = RenderBuffer::new(3, 2);
    assert_eq!((b.width, b.height), (3, 2));
    assert_eq!(b.cells.len(), 6);
    assert!(b.cells.iter().all(|c| *c == Cell::default()));
}

#[test]
fn viewport_leaves_room_for_margins_and_bars() {
    let v = Viewport::new(80, 24);
    assert_eq!((v.top_row, v.left_column, v.width, v.height), (0, 0, 74, 22));
}

#[test]
fn buffer_shows_bars_numbers_and_text() {
    let a = app_on("dir/notes.txt", &["a b", "cd"], 40, 5);
    let b = RenderBuffer::from(&a, 40, 5);
    assert_eq!(chars(&b, 0, 40), format!("{:<40}", " notes.txt"));
    assert_eq!(b.cells[1].fg, Color::FileName);
    assert!(b.cells[1].italic);
    assert_eq!(b.cells[12].fg, Color::BarForeground);
    assert_eq!(chars(&b, 40, 49), "   1  a·b");
    assert_eq!(b.cells[43].fg, Color::CurrentLineNumber);
    assert_eq!(b.cells[47].fg, Color::Whitespace);
    assert_eq!(b.cells[47].bg, Color::CurrentLine);
    assert_eq!(b.cells[60].bg, Color::CurrentLine);
    assert_eq!(chars(&b, 80, 88), "   1  cd");
    assert_eq!(b.cells[86].bg, Color::Background);
    assert_eq!(chars(&b, 120, 126), "      ");
    let bottom = chars(&b, 160, 200);
    assert_eq!(bottom, format!("{:<36}1:1 ", " NORMAL | dir/notes.txt"));
    assert_eq!(b.cells[170].fg, Color::FileName);
    assert_eq!(b.cells[169].fg, Color::BarForeground);
}

#[test]
fn buffer_marks_the_visual_selection() {
    let mut a = app_on("f", &["abcd", "", "xy"], 30, 6);
    a.handle_input(Key::Sym('l'));
    a.handle_input(Key::Sym('v'));
    a.handle_input(Key::Sym('j'));
    a.handle_input(Key::Sym('j'));
    assert_eq!(a.mode, Mode::Visual(Pos { row: 0, col: 1 }));
    let b = RenderBuffer::from(&a, 30, 6);
    assert_eq!(b.cells[36].fg, Color::Foreground);
    assert_eq!(b.cells[37].bg, Color::SelectionBackground);
    assert_eq!(b.cells[39].fg, Color::SelectionForeground);
    assert_eq!(b.cells[66].bg, Color::SelectionBackground);
    assert_eq!(b.cells[96].bg, Color::SelectionBackground);
    assert_eq!(b.cells[98].bg, Color::CurrentLine);
    assert_eq!(chars(&b, 150, 156), " VISUA");
}

#[test]
fn diff_holds_exactly_the_changed_cells() {
    let mut a = app_on("f", &["hello"], 30, 5);
    let before = RenderBuffer::from(&a, 30, 5);
    a.handle_input(Key::Sym('x'));
    let after = RenderBuffer::from(&a, 30, 5);
    let diff = after.diff(&before);
    assert!(!diff.is_empty());
    let mut patched = before.cells.clone();
    for (pos, cell) in &diff {
        assert_ne!(before.cells[pos.row * 30 + pos.col], *cell);
        patched[pos.row * 30 + pos.col] = *cell;
    }
    assert_eq!(patched, after.cells);
    assert!(after.diff(&after).is_empty());
}

#[test]
fn diff_reports_rows_and_columns() {
    let old = RenderBuffer::new(4, 2);
    let mut new = RenderBuffer::new(4, 2);
    new.cells[6] = Cell::new('z');
    assert_eq!(new.diff(&old), vec![(Pos { row: 1, col: 2 }, Cell::new('z'))]);
}

#[test]
fn patch_draws_each_cell_between_cursor_hide_and_show() {
    let theme = Theme::default();
    let out = RenderBuffer::patch(vec![(Pos { row: 0, col: 0 }, Cell::new('a'))], &theme);
    assert_eq!(
        out,
        "\x1b[?25l\x1b[1;1H\x1b[38;2;235;219;178m\x1b[48;2;40;40;40ma\x1b[0m\x1b[?25h"
    );
    assert_eq!(RenderBuffer::patch(vec![], &theme), "\x1b[?25l\x1b[?25h");
}

#[test]
fn cell_build_adds_bold_and_italic() {
    let mut cell = Cell::new('q');
    cell.bold = true;
    cell.italic = true;
    cell.selected();
    assert_eq!(cell.fg, Color::SelectionForeground);
    assert_eq!(
        cell.build(Pos { row: 3, col: 12 }, &Theme::default()),
        "\x1b[3;12H\x1b[1m\x1b[3m\x1b[38;2;251;241;199m\x1b[48;2;80;73;69mq\x1b[0m"
    );
}

#[test]
fn cursor_escape_places_and_shapes_the_cursor() {
    let doc = Document { file_path: "f".to_owned(), lines: vec!["abc".to_owned()] };
    let v = Viewport::new(80, 24);
    let c = Cursor { row: 0, col: 9 };
    assert_eq!(c.build(&doc, &v, Mode::Normal), "\x1b[2;9H\x1b[2 q");
    assert_eq!(c.build(&doc, &v, Mode::Insert), "\x1b[2;10H\x1b[6 q");
    assert_eq!(c.build(&doc, &v, Mode::Delete), "\x1b[2;9H\x1b[4 q");
}

#[test]
fn fit_scrolls_down_to_keep_the_cursor_visible() {
    let lines: Vec<String> = (0..100).map(|i| i.to_string()).collect();
    let doc = Document { file_path: "f".to_owned(), lines };
    let mut v = Viewport::new(80, 24);
    let c = Cursor { row: 30, col: 0 };
    assert!(v.can_fit(&c, &doc));
    v.fit(&c, &doc);
    assert_eq!(v.top_row, 12);
    assert!(v.top_row <= 30 && 30 < v.top_row + v.height);
}

#[test]
fn fit_scrolls_up_and_sideways() {
    let doc = Document { file_path: "f".to_owned(), lines: vec!["x".repeat(300); 50] };
    let mut v = Viewport { top_row: 20, left_column: 0, width: 74, height: 22 };
    let c = Cursor { row: 10, col: 200 };
    v.fit(&c, &doc);
    assert_eq!(v.top_row, 6);
    assert_eq!(v.left_column, 132);
    let back = Cursor { row: 10, col: 3 };
    v.fit(&back, &doc);
    assert_eq!(v.left_column, 0);
}

#[test]
fn fit_stops_one_row_short_on_the_last_row() {
    let lines: Vec<String> = (0..20).map(|i| i.to_string()).collect();
    let doc = Document { file_path: "f".to_owned(), lines };
    let mut v = Viewport { top_row: 0, left_column: 0, width: 74, height: 10 };
    let c = Cursor { row: 19, col: 0 };
    v.fit(&c, &doc);
    assert_eq!(v.top_row, 9);
    assert_eq!(v.top_row + v.height, 19);
}

#[test]
fn can_fit_refuses_a_document_shorter_than_the_viewport() {
    let doc = Document { file_path: "f".to_owned(), lines: vec!["a".to_owned(); 5] };
    let v = Viewport { top_row: 0, left_column: 0, width: 74, height: 10 };
    assert!(!v.can_fit(&Cursor { row: 30, col: 0 }, &doc));
    assert!(v.can_fit(&Cursor { row: 3, col: 0 }, &doc));
}
