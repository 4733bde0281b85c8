use ti::app::{App, Clipboard, Flow, Mode};
use ti::cursor::Cursor;
use ti::document::{Document, Pos};
use ti::key::Key;
use ti::viewport::Viewport;

fn doc(lines: &[&str]) -> Document {
    Document {
        file_path: "notes.txt".to_owned(),
        lines: lines.iter().map(|l| (*l).to_owned()).collect(),
    }
}

fn app(lines: &[&str]) -> App {
    App::new(doc(lines), Viewport::new(80, 24))
}

fn press(app: &mut App, key: Key) -> Flow {
    assert!(app.can_handle(key));
    app.handle_input(key)
}

fn type_keys(app: &mut App, keys: &str) {
    for ch in keys.chars() {
        press(app, Key::Sym(ch));
    }
}

fn lines_of(app: &App) -> Vec<String> {
    app.doc.lines.clone()
}

#[test]
fn new_app_starts_in_normal_mode_at_origin() {
    let a = app(&["one"]);
    assert_eq!(a.mode, Mode::Normal);
    assert_eq!((a.cursor.row, a.cursor.col), (0, 0));
    assert!(matches!(a.clipboard, Clipboard::Empty));
    assert_eq!(a.count, 0);
}

#[test]
fn quit_and_write_are_reported_to_the_caller() {
    let mut a = app(&["one"]);
    assert_eq!(press(&mut a, Key::Sym('Q')), Flow::Quit);
    assert_eq!(press(&mut a, Key::Sym('W')), Flow::Save);
    assert_eq!(press(&mut a, Key::Sym('g')), Flow::AwaitKey);
}

#[test]
fn moves_stop_at_the_document_edges() {
    let mut a = app(&["abc", "de"]);
    press(&mut a, Key::Sym('h'));
    assert_eq!((a.cursor.row, a.cursor.col), (0, 0));
    press(&mut a, Key::Sym('l'));
    press(&mut a, Key::Sym('l'));
    press(&mut a, Key::Sym('l'));
    assert_eq!((a.cursor.row, a.cursor.col), (0, 2));
    press(&mut a, Key::Sym('j'));
    press(&mut a, Key::Sym('j'));
    assert_eq!(a.cursor.row, 1);
    press(&mut a, Key::Sym('k'));
    press(&mut a, Key::Sym('k'));
    assert_eq!(a.cursor.row, 0);
}

#[test]
fn a_count_repeats_the_move() {
    let lines = ["a", "b", "c", "d", "e", "f", "g"];
    let mut counted = app(&lines);
    type_keys(&mut counted, "3j");
    let mut repeated = app(&lines);
    type_keys(&mut repeated, "jjj");
    assert_eq!(counted.cursor.row, 3);
    assert_eq!(counted.cursor.row, repeated.cursor.row);
    assert_eq!(counted.count, 0);
}

#[test]
fn a_count_of_several_digits_stops_at_the_last_row() {
    let mut a = app(&["a", "b", "c"]);
    type_keys(&mut a, "12");
    assert_eq!(a.count, 12);
    press(&mut a, Key::Sym('j'));
    assert_eq!(a.cursor.row, 2);
    assert_eq!(a.count, 0);
}

#[test]
fn a_count_moves_left_and_right_within_the_line() {
    let mut a = app(&["abcdefgh"]);
    type_keys(&mut a, "5l");
    assert_eq!(a.cursor.col, 5);
    type_keys(&mut a, "20l");
    assert_eq!(a.cursor.col, 7);
    type_keys(&mut a, "3h");
    assert_eq!(a.cursor.col, 4);
    type_keys(&mut a, "10h");
    assert_eq!(a.cursor.col, 0);
}

#[test]
fn zero_alone_is_no_count() {
    let mut a = app(&["abc", "def"]);
    press(&mut a, Key::Sym('0'));
    assert_eq!(a.count, 0);
    type_keys(&mut a, "10");
    assert_eq!(a.count, 10);
    press(&mut a, Key::Escape);
    assert_eq!(a.count, 0);
}

#[test]
fn a_count_saturates() {
    let mut a = app(&["abc"]);
    for _ in 0..25 {
        press(&mut a, Key::Sym('9'));
    }
    assert_eq!(a.count, usize::MAX);
    press(&mut a, Key::Sym('k'));
    assert_eq!(a.cursor.row, 0);
}

#[test]
fn undo_reverts_a_deleted_character() {
    let mut a = app(&["hello", "world"]);
    press(&mut a, Key::Sym('l'));
    press(&mut a, Key::Sym('x'));
    assert_eq!(lines_of(&a), vec!["hllo", "world"]);
    assert!(matches!(&a.clipboard, Clipboard::Normal(s) if s == "e"));
    press(&mut a, Key::Sym('u'));
    assert_eq!(lines_of(&a), vec!["hello", "world"]);
    assert_eq!((a.cursor.row, a.cursor.col), (0, 1));
    assert_eq!(a.mode, Mode::Normal);
}

#[test]
fn undo_reverts_a_join() {
    let mut a = app(&["one", "two"]);
    press(&mut a, Key::Sym('J'));
    assert_eq!(lines_of(&a), vec!["one two"]);
    press(&mut a, Key::Sym('u'));
    assert_eq!(lines_of(&a), vec!["one", "two"]);
}

#[test]
fn undo_with_empty_history_changes_nothing() {
    let mut a = app(&["one"]);
    press(&mut a, Key::Sym('u'));
    assert_eq!(lines_of(&a), vec!["one"]);
    assert_eq!(a.mode, Mode::Normal);
}

#[test]
fn typing_then_backspace_leaves_the_line() {
    let mut a = app(&["abc"]);
    press(&mut a, Key::Sym('l'));
    press(&mut a, Key::Sym('i'));
    assert_eq!(a.mode, Mode::Insert);
    press(&mut a, Key::Sym('Z'));
    assert_eq!(lines_of(&a), vec!["aZbc"]);
    assert_eq!(a.cursor.col, 2);
    press(&mut a, Key::Backspace);
    assert_eq!(lines_of(&a), vec!["abc"]);
    assert_eq!(a.cursor.col, 1);
}

#[test]
fn control_characters_are_not_typed() {
    let mut a = app(&["abc"]);
    press(&mut a, Key::Sym('i'));
    press(&mut a, Key::Sym('\u{7}'));
    assert_eq!(lines_of(&a), vec!["abc"]);
    assert_eq!(a.cursor.col, 0);
}

#[test]
fn insert_enter_splits_the_line() {
    let mut a = app(&["abcd"]);
    press(&mut a, Key::Sym('l'));
    press(&mut a, Key::Sym('l'));
    press(&mut a, Key::Sym('i'));
    press(&mut a, Key::Enter);
    assert_eq!(lines_of(&a), vec!["ab", "cd"]);
    assert_eq!((a.cursor.row, a.cursor.col), (1, 2));
    press(&mut a, Key::Escape);
    assert_eq!(a.mode, Mode::Normal);
    assert_eq!(a.cursor.col, 1);
}

#[test]
fn backspace_at_line_start_joins_with_the_line_above() {
    let mut a = app(&["ab", "cd"]);
    press(&mut a, Key::Sym('j'));
    press(&mut a, Key::Sym('i'));
    press(&mut a, Key::Backspace);
    assert_eq!(lines_of(&a), vec!["abcd"]);
    assert_eq!((a.cursor.row, a.cursor.col), (0, 2));
}

#[test]
fn open_line_below_enters_insert_mode() {
    let mut a = app(&["one", "two"]);
    press(&mut a, Key::Sym('o'));
    assert_eq!(lines_of(&a), vec!["one", "", "two"]);
    assert_eq!((a.cursor.row, a.cursor.col), (1, 0));
    assert_eq!(a.mode, Mode::Insert);
}

#[test]
fn yank_line_and_put_below() {
    let mut a = app(&["one", "two"]);
    press(&mut a, Key::Sym('y'));
    assert_eq!(a.mode, Mode::Copy);
    press(&mut a, Key::Sym('y'));
    assert!(matches!(&a.clipboard, Clipboard::Line(s) if s == "one\n"));
    press(&mut a, Key::Sym('p'));
    assert_eq!(lines_of(&a), vec!["one", "one", "two"]);
    assert_eq!(a.cursor.row, 1);
}

#[test]
fn delete_line_keeps_a_line_in_the_document() {
    let mut a = app(&["only"]);
    press(&mut a, Key::Sym('d'));
    assert_eq!(a.mode, Mode::Delete);
    press(&mut a, Key::Sym('d'));
    assert_eq!(lines_of(&a), vec![""]);
    assert!(matches!(&a.clipboard, Clipboard::Line(s) if s == "only\n"));
    assert_eq!(a.mode, Mode::Normal);
}

#[test]
fn delete_to_end_of_line_and_put_before() {
    let mut a = app(&["abcdef"]);
    press(&mut a, Key::Sym('l'));
    press(&mut a, Key::Sym('l'));
    press(&mut a, Key::Sym('D'));
    assert_eq!(lines_of(&a), vec!["ab"]);
    assert!(matches!(&a.clipboard, Clipboard::Normal(s) if s == "cdef"));
    press(&mut a, Key::Sym('h'));
    assert_eq!(a.cursor.col, 0);
    press(&mut a, Key::Sym('P'));
    assert_eq!(lines_of(&a), vec!["cdefab"]);
    assert_eq!(a.cursor.col, 4);
}

#[test]
fn replace_changes_one_character() {
    let mut a = app(&["abc"]);
    press(&mut a, Key::Sym('r'));
    assert_eq!(a.mode, Mode::Replace);
    press(&mut a, Key::Sym('X'));
    assert_eq!(lines_of(&a), vec!["Xbc"]);
    assert_eq!(a.mode, Mode::Normal);
}

#[test]
fn visual_yank_copies_the_selection() {
    let mut a = app(&["hello world"]);
    press(&mut a, Key::Sym('v'));
    assert_eq!(a.mode, Mode::Visual(Pos { row: 0, col: 0 }));
    press(&mut a, Key::Sym('e'));
    press(&mut a, Key::Sym('y'));
    assert!(matches!(&a.clipboard, Clipboard::Normal(s) if s == "hello"));
    assert_eq!(a.mode, Mode::Normal);
    assert_eq!(a.cursor.col, 0);
}

#[test]
fn visual_delete_removes_the_selection() {
    let mut a = app(&["hello world"]);
    press(&mut a, Key::Sym('w'));
    press(&mut a, Key::Sym('v'));
    press(&mut a, Key::Sym('l'));
    press(&mut a, Key::Sym('d'));
    assert_eq!(lines_of(&a), vec!["hello rld"]);
    assert!(matches!(&a.clipboard, Clipboard::Normal(s) if s == "wo"));
}

#[test]
fn visual_join_joins_the_selected_rows() {
    let mut a = app(&["a", "b", "c", "d"]);
    press(&mut a, Key::Sym('v'));
    type_keys(&mut a, "jj");
    press(&mut a, Key::Sym('J'));
    assert_eq!(lines_of(&a), vec!["a b c", "d"]);
    assert_eq!(a.mode, Mode::Normal);
}

#[test]
fn go_to_first_and_last_line() {
    let mut a = app(&["one", "two", "three"]);
    press(&mut a, Key::Sym('G'));
    assert_eq!((a.cursor.row, a.cursor.col), (2, 4));
    assert_eq!(press(&mut a, Key::Sym('g')), Flow::AwaitKey);
    a.handle_g(Key::Sym('g'));
    assert_eq!(a.cursor.row, 0);
}

#[test]
fn g_followed_by_another_key_handles_that_key() {
    let mut a = app(&["one", "two"]);
    press(&mut a, Key::Sym('g'));
    assert_eq!(a.handle_g(Key::Sym('j')), Flow::Continue);
    assert_eq!(a.cursor.row, 1);
}

#[test]
fn can_handle_refuses_moves_off_the_document() {
    let mut a = app(&["one"]);
    a.cursor = Cursor { row: 5, col: 0 };
    assert!(!a.can_handle(Key::Sym('h')));
    assert!(!a.can_handle(Key::Sym('x')));
    assert!(a.can_handle(Key::Sym('k')));
}

#[test]
fn mode_labels() {
    assert_eq!(Mode::Normal.label(), "NORMAL");
    assert_eq!(Mode::Delete.label(), "NORMAL");
    assert_eq!(Mode::Insert.label(), "INSERT");
    assert_eq!(Mode::Visual(Pos { row: 0, col: 0 }).label(), "VISUAL");
}

#[test]
fn delete_line_then_put_before_restores_the_document() {
    let mut a = app(&["one", "two", "three"]);
    press(&mut a, Key::Sym('j'));
    press(&mut a, Key::Sym('d'));
    press(&mut a, Key::Sym('d'));
    assert_eq!(lines_of(&a), vec!["one", "three"]);
    press(&mut a, Key::Sym('P'));
    assert_eq!(lines_of(&a), vec!["one", "two", "three"]);
}

#[test]
fn delete_last_line_then_put_before_does_not_restore() {
    let mut a = app(&["one", "two"]);
    press(&mut a, Key::Sym('j'));
    press(&mut a, Key::Sym('d'));
    press(&mut a, Key::Sym('d'));
    assert_eq!(lines_of(&a), vec!["one"]);
    assert_eq!(a.cursor.row, 0);
    press(&mut a, Key::Sym('P'));
    assert_eq!(lines_of(&a), vec!["two", "one"]);
}

#[test]
fn s_on_an_empty_row_deletes_its_line_break() {
    let mut a = app(&["", "b"]);
    press(&mut a, Key::Sym('s'));
    assert_eq!(lines_of(&a), vec!["b"]);
    assert_eq!(a.mode, Mode::Insert);
    let mut a = app(&["a", ""]);
    press(&mut a, Key::Sym('j'));
    press(&mut a, Key::Sym('s'));
    assert_eq!(lines_of(&a), vec!["a"]);
    assert_eq!(a.cursor.row, 1);
    assert!(!a.can_handle(Key::Escape));
}

#[test]
fn yank_line_then_put_duplicates_it_below() {
    let mut a = app(&["one", "two", "three"]);
    press(&mut a, Key::Sym('j'));
    press(&mut a, Key::Sym('y'));
    press(&mut a, Key::Sym('y'));
    press(&mut a, Key::Sym('p'));
    assert_eq!(lines_of(&a), vec!["one", "two", "two", "three"]);
    assert_eq!(a.cursor.row, 2);
    assert_eq!(a.mode, Mode::Normal);
}

#[test]
fn d_x_and_y_leave_an_empty_row_alone() {
    let mut a = app(&["", "b"]);
    press(&mut a, Key::Sym('y'));
    press(&mut a, Key::Sym('j'));
    assert!(matches!(&a.clipboard, Clipboard::Line(s) if s == "\nb"));
    press(&mut a, Key::Sym('D'));
    assert_eq!(lines_of(&a), vec!["", "b"]);
    press(&mut a, Key::Sym('x'));
    assert_eq!(lines_of(&a), vec!["", "b"]);
    press(&mut a, Key::Sym('Y'));
    assert!(matches!(&a.clipboard, Clipboard::Line(s) if s == "\nb"));
    assert_eq!(a.mode, Mode::Normal);
    press(&mut a, Key::Sym('u'));
    assert_eq!(lines_of(&a), vec!["", "b"]);
}

#[test]
fn d_past_the_end_of_a_one_character_last_row_takes_the_row_away() {
    let mut a = app(&["a", "b"]);
    press(&mut a, Key::Sym('j'));
    a.cursor.col = 1;
    press(&mut a, Key::Sym('D'));
    assert_eq!(lines_of(&a), vec!["a"]);
    assert_eq!(a.cursor.row, 1);
}

#[test]
fn yank_up_copies_two_rows_and_moves_up() {
    let mut a = app(&["one", "two", "three"]);
    press(&mut a, Key::Sym('j'));
    press(&mut a, Key::Sym('y'));
    press(&mut a, Key::Sym('k'));
    assert_eq!(lines_of(&a), vec!["one", "two", "three"]);
    assert!(matches!(&a.clipboard, Clipboard::Line(s) if s == "one\ntwo"));
    assert_eq!(a.cursor.row, 0);
    assert_eq!(a.mode, Mode::Normal);
    press(&mut a, Key::Sym('y'));
    press(&mut a, Key::Sym('k'));
    assert_eq!(a.cursor.row, 0);
    assert_eq!(a.mode, Mode::Normal);
}

#[test]
fn put_with_an_empty_clipboard_needs_no_line() {
    let mut a = app(&["one"]);
    a.cursor = Cursor { row: 4, col: usize::MAX };
    assert!(a.can_handle(Key::Sym('p')));
    assert!(a.can_handle(Key::Sym('P')));
    press(&mut a, Key::Sym('p'));
    assert_eq!(lines_of(&a), vec!["one"]);
    a.clipboard = Clipboard::Line("x".to_owned());
    assert!(!a.can_handle(Key::Sym('p')));
    a.cursor = Cursor { row: 0, col: usize::MAX };
    assert!(a.can_handle(Key::Sym('p')));
    press(&mut a, Key::Sym('p'));
    assert_eq!(lines_of(&a), vec!["one", "x"]);
}

#[test]
fn the_cursor_stays_on_a_line_through_edits() {
    let mut a = app(&["one two", "three", "four"]);
    for key in [
        Key::Sym('G'),
        Key::Sym('d'),
        Key::Sym('k'),
        Key::Sym('p'),
        Key::Sym('J'),
        Key::Sym('x'),
        Key::Sym('b'),
        Key::Sym('u'),
        Key::Sym('o'),
        Key::Escape,
        Key::Sym('k'),
        Key::Sym('D'),
        Key::Sym('3'),
        Key::Sym('j'),
    ] {
        press(&mut a, key);
        assert!(a.cursor.row < a.doc.lines.len());
    }
}
