use ti::app::Mode;
use ti::cell::{parse_rgb, theme_from_contents, Color, Theme, ThemeColor};
use ti::cursor::Cursor;
use ti::document::{class_from, CharState, Document, Pos};
use ti::key::{read_key, Key};
use ti::text::{is_control, is_whitespace};
use ti::undo::UndoStack;

fn doc(lines: &[&str]) -> Document {
    Document {
        file_path: "t.txt".to_owned(),
        lines: lines.iter().map(|l| (*l).to_owned()).collect(),
    }
}

#[test]
fn loading_drops_one_final_newline_and_splits_lines() {
    let d = Document::from_contents("p.txt".to_owned(), "a\nb\n");
    assert_eq!(d.lines, vec!["a", "b"]);
    assert_eq!(d.file_path, "p.txt");
    let d = Document::from_contents("p.txt".to_owned(), "a\n\n");
    assert_eq!(d.lines, vec!["a", ""]);
    let d = Document::from_contents("p.txt".to_owned(), "");
    assert_eq!(d.lines, vec![""]);
}

#[test]
fn load_then_save_gives_back_the_file() {
    for text in ["a\nb\n", "\n", "x\n\ny\n", "héllo wörld\n"] {
        let d = Document::from_contents("p".to_owned(), text);
        assert_eq!(d.contents(), text);
    }
}

#[test]
fn a_file_without_final_newline_gains_one_on_save() {
    let d = Document::from_contents("p".to_owned(), "abc");
    assert_eq!(d.contents(), "abc\n");
}

#[test]
fn save_then_load_gives_back_the_lines() {
    let d = doc(&["x", "", "y z"]);
    let text = d.contents();
    assert_eq!(text, "x\n\ny z\n");
    assert_eq!(Document::from_contents("p".to_owned(), &text).lines, d.lines);
}

#[test]
fn copy_takes_the_selected_text() {
    let mut d = doc(&["abc", "def", "ghi"]);
    assert_eq!(d.copy(Pos { row: 0, col: 1 }, Pos { row: 1, col: 1 }), "bc\nd");
    assert_eq!(d.copy(Pos { row: 2, col: 1 }, Pos { row: 0, col: 2 }), "c\ndef\ng");
    assert_eq!(d.copy(Pos { row: 1, col: 0 }, Pos { row: 1, col: 3 }), "def\n");
    assert_eq!(d.lines, vec!["abc", "def", "ghi"]);
}

#[test]
fn bounds_follow_the_mode() {
    let d = doc(&["abc", ""]);
    assert_eq!(d.col_bound(0, Mode::Normal), 2);
    assert_eq!(d.col_bound(0, Mode::Insert), 3);
    assert_eq!(d.col_bound(1, Mode::Normal), 0);
    assert_eq!(d.row_bound(), 1);
    assert_eq!(doc(&[]).row_bound(), 0);
}

#[test]
fn insert_line_and_restore_snapshot() {
    let mut d = doc(&["a", "b"]);
    let saved = d.snapshot();
    d.insert_line(1);
    assert_eq!(d.lines, vec!["a", "", "b"]);
    d.restore(saved);
    assert_eq!(d.lines, vec!["a", "b"]);
}

#[test]
fn word_motions_know_non_ascii_letters_and_spaces() {
    let d = doc(&["é1 x"]);
    assert_eq!(d.next_word(Pos { row: 0, col: 0 }), Pos { row: 0, col: 3 });
    let d = doc(&["a\u{3000}b"]);
    assert_eq!(d.next_word(Pos { row: 0, col: 0 }), Pos { row: 0, col: 2 });
    assert_eq!(d.prev_word(Pos { row: 0, col: 2 }), Pos { row: 0, col: 0 });
}

#[test]
fn word_motions_at_the_document_end() {
    let d = doc(&["ab"]);
    assert_eq!(d.next_word(Pos { row: 0, col: 0 }), Pos { row: 0, col: 1 });
    assert_eq!(d.prev_word(Pos { row: 0, col: 0 }), Pos { row: 0, col: 0 });
    assert_eq!(d.last_char_of_next_word(Pos { row: 0, col: 1 }), Pos { row: 0, col: 1 });
    assert_eq!(d.next_word(Pos { row: 7, col: 9 }), Pos { row: 0, col: 1 });
}

#[test]
fn delete_across_lines_returns_the_removed_text() {
    let mut d = doc(&["abc", "def"]);
    assert_eq!(d.delete(Pos { row: 1, col: 0 }, Pos { row: 0, col: 1 }), "bc\nd");
    assert_eq!(d.lines, vec!["aef"]);
}

#[test]
fn undo_stack_is_last_in_first_out() {
    let mut u = UndoStack::new();
    assert!(u.pop().is_none());
    u.push(vec!["a".to_owned()], Cursor { row: 0, col: 0 }, Mode::Normal);
    u.push(vec!["b".to_owned()], Cursor { row: 0, col: 1 }, Mode::Insert);
    let (lines, cursor, mode) = u.pop().unwrap();
    assert_eq!(lines, vec!["b"]);
    assert_eq!(cursor.col, 1);
    assert_eq!(mode, Mode::Insert);
    let (lines, _, _) = u.pop().unwrap();
    assert_eq!(lines, vec!["a"]);
    assert!(u.pop().is_none());
}

#[test]
fn reads_plain_keys() {
    assert_eq!(read_key(b"\r").key, Key::Enter);
    assert_eq!(read_key(b"\n").key, Key::Enter);
    assert_eq!(read_key(b"\t").key, Key::Tab);
    assert_eq!(read_key(&[0x7f]).key, Key::Backspace);
    assert_eq!(read_key(&[0x08]).key, Key::Backspace);
    assert_eq!(read_key(b"q").key, Key::Sym('q'));
    let r = read_key("é".as_bytes());
    assert_eq!((r.key, r.used, r.wants_more), (Key::Sym('é'), 2, false));
    assert_eq!(read_key("€".as_bytes()).key, Key::Sym('€'));
    assert_eq!(read_key("😀".as_bytes()).key, Key::Sym('😀'));
}

#[test]
fn reads_bad_or_cut_utf8_as_unknown() {
    assert_eq!(read_key(&[0xc3, 0x28]).key, Key::Unknown);
    assert_eq!(read_key(&[0xff]).key, Key::Unknown);
    let r = read_key(&[0xe2, 0x82]);
    assert_eq!((r.key, r.wants_more), (Key::Unknown, true));
}

#[test]
fn reads_escape_sequences() {
    assert_eq!(read_key(b"\x1b[A").key, Key::ArrowUp);
    assert_eq!(read_key(b"\x1b[B").key, Key::ArrowDown);
    assert_eq!(read_key(b"\x1b[C").key, Key::ArrowRight);
    assert_eq!(read_key(b"\x1b[D").key, Key::ArrowLeft);
    assert_eq!(read_key(b"\x1b[H").key, Key::Home);
    assert_eq!(read_key(b"\x1b[4~").key, Key::End);
    assert_eq!(read_key(b"\x1b[5~").key, Key::PageUp);
    assert_eq!(read_key(b"\x1b[6~").key, Key::PageDown);
    assert_eq!(read_key(b"\x1bOH").key, Key::Home);
    assert_eq!(read_key(b"\x1bOB").key, Key::ArrowDown);
    assert_eq!(read_key(b"\x1bOZ").key, Key::Unknown);
    assert_eq!(read_key(b"\x1b\r").key, Key::Unknown);
    let r = read_key(b"\x1b[1;3");
    assert_eq!((r.key, r.wants_more), (Key::Unknown, true));
}

#[test]
fn an_escape_in_front_adds_alt() {
    for bytes in [&b"q"[..], "ß".as_bytes(), b"Z"] {
        let plain = read_key(bytes);
        let mut with_escape = vec![0x1b];
        with_escape.extend_from_slice(bytes);
        let alt = read_key(&with_escape);
        match plain.key {
            Key::Sym(ch) => assert_eq!(alt.key, Key::Alt(ch)),
            _ => unreachable!(),
        }
        assert_eq!(alt.used, plain.used + 1);
    }
}

#[test]
fn reads_mouse_wheel() {
    assert_eq!(read_key(b"\x1b[<64;10;5M").key, Key::ScrollUp);
    assert_eq!(read_key(b"\x1b[<65;1;1m").key, Key::ScrollDown);
    assert_eq!(read_key(b"\x1b[<+64;1;1M").key, Key::ScrollUp);
    assert_eq!(read_key(b"\x1b[<0;1;1M").key, Key::Unknown);
    assert_eq!(read_key(b"\x1b[<300;1;1M").key, Key::Unknown);
    let r = read_key(b"\x1b[M`!!");
    assert_eq!((r.key, r.used), (Key::Unknown, 3));
}

#[test]
fn parses_rgb_values() {
    assert_eq!(parse_rgb("#ff0080"), Some((255, 0, 128)));
    assert_eq!(parse_rgb("ff0080"), None);
    assert_eq!(parse_rgb("#12345"), None);
    assert_eq!(parse_rgb("#GG0000"), None);
    assert_eq!(ti::cell::parse_color("red"), None);
}

#[test]
fn theme_reads_settings_and_keeps_defaults() {
    let t = theme_from_contents(
        "accent = \"#010203\"\nfg='none'\ncolor3=#FFFFFF # note\nbogus\nColor_15 = nope\n",
    );
    assert_eq!(t.get(Color::Accent), ThemeColor::Rgb(1, 2, 3));
    assert_eq!(t.get(Color::Foreground), ThemeColor::Default);
    assert_eq!(t.get(Color::Color3), ThemeColor::Rgb(215, 153, 33));
    assert_eq!(t.get(Color::Background), ThemeColor::Rgb(40, 40, 40));
    assert_eq!(t.get(Color::Color15), ThemeColor::Rgb(235, 219, 178));
}

#[test]
fn theme_set_uses_aliases_and_the_last_setting_wins() {
    let mut t = Theme::default();
    t.set("selectionbg", ThemeColor::Rgb(9, 9, 9));
    t.set("statusfg", ThemeColor::Default);
    t.set("color16", ThemeColor::Default);
    t.set("color7", ThemeColor::Rgb(1, 1, 1));
    t.set("color7", ThemeColor::Rgb(2, 2, 2));
    assert_eq!(t.get(Color::SelectionBackground), ThemeColor::Rgb(9, 9, 9));
    assert_eq!(t.get(Color::BarForeground), ThemeColor::Default);
    assert_eq!(t.get(Color::Color7), ThemeColor::Rgb(2, 2, 2));
    assert_eq!(t.get(Color::Cursor), ThemeColor::Default);
    let t = theme_from_contents("bg = \"#000000\"\r\nbg = '#0000ff'\n");
    assert_eq!(t.get(Color::Background), ThemeColor::Rgb(0, 0, 255));
}

#[test]
fn character_classes_put_letters_before_spaces() {
    assert_eq!(class_from(true, false), CharState::Alphabetic);
    assert_eq!(class_from(true, true), CharState::Alphabetic);
    assert_eq!(class_from(false, true), CharState::WhiteSpace);
    assert_eq!(class_from(false, false), CharState::NonAlphabetic);
}

#[test]
fn copy_and_delete_agree_on_one_row() {
    let mut d = doc(&["abcd", "ef"]);
    let copied = d.copy(Pos { row: 0, col: 1 }, Pos { row: 0, col: 4 });
    let deleted = d.delete(Pos { row: 0, col: 1 }, Pos { row: 0, col: 4 });
    assert_eq!(copied, "bcd\n");
    assert_eq!(copied, deleted);
    assert_eq!(d.lines, vec!["aef"]);
}

#[test]
fn copy_across_rows_stops_before_the_last_column() {
    let mut d = doc(&["abc", "def"]);
    let copied = d.copy(Pos { row: 0, col: 1 }, Pos { row: 1, col: 1 });
    let deleted = d.delete(Pos { row: 0, col: 1 }, Pos { row: 1, col: 1 });
    assert_eq!(copied, "bc\nd");
    assert_eq!(deleted, "bc\nde");
}

#[test]
fn char_slices_count_characters_and_stop_at_the_end() {
    assert_eq!(ti::text::char_slice("açéb", 1, 3), "çé");
    assert_eq!(ti::text::char_slice("ab", 1, 5), "b");
    assert_eq!(ti::text::char_slice("ab", 4, 5), "");
    assert_eq!(ti::text::char_len("açéb"), 4);
}

#[test]
fn white_space_and_control_characters() {
    for ch in [' ', '\t', '\n', '\r', '\u{85}', '\u{a0}', '\u{2003}', '\u{3000}'] {
        assert!(is_whitespace(ch));
        assert_eq!(is_whitespace(ch), ch.is_whitespace());
    }
    for ch in ['a', '\u{200b}', '\u{7f}', '·'] {
        assert!(!is_whitespace(ch));
    }
    for ch in ['\0', '\u{1b}', '\u{7f}', '\u{9f}'] {
        assert!(is_control(ch));
    }
    for ch in [' ', 'a', '\u{a0}', 'é'] {
        assert!(!is_control(ch));
    }
}
