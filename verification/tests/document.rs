use ti::document::{Document, Pos};

#[test]
fn it_joinlines_correctly() {
    let mut doc = Document {
        file_path: "monster.ti".to_owned(),
        lines: vec!["asdf".to_owned(), "asdf".to_owned()],
    };

    let pos = Pos { row: 0, col: 4 };

    doc.delete(pos.clone(), pos);

    assert_eq!(doc.lines, vec!["asdfasdf".to_owned()]);
}

#[test]
fn it_delete_content_in_the_same_line_without_join() {
    let mut doc = Document {
        file_path: "ti.ti".to_owned(),
        lines: vec!["asdf".to_owned(), "asdf".to_owned()],
    };

    let start = Pos { row: 0, col: 0 };
    let end = Pos { row: 0, col: 2 };

    doc.delete(start, end);

    assert_eq!(doc.lines, vec!["f".to_owned(), "asdf".to_owned()]);
}

#[test]
fn it_delete_content_in_the_same_line_and_join() {
    let mut doc = Document {
        file_path: "ti.ti".to_owned(),
        lines: vec!["asdf".to_owned(), "asdf".to_owned()],
    };

    let start = Pos { row: 0, col: 2 };
    let end = Pos { row: 0, col: 4 };

    doc.delete(start, end);

    assert_eq!(doc.lines, vec!["asasdf".to_owned()]);
}

#[test]
fn it_delete_multiple_lines() {
    let mut doc = Document {
        file_path: "ti.ti".to_owned(),
        lines: vec![
            "asdf".to_owned(),
            "asdf".to_owned(),
            "asdf".to_owned(),
            "asdf".to_owned(),
        ],
    };

    let start = Pos { row: 0, col: 4 };
    let end = Pos { row: 2, col: 4 };

    doc.delete(start, end);

    assert_eq!(doc.lines, vec!["asdfasdf".to_owned()]);
}

#[test]
fn it_delete_multiple_lines_and_drain() {
    let mut doc = Document {
        file_path: "ti.ti".to_owned(),
        lines: vec![
            "asdf".to_owned(),
            "asdf".to_owned(),
            "asdf".to_owned(),
            "asdf".to_owned(),
        ],
    };

    let start = Pos { row: 0, col: 4 };
    let end = Pos { row: 2, col: 2 };

    doc.delete(start, end);

    assert_eq!(doc.lines, vec!["asdff".to_owned(), "asdf".to_owned()]);
}

#[test]
fn it_drain_and_delete_multiple_lines() {
    let mut doc = Document {
        file_path: "ti.ti".to_owned(),
        lines: vec![
            "asdf".to_owned(),
            "asdf".to_owned(),
            "asdf".to_owned(),
            "asdf".to_owned(),
        ],
    };

    let start = Pos { row: 0, col: 2 };
    let end = Pos { row: 2, col: 4 };

    doc.delete(start, end);

    assert_eq!(doc.lines, vec!["asasdf".to_owned()]);
}

#[test]
fn it_drain_and_delete_multiple_lines2() {
    let mut doc = Document {
        file_path: "ti.ti".to_owned(),
        lines: vec![
            "asdf".to_owned(),
            "asdf".to_owned(),
            "asdf".to_owned(),
            "asdf".to_owned(),
        ],
    };

    let start = Pos { row: 0, col: 2 };
    let end = Pos { row: 2, col: 1 };

    doc.delete(start, end);

    assert_eq!(doc.lines, vec!["asdf".to_owned(), "asdf".to_owned()]);
}

#[test]
fn it_insert_inline_content() {
    let mut doc = Document {
        file_path: "ti.ti".to_owned(),
        lines: vec!["asdf".to_owned(), "----".to_owned()],
    };

    let pos = doc.insert(Pos { row: 0, col: 2 }, "mise");

    assert_eq!(doc.lines, vec!["asmisedf".to_owned(), "----".to_owned()]);
    assert_eq!(pos, Pos { row: 0, col: 6 })
}

#[test]
fn it_insert_inline_utf8_content() {
    let mut doc = Document {
        file_path: "ti.ti".to_owned(),
        lines: vec!["açb".to_owned()],
    };

    let pos = doc.insert(Pos { row: 0, col: 2 }, "é");

    assert_eq!(doc.lines, vec!["açéb".to_owned()]);
    assert_eq!(pos, Pos { row: 0, col: 3 })
}

#[test]
fn it_insert_multiple_line_content() {
    let mut doc = Document {
        file_path: "ti.ti".to_owned(),
        lines: vec!["asdf".to_owned(), "----".to_owned()],
    };

    let pos = doc.insert(Pos { row: 0, col: 2 }, "mise\n123");

    assert_eq!(
        doc.lines,
        vec!["asmise".to_owned(), "123df".to_owned(), "----".to_owned()]
    );
    assert_eq!(pos, Pos { row: 1, col: 3 })
}

#[test]
fn it_insert_new_line_with_content() {
    let mut doc = Document {
        file_path: "ti.ti".to_owned(),
        lines: vec!["asdf".to_owned(), "----".to_owned()],
    };

    let pos = doc.insert(Pos { row: 0, col: 4 }, "\n123");

    assert_eq!(
        doc.lines,
        vec!["asdf".to_owned(), "123".to_owned(), "----".to_owned()]
    );
    assert_eq!(pos, Pos { row: 1, col: 3 })
}

#[test]
fn it_insert_content_and_new_line() {
    let mut doc = Document {
        file_path: "ti.ti".to_owned(),
        lines: vec!["asdf".to_owned(), "----".to_owned()],
    };

    let pos = doc.insert(Pos { row: 0, col: 4 }, "123\n");

    assert_eq!(
        doc.lines,
        vec!["asdf123".to_owned(), "".to_owned(), "----".to_owned()]
    );
    assert_eq!(pos, Pos { row: 1, col: 0 })
}

#[test]
fn it_goes_to_next_word_on_same_line() {
    let doc = Document {
        file_path: "ti.ti".to_owned(),
        lines: vec!["one two".to_owned()],
    };

    assert_eq!(
        doc.next_word(Pos { row: 0, col: 0 }),
        Pos { row: 0, col: 4 }
    );
}

#[test]
fn it_goes_to_next_word_across_lines() {
    let doc = Document {
        file_path: "ti.ti".to_owned(),
        lines: vec!["one".to_owned(), "two".to_owned()],
    };

    assert_eq!(
        doc.next_word(Pos { row: 0, col: 1 }),
        Pos { row: 1, col: 0 }
    );
}

#[test]
fn it_goes_to_previous_word_across_lines() {
    let doc = Document {
        file_path: "ti.ti".to_owned(),
        lines: vec!["one".to_owned(), "two".to_owned()],
    };

    assert_eq!(
        doc.prev_word(Pos { row: 1, col: 1 }),
        Pos { row: 1, col: 0 }
    );
    assert_eq!(
        doc.prev_word(Pos { row: 1, col: 0 }),
        Pos { row: 0, col: 0 }
    );
}

#[test]
fn it_goes_to_last_char_of_next_word() {
    let doc = Document {
        file_path: "ti.ti".to_owned(),
        lines: vec!["one two".to_owned()],
    };

    assert_eq!(
        doc.last_char_of_next_word(Pos { row: 0, col: 0 }),
        Pos { row: 0, col: 2 }
    );
    assert_eq!(
        doc.last_char_of_next_word(Pos { row: 0, col: 2 }),
        Pos { row: 0, col: 6 }
    );
}

#[test]
fn it_treats_punctuation_as_word_motion_group() {
    let doc = Document {
        file_path: "ti.ti".to_owned(),
        lines: vec!["one... two".to_owned()],
    };

    assert_eq!(
        doc.next_word(Pos { row: 0, col: 0 }),
        Pos { row: 0, col: 3 }
    );
    assert_eq!(
        doc.next_word(Pos { row: 0, col: 3 }),
        Pos { row: 0, col: 7 }
    );
    assert_eq!(
        doc.last_char_of_next_word(Pos { row: 0, col: 2 }),
        Pos { row: 0, col: 5 }
    );
}

#[test]
fn it_drain_and_delete_multiple_lines_and_return_buf() {
    let mut doc = Document {
        file_path: "ti.ti".to_owned(),
        lines: vec![
            "asdf".to_owned(),
            "asdf".to_owned(),
            "asdf".to_owned(),
            "asdf".to_owned(),
        ],
    };

    let start = Pos { row: 0, col: 2 };
    let end = Pos { row: 2, col: 4 };

    assert_eq!(doc.delete(start, end), "df\nasdf\nasdf\n".to_owned());
}

#[test]
fn it_drain_and_delete_multiple_lines_and_return_buf2() {
    let mut doc = Document {
        file_path: "ti.ti".to_owned(),
        lines: vec![
            "asdf".to_owned(),
            "asdf".to_owned(),
            "asdf".to_owned(),
            "asdf".to_owned(),
        ],
    };

    let start = Pos { row: 0, col: 2 };
    let end = Pos { row: 2, col: 1 };

    assert_eq!(doc.delete(start, end), "df\nasdf\nas".to_owned());
}

#[test]
fn it_drain_and_return_buf() {
    let mut doc = Document {
        file_path: "ti.ti".to_owned(),
        lines: vec![
            "asdf".to_owned(),
            "asdf".to_owned(),
            "asdf".to_owned(),
            "asdf".to_owned(),
        ],
    };

    let start = Pos { row: 2, col: 1 };
    let end = Pos { row: 2, col: 2 };

    assert_eq!(doc.delete(start, end), "sd".to_owned());
}

#[test]
fn it_deletes_utf8_content_by_character_column() {
    let mut doc = Document {
        file_path: "ti.ti".to_owned(),
        lines: vec!["açéb".to_owned()],
    };

    let start = Pos { row: 0, col: 1 };
    let end = Pos { row: 0, col: 2 };

    assert_eq!(doc.delete(start, end), "çé".to_owned());
    assert_eq!(doc.lines, vec!["ab".to_owned()]);
}

#[test]
fn it_drain_and_return_buf2() {
    let mut doc = Document {
        file_path: "ti.ti".to_owned(),
        lines: vec![
            "asdf".to_owned(),
            "asdf".to_owned(),
            "asdf".to_owned(),
            "asdf".to_owned(),
        ],
    };

    let start = Pos { row: 2, col: 1 };
    let end = Pos { row: 2, col: 4 };

    assert_eq!(doc.delete(start, end), "sdf\n".to_owned());
}

#[test]
fn it_deletes_last_empty_line() {
    let mut doc = Document {
        file_path: "ti.ti".to_owned(),
        lines: vec![
            "I".to_owned(),
            "am".to_owned(),
            "back".to_owned(),
            "".to_owned(),
        ],
    };

    let start = Pos { row: 3, col: 0 };
    let end = Pos { row: 3, col: 0 };

    let deleted = doc.delete(start, end);

    assert_eq!(
        doc.lines,
        vec!["I".to_owned(), "am".to_owned(), "back".to_owned()]
    );
    assert_eq!(deleted, "\n".to_owned());
}

#[test]
fn it_deletes_last_two_empty_lines() {
    let mut doc = Document {
        file_path: "ti.ti".to_owned(),
        lines: vec![
            "I".to_owned(),
            "am".to_owned(),
            "back".to_owned(),
            "".to_owned(),
            "".to_owned(),
        ],
    };

    let start = Pos { row: 3, col: 0 };
    let end = Pos { row: 4, col: 0 };

    let deleted = doc.delete(start, end);

    assert_eq!(
        doc.lines,
        vec!["I".to_owned(), "am".to_owned(), "back".to_owned()]
    );
    assert_eq!(deleted, "\n\n".to_owned());
}
