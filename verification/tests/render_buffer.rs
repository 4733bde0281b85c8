use ti::document::Pos;
use ti::render_buffer::is_visual_selected;

#[test]
fn visual_selection_uses_columns_on_single_line() {
    let start = Pos { row: 3, col: 4 };
    let end = Pos { row: 3, col: 8 };

    assert!(!is_visual_selected(Pos { row: 3, col: 3 }, start, end));
    assert!(is_visual_selected(Pos { row: 3, col: 4 }, start, end));
    assert!(is_visual_selected(Pos { row: 3, col: 8 }, start, end));
    assert!(!is_visual_selected(Pos { row: 3, col: 9 }, start, end));
}
