use ti::cell::{clean_value, normalize_key, parse_color, ThemeColor};

#[test]
fn parses_neovim_style_default_colors() {
    assert_eq!(parse_color("NONE"), Some(ThemeColor::Default));
    assert_eq!(parse_color("default"), Some(ThemeColor::Default));
}

#[test]
fn parses_upper_and_lowercase_hex_colors() {
    assert_eq!(parse_color("#0a1B2c"), Some(ThemeColor::Rgb(10, 27, 44)));
}

#[test]
fn cleans_quoted_values_before_parsing() {
    assert_eq!(clean_value("\"#AABBCC\" # comment"), "#AABBCC");
    assert_eq!(clean_value("'NONE'"), "NONE");
}

#[test]
fn normalizes_theme_keys() {
    assert_eq!(normalize_key("selection_foreground"), "selectionforeground");
    assert_eq!(normalize_key("Color_12"), "color12");
}
