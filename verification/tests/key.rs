use ti::key::Key;

/// The key that `bytes`, all of them arrived, stand for.
fn read_key(bytes: &[u8]) -> Key {
    ti::key::read_key(bytes).key
}

#[test]
fn it_reads_alt_ascii_key() {
    assert_eq!(read_key(b"\x1bj"), Key::Alt('j'));
}

#[test]
fn it_reads_alt_utf8_key() {
    assert_eq!(read_key("\x1bé".as_bytes()), Key::Alt('é'));
}

#[test]
fn it_ignores_alt_non_symbol_key() {
    assert_eq!(read_key(b"\x1b[1;3D"), Key::Unknown);
}

#[test]
fn it_keeps_plain_escape() {
    assert_eq!(read_key(b"\x1b"), Key::Escape);
}
