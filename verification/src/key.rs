//! Keys and their decoding from the bytes a terminal sends.
use vstd::prelude::*;
use vstd::utf8::{decode_utf8, valid_utf8};

use crate::text::chars_of;

verus! {

/// A key press.
#[derive(Debug, Clone, Copy, PartialEq, Eq, Structural)]
pub enum Key {
    Sym(char),
    Alt(char),
    Enter,
    Backspace,
    Tab,
    Escape,
    ArrowLeft,
    ArrowRight,
    ArrowUp,
    ArrowDown,
    Home,
    End,
    PageUp,
    PageDown,
    ScrollUp,
    ScrollDown,
    Unknown,
}

/// The escape byte that starts the sequences of special keys.
pub const ESC_BYTE: u8 = 0x1b;

/// A key read from a byte stream: the key, where reading stopped, and whether
/// the reader asked for a byte past the end (a byte that had not arrived).
pub struct KeyRead {
    pub key: Key,
    pub used: usize,
    pub wants_more: bool,
}

/// The outcome of reading from `input` at `pos`: key, next position, and
/// whether a byte past the end was asked for.
pub type Reading = (Key, int, bool);

/// The number of bytes of a UTF-8 sequence that starts with `first`, or 0 when
/// `first` starts none.
pub open spec fn utf8_width(first: u8) -> int {
    if 0xc2 <= first <= 0xdf {
        2
    } else if 0xe0 <= first <= 0xef {
        3
    } else if 0xf0 <= first <= 0xf4 {
        4
    } else {
        0
    }
}

/// The key that the bytes of one UTF-8 sequence stand for.
pub open spec fn utf8_key(bytes: Seq<u8>) -> Key {
    if valid_utf8(bytes) && decode_utf8(bytes).len() > 0 {
        Key::Sym(decode_utf8(bytes)[0])
    } else {
        Key::Unknown
    }
}

/// Reading a character whose UTF-8 encoding starts with `first` (already
/// read), its other bytes from `pos` on.
pub open spec fn spec_utf8(first: u8, input: Seq<u8>, pos: int) -> Reading {
    let w = utf8_width(first);
    if w == 0 {
        (Key::Unknown, pos, false)
    } else if pos + w - 1 <= input.len() {
        (utf8_key(seq![first] + input.subrange(pos, pos + w - 1)), pos + w - 1, false)
    } else {
        (Key::Unknown, input.len() as int, true)
    }
}

/// Reading a key whose first byte is `first` (already read), outside an escape sequence.
pub open spec fn spec_plain(first: u8, input: Seq<u8>, pos: int) -> Reading {
    if first == 0x0d || first == 0x0a {
        (Key::Enter, pos, false)
    } else if first == 0x09 {
        (Key::Tab, pos, false)
    } else if first == 0x7f || first == 0x08 {
        (Key::Backspace, pos, false)
    } else if first < 0x80 {
        (Key::Sym(first as char), pos, false)
    } else {
        spec_utf8(first, input, pos)
    }
}

/// The key a mouse button code stands for: the wheel up or down, else unknown.
pub open spec fn spec_scroll_key(code: u8) -> Key {
    if code & 64 == 0 {
        Key::Unknown
    } else if code & 1 == 0 {
        Key::ScrollUp
    } else {
        Key::ScrollDown
    }
}

/// The value that `u8::from_str` reads from ASCII bytes: an optional `+`,
/// then at least one digit, at most 255.
pub open spec fn parse_u8_bytes(s: Seq<u8>) -> Option<u8> {
    let d = strip_plus_bytes(s);
    if d.len() > 0 && (forall|i: int| 0 <= i < d.len() ==> 0x30 <= #[trigger] d[i] <= 0x39)
        && byte_digits_value(d) <= 255 {
        Some(byte_digits_value(d) as u8)
    } else {
        None
    }
}

/// The value of a string of ASCII digit bytes.
pub open spec fn byte_digits_value(s: Seq<u8>) -> nat
    decreases s.len(),
{
    if s.len() == 0 {
        0
    } else {
        byte_digits_value(s.drop_last()) * 10 + (s.last() - 0x30) as nat
    }
}

/// The bytes of `s` before its first `;`.
pub open spec fn first_field(s: Seq<u8>) -> Seq<u8>
    decreases s.len(),
{
    if s.len() == 0 {
        s
    } else if s[0] == 0x3b {
        Seq::empty()
    } else {
        seq![s[0]] + first_field(s.drop_first())
    }
}

/// An SGR mouse report (after `<`): the button code before the first `;`,
/// ended by `M` or `m`.
pub open spec fn spec_sgr_mouse(seq: Seq<u8>) -> Key {
    if seq.len() == 0 {
        Key::Unknown
    } else if seq.last() != 0x4d && seq.last() != 0x6d {
        Key::Unknown
    } else {
        match parse_u8_bytes(first_field(seq.drop_last())) {
            Some(code) => spec_scroll_key(code),
            None => Key::Unknown,
        }
    }
}

/// An X10 mouse report (after `M`): three bytes, the first the button code plus 32.
pub open spec fn spec_x10_mouse(seq: Seq<u8>) -> Key {
    if seq.len() < 3 {
        Key::Unknown
    } else {
        spec_scroll_key(if seq[0] >= 32 {
            (seq[0] - 32) as u8
        } else {
            0
        })
    }
}

/// The key a control sequence (the bytes after `ESC [`) stands for.
pub open spec fn spec_parse_csi(seq: Seq<u8>) -> Key {
    if seq == seq![0x41u8] {
        Key::ArrowUp
    } else if seq == seq![0x42u8] {
        Key::ArrowDown
    } else if seq == seq![0x43u8] {
        Key::ArrowRight
    } else if seq == seq![0x44u8] {
        Key::ArrowLeft
    } else if seq == seq![0x48u8] {
        Key::Home
    } else if seq == seq![0x46u8] {
        Key::End
    } else if seq.len() == 2 && (seq[0] == 0x31 || seq[0] == 0x37) && seq[1] == 0x7e {
        Key::Home
    } else if seq.len() == 2 && (seq[0] == 0x34 || seq[0] == 0x38) && seq[1] == 0x7e {
        Key::End
    } else if seq.len() == 2 && seq[0] == 0x35 && seq[1] == 0x7e {
        Key::PageUp
    } else if seq.len() == 2 && seq[0] == 0x36 && seq[1] == 0x7e {
        Key::PageDown
    } else if seq.len() >= 1 && seq[0] == 0x3c {
        spec_sgr_mouse(seq.drop_first())
    } else if seq.len() >= 1 && seq[0] == 0x4d {
        spec_x10_mouse(seq.drop_first())
    } else {
        Key::Unknown
    }
}

/// A byte that ends a control sequence.
pub open spec fn is_final_byte(b: u8) -> bool {
    0x40 <= b <= 0x7e
}

/// Where a control sequence starting at `pos` ends: the index of its final
/// byte, or the end of the input.
pub open spec fn csi_end(input: Seq<u8>, pos: int) -> int
    decreases input.len() - pos,
{
    if pos >= input.len() {
        input.len() as int
    } else if is_final_byte(input[pos]) {
        pos
    } else {
        csi_end(input, pos + 1)
    }
}

/// Reading a control sequence from `pos` on (after `ESC [`).
pub open spec fn spec_csi(input: Seq<u8>, pos: int) -> Reading {
    let e = csi_end(input, pos);
    if e < input.len() {
        (spec_parse_csi(input.subrange(pos, e + 1)), e + 1, false)
    } else {
        (spec_parse_csi(input.subrange(pos, input.len() as int)), input.len() as int, true)
    }
}

/// Reading an SS3 sequence from `pos` on (after `ESC O`).
pub open spec fn spec_ss3(input: Seq<u8>, pos: int) -> Reading {
    if pos >= input.len() {
        (Key::Escape, pos, true)
    } else {
        let b = input[pos];
        (
            if b == 0x48 {
                Key::Home
            } else if b == 0x46 {
                Key::End
            } else if b == 0x41 {
                Key::ArrowUp
            } else if b == 0x42 {
                Key::ArrowDown
            } else if b == 0x43 {
                Key::ArrowRight
            } else if b == 0x44 {
                Key::ArrowLeft
            } else {
                Key::Unknown
            },
            pos + 1,
            false,
        )
    }
}

/// Reading what follows an escape byte from `pos` on: nothing (the escape
/// key), a control or SS3 sequence, or a key pressed with Alt.
pub open spec fn spec_escape(input: Seq<u8>, pos: int) -> Reading {
    if pos >= input.len() {
        (Key::Escape, pos, true)
    } else {
        let b = input[pos];
        if b == 0x5b {
            spec_csi(input, pos + 1)
        } else if b == 0x4f {
            spec_ss3(input, pos + 1)
        } else {
            let r = spec_plain(b, input, pos + 1);
            (
                match r.0 {
                    Key::Sym(ch) => Key::Alt(ch),
                    _ => Key::Unknown,
                },
                r.1,
                r.2,
            )
        }
    }
}

/// Reading one key from the start of `input`.
pub open spec fn spec_read_key(input: Seq<u8>) -> Reading {
    if input[0] == ESC_BYTE {
        spec_escape(input, 1)
    } else {
        spec_plain(input[0], input, 1)
    }
}

/// `std::str::from_utf8`, the error dropped: the characters when `bytes` are
/// valid UTF-8, and nothing otherwise.
#[verifier::external_body]
fn str_from_utf8(bytes: &[u8]) -> (r: Option<&str>)
    ensures
        r is Some <==> valid_utf8(bytes@),
        r matches Some(s) ==> s@ == decode_utf8(bytes@),
{
    std::str::from_utf8(bytes).ok()
}

/// The byte at `*pos`, moving past it, or nothing at the end of the input.
fn read_byte_optional(input: &[u8], pos: &mut usize) -> (r: Option<u8>)
    requires
        *old(pos) <= input@.len(),
    ensures
        *old(pos) < input@.len() ==> r == Some(input@[*old(pos) as int]) && *final(pos) == *old(
            pos,
        ) + 1,
        *old(pos) == input@.len() ==> r is None && *final(pos) == *old(pos),
{
    if *pos < input.len() {
        let b = input[*pos];
        *pos = *pos + 1;
        Some(b)
    } else {
        None
    }
}

/// Reads a key whose first byte `first` has been read; see `spec_plain`.
fn read_plain_key(first: u8, input: &[u8], pos: &mut usize, wants_more: &mut bool) -> (k: Key)
    requires
        *old(pos) <= input@.len(),
        !*old(wants_more),
    ensures
        (k, *final(pos) as int, *final(wants_more)) == spec_plain(first, input@, *old(pos) as int),
        *final(pos) <= input@.len(),
{
    if first == 0x0d || first == 0x0a {
        Key::Enter
    } else if first == 0x09 {
        Key::Tab
    } else if first == 0x7f || first == 0x08 {
        Key::Backspace
    } else if first < 0x80 {
        Key::Sym(first as char)
    } else {
        read_utf8_key(first, input, pos, wants_more)
    }
}

/// Reads the rest of a UTF-8 character starting with `first`; see `spec_utf8`.
fn read_utf8_key(first: u8, input: &[u8], pos: &mut usize, wants_more: &mut bool) -> (k: Key)
    requires
        *old(pos) <= input@.len(),
        !*old(wants_more),
    ensures
        (k, *final(pos) as int, *final(wants_more)) == spec_utf8(first, input@, *old(pos) as int),
        *final(pos) <= input@.len(),
{
    let len: usize = if 0xc2 <= first && first <= 0xdf {
        2
    } else if 0xe0 <= first && first <= 0xef {
        3
    } else if 0xf0 <= first && first <= 0xf4 {
        4
    } else {
        return Key::Unknown;
    };
    let start = *pos;
    let mut bytes: Vec<u8> = Vec::new();
    bytes.push(first);
    while bytes.len() < len
        invariant
            2 <= len <= 4,
            len == utf8_width(first),
            1 <= bytes@.len() <= len,
            start <= input@.len(),
            start == *old(pos),
            *pos == start + bytes@.len() - 1,
            *pos <= input@.len(),
            bytes@ == seq![first] + input@.subrange(start as int, *pos as int),
            !*wants_more,
        decreases len - bytes@.len(),
    {
        match read_byte_optional(input, pos) {
            Some(byte) => {
                bytes.push(byte);
                proof {
                    assert(bytes@ =~= seq![first] + input@.subrange(start as int, *pos as int));
                }
            },
            None => {
                *wants_more = true;
                proof {
                    assert(*pos == input@.len());
                    assert(start + len - 1 > input@.len());
                    assert(spec_utf8(first, input@, start as int) == (
                        Key::Unknown,
                        input@.len() as int,
                        true,
                    ));
                }
                return Key::Unknown;
            },
        }
    }
    match str_from_utf8(bytes.as_slice()) {
        Some(s) => {
            let chars = chars_of(s);
            if chars.len() > 0 {
                Key::Sym(chars[0])
            } else {
                Key::Unknown
            }
        },
        None => Key::Unknown,
    }
}

/// Reads what follows an escape byte; see `spec_escape`.
fn read_escape_sequence(input: &[u8], pos: &mut usize, wants_more: &mut bool) -> (k: Key)
    requires
        *old(pos) <= input@.len(),
        !*old(wants_more),
    ensures
        (k, *final(pos) as int, *final(wants_more)) == spec_escape(input@, *old(pos) as int),
        *final(pos) <= input@.len(),
{
    let first = match read_byte_optional(input, pos) {
        Some(b) => b,
        None => {
            *wants_more = true;
            return Key::Escape;
        },
    };
    if first == 0x5b {
        read_csi_sequence(input, pos, wants_more)
    } else if first == 0x4f {
        read_ss3_sequence(input, pos, wants_more)
    } else {
        match read_plain_key(first, input, pos, wants_more) {
            Key::Sym(ch) => Key::Alt(ch),
            _ => Key::Unknown,
        }
    }
}

/// Reads the byte after `ESC O`; see `spec_ss3`.
fn read_ss3_sequence(input: &[u8], pos: &mut usize, wants_more: &mut bool) -> (k: Key)
    requires
        *old(pos) <= input@.len(),
        !*old(wants_more),
    ensures
        (k, *final(pos) as int, *final(wants_more)) == spec_ss3(input@, *old(pos) as int),
        *final(pos) <= input@.len(),
{
    let final_byte = match read_byte_optional(input, pos) {
        Some(b) => b,
        None => {
            *wants_more = true;
            return Key::Escape;
        },
    };
    if final_byte == 0x48 {
        Key::Home
    } else if final_byte == 0x46 {
        Key::End
    } else if final_byte == 0x41 {
        Key::ArrowUp
    } else if final_byte == 0x42 {
        Key::ArrowDown
    } else if final_byte == 0x43 {
        Key::ArrowRight
    } else if final_byte == 0x44 {
        Key::ArrowLeft
    } else {
        Key::Unknown
    }
}

/// Reads a control sequence up to its final byte; see `spec_csi`.
fn read_csi_sequence(input: &[u8], pos: &mut usize, wants_more: &mut bool) -> (k: Key)
    requires
        *old(pos) <= input@.len(),
        !*old(wants_more),
    ensures
        (k, *final(pos) as int, *final(wants_more)) == spec_csi(input@, *old(pos) as int),
        *final(pos) <= input@.len(),
{
    let start = *pos;
    let mut seq: Vec<u8> = Vec::new();
    let mut done = false;
    while !done
        invariant
            start <= *pos <= input@.len(),
            seq@ == input@.subrange(start as int, *pos as int),
            !done ==> csi_end(input@, start as int) == csi_end(input@, *pos as int) && !*wants_more,
            done && *wants_more ==> *pos == input@.len() && csi_end(input@, start as int)
                == input@.len(),
            done && !*wants_more ==> *pos > start && csi_end(input@, start as int) == *pos - 1,
        decreases input@.len() - *pos, if done {
            0int
        } else {
            1int
        },
    {
        match read_byte_optional(input, pos) {
            Some(byte) => {
                seq.push(byte);
                proof {
                    assert(seq@ =~= input@.subrange(start as int, *pos as int));
                }
                if 0x40 <= byte && byte <= 0x7e {
                    done = true;
                }
            },
            None => {
                *wants_more = true;
                done = true;
            },
        }
    }
    parse_csi_sequence(seq.as_slice())
}

/// The key a control sequence stands for; see `spec_parse_csi`.
fn parse_csi_sequence(seq: &[u8]) -> (k: Key)
    ensures
        k == spec_parse_csi(seq@),
{
    let n = seq.len();
    if n == 1 {
        let b = seq[0];
        proof {
            assert(seq@ =~= seq![b]);
        }
        if b == 0x41 {
            return Key::ArrowUp;
        } else if b == 0x42 {
            return Key::ArrowDown;
        } else if b == 0x43 {
            return Key::ArrowRight;
        } else if b == 0x44 {
            return Key::ArrowLeft;
        } else if b == 0x48 {
            return Key::Home;
        } else if b == 0x46 {
            return Key::End;
        }
    }
    proof {
        if n != 1 {
            assert(seq@.len() != seq![0x41u8].len());
        }
    }
    if n == 2 && seq[1] == 0x7e {
        let b = seq[0];
        if b == 0x31 || b == 0x37 {
            return Key::Home;
        } else if b == 0x34 || b == 0x38 {
            return Key::End;
        } else if b == 0x35 {
            return Key::PageUp;
        } else if b == 0x36 {
            return Key::PageDown;
        }
    }
    if n >= 1 && seq[0] == 0x3c {
        return parse_sgr_mouse(seq, 1);
    }
    if n >= 1 && seq[0] == 0x4d {
        return parse_x10_mouse(seq, 1);
    }
    Key::Unknown
}

/// An SGR mouse report in `seq[from..]`; see `spec_sgr_mouse`.
fn parse_sgr_mouse(seq: &[u8], from: usize) -> (k: Key)
    requires
        from <= seq@.len(),
    ensures
        k == spec_sgr_mouse(seq@.skip(from as int)),
{
    let ghost s = seq@.skip(from as int);
    let n = seq.len();
    if n == from {
        return Key::Unknown;
    }
    let final_byte = seq[n - 1];
    if final_byte != 0x4d && final_byte != 0x6d {
        return Key::Unknown;
    }
    let mut end = from;
    proof {
        assert(s.drop_last() =~= seq@.subrange(from as int, n - 1));
        let field = first_field(seq@.subrange(from as int, n - 1));
        assert(seq@.subrange(from as int, from as int) + field =~= field);
    }
    while end < n - 1 && seq[end] != 0x3b
        invariant
            from <= end <= n - 1,
            n == seq@.len(),
            first_field(s.drop_last()) == seq@.subrange(from as int, end as int) + first_field(
                seq@.subrange(end as int, n - 1),
            ),
        decreases n - 1 - end,
    {
        proof {
            let rest = seq@.subrange(end as int, n - 1);
            assert(rest.drop_first() =~= seq@.subrange(end + 1, n - 1));
            assert(seq@.subrange(from as int, end + 1) =~= seq@.subrange(from as int, end as int)
                + seq![seq@[end as int]]);
        }
        end += 1;
    }
    proof {
        assert(s.drop_last() =~= seq@.subrange(from as int, n - 1));
        let rest = seq@.subrange(end as int, n - 1);
        if end < n - 1 {
            assert(rest[0] == 0x3b);
        }
        assert(first_field(rest) =~= Seq::<u8>::empty());
        assert(seq@.subrange(from as int, end as int) + Seq::<u8>::empty() =~= seq@.subrange(
            from as int,
            end as int,
        ));
    }
    match parse_u8_field(seq, from, end) {
        Some(code) => scroll_key(code),
        None => Key::Unknown,
    }
}

/// `u8::from_str` on the ASCII bytes `seq[a..b]`; see `parse_u8_bytes`.
fn parse_u8_field(seq: &[u8], a: usize, b: usize) -> (r: Option<u8>)
    requires
        a <= b <= seq@.len(),
    ensures
        r == parse_u8_bytes(seq@.subrange(a as int, b as int)),
{
    let ghost s = seq@.subrange(a as int, b as int);
    let mut i = a;
    if i < b && seq[i] == 0x2b {
        i += 1;
    }
    let ghost d = seq@.subrange(i as int, b as int);
    proof {
        if s.len() > 0 && s[0] == 0x2b {
            assert(s.drop_first() =~= d);
        } else {
            assert(s =~= d);
        }
    }
    if i == b {
        return None;
    }
    let first = i;
    let mut value: u32 = 0;
    while i < b
        invariant
            first <= i <= b <= seq@.len(),
            first < b,
            d == seq@.subrange(first as int, b as int),
            d == strip_plus_bytes(s),
            s == seq@.subrange(a as int, b as int),
            value <= 256,
            value == min256(byte_digits_value(seq@.subrange(first as int, i as int))),
            forall|j: int| first <= j < i ==> 0x30 <= #[trigger] seq@[j] <= 0x39,
        decreases b - i,
    {
        let c = seq[i];
        if !(0x30 <= c && c <= 0x39) {
            proof {
                assert(d[i - first] == c);
                assert(!(0x30 <= strip_plus_bytes(s)[i - first] <= 0x39));
            }
            return None;
        }
        let dv = (c - 0x30) as u32;
        let ghost before = seq@.subrange(first as int, i as int);
        proof {
            assert(seq@.subrange(first as int, i + 1).drop_last() =~= before);
            lemma_min256_step(byte_digits_value(before), dv as nat);
        }
        value = if value * 10 + dv < 256 {
            value * 10 + dv
        } else {
            256
        };
        i += 1;
    }
    proof {
        assert forall|j: int| 0 <= j < d.len() implies 0x30 <= #[trigger] d[j] <= 0x39 by {
            assert(d[j] == seq@[first + j]);
        }
    }
    if value < 256 {
        Some(value as u8)
    } else {
        None
    }
}

/// `s` without a leading `+` byte.
pub open spec fn strip_plus_bytes(s: Seq<u8>) -> Seq<u8> {
    if s.len() > 0 && s[0] == 0x2b {
        s.drop_first()
    } else {
        s
    }
}

/// `min(n, 256)`.
pub open spec fn min256(n: nat) -> nat {
    if n < 256 {
        n
    } else {
        256
    }
}

proof fn lemma_min256_step(v: nat, d: nat)
    requires
        d < 10,
    ensures
        min256(v * 10 + d) == min256(min256(v) * 10 + d),
{
    if v >= 256 {
        assert(v * 10 + d >= 256) by (nonlinear_arith)
            requires
                v >= 256,
        ;
    }
}

/// An X10 mouse report in `seq[from..]`; see `spec_x10_mouse`.
fn parse_x10_mouse(seq: &[u8], from: usize) -> (k: Key)
    requires
        from <= seq@.len(),
    ensures
        k == spec_x10_mouse(seq@.skip(from as int)),
{
    if seq.len() - from < 3 {
        return Key::Unknown;
    }
    let b = seq[from];
    scroll_key(if b >= 32 {
        b - 32
    } else {
        0
    })
}

/// The key a mouse button code stands for; see `spec_scroll_key`.
fn scroll_key(button_code: u8) -> (k: Key)
    ensures
        k == spec_scroll_key(button_code),
{
    if button_code & 64 == 0 {
        return Key::Unknown;
    }
    if button_code & 1 == 0 {
        Key::ScrollUp
    } else {
        Key::ScrollDown
    }
}

/// Reads one key from the bytes a terminal sent, the first of them already
/// there; the end of `input` stands for a byte that did not arrive in time.
/// Reports the key, the bytes used, and whether more were asked for.
pub fn read_key(input: &[u8]) -> (r: KeyRead)
    requires
        input@.len() >= 1,
    ensures
        (r.key, r.used as int, r.wants_more) == spec_read_key(input@),
{
    let mut pos: usize = 1;
    let mut wants_more = false;
    let key = if input[0] == ESC_BYTE {
        read_escape_sequence(input, &mut pos, &mut wants_more)
    } else {
        read_plain_key(input[0], input, &mut pos, &mut wants_more)
    };
    KeyRead { key, used: pos, wants_more }
}

/// What an escape byte in front makes of a key: a character becomes the same
/// character with Alt, anything else is unknown.
pub open spec fn with_alt(key: Key) -> Key {
    match key {
        Key::Sym(ch) => Key::Alt(ch),
        _ => Key::Unknown,
    }
}

/// An escape byte in front of the bytes of a key that starts with neither
/// another escape nor `[` or `O` reads as that key with Alt: the same bytes
/// are used, plus the escape, and more are asked for exactly when the key
/// alone asks for them.
pub proof fn law_escape_adds_alt(input: Seq<u8>)
    requires
        input.len() >= 1,
        input[0] != ESC_BYTE,
        input[0] != 0x5b,
        input[0] != 0x4f,
    ensures
        spec_read_key(seq![ESC_BYTE] + input) == (
            with_alt(spec_read_key(input).0),
            spec_read_key(input).1 + 1,
            spec_read_key(input).2,
        ),
{
    let x = seq![ESC_BYTE] + input;
    let b = input[0];
    assert(x[0] == ESC_BYTE);
    assert(x[1] == b);
    let w = utf8_width(b);
    if w > 0 && 1 + w - 1 <= input.len() {
        assert(x.subrange(2, 2 + w - 1) =~= input.subrange(1, 1 + w - 1));
    }
}

/// A control sequence that starts within the input ends at or after its
/// start and within the input.
proof fn lemma_csi_end_bounds(input: Seq<u8>, pos: int)
    requires
        0 <= pos <= input.len(),
    ensures
        pos <= csi_end(input, pos) <= input.len(),
    decreases input.len() - pos,
{
    if pos < input.len() && !is_final_byte(input[pos]) {
        lemma_csi_end_bounds(input, pos + 1);
    }
}

/// Reading a key uses at least one byte and never more than it was given; it
/// asks for more only after using every byte.
pub proof fn law_read_key_stays_in_input(input: Seq<u8>)
    requires
        input.len() >= 1,
    ensures
        1 <= spec_read_key(input).1 <= input.len(),
        spec_read_key(input).2 ==> spec_read_key(input).1 == input.len(),
{
    if input.len() >= 2 {
        lemma_csi_end_bounds(input, 2);
    }
}

} // verus!
