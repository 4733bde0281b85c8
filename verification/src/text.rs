//! Character-level helpers on strings: every string is viewed as its
//! sequence of Unicode scalar values (`s@`), and columns count characters.
use vstd::prelude::*;

verus! {

/// The characters of `s`, in order.
pub fn chars_of(s: &str) -> (v: Vec<char>)
    ensures
        v@ == s@,
{
    let mut v: Vec<char> = Vec::new();
    for ch in it: s.chars()
        invariant
            v@ == it.seq().take(it.index() as int),
            it.seq() == s@,
    {
        v.push(ch);
    }
    proof {
        assert(v@ =~= s@);
    }
    v
}

/// Appends one character; `String::push` from std.
#[verifier::external_body]
pub(crate) fn push_char(s: &mut String, c: char)
    ensures
        final(s)@ == old(s)@.push(c),
{
    s.push(c);
}

/// Appends the characters `v[start..end]` to `s`.
pub fn push_chars(s: &mut String, v: &Vec<char>, start: usize, end: usize)
    requires
        start <= end <= v@.len(),
    ensures
        final(s)@ == old(s)@ + v@.subrange(start as int, end as int),
{
    let mut i = start;
    while i < end
        invariant
            start <= i <= end <= v@.len(),
            s@ == old(s)@ + v@.subrange(start as int, i as int),
        decreases end - i,
    {
        push_char(s, v[i]);
        i = i + 1;
        proof {
            assert(v@.subrange(start as int, i as int) =~= v@.subrange(
                start as int,
                i - 1,
            ).push(v@[i - 1]));
        }
    }
}

/// A string holding the characters `v[start..end]`.
pub fn string_of(v: &Vec<char>, start: usize, end: usize) -> (s: String)
    requires
        start <= end <= v@.len(),
    ensures
        s@ == v@.subrange(start as int, end as int),
{
    let mut s = String::new();
    push_chars(&mut s, v, start, end);
    proof {
        assert(s@ =~= v@.subrange(start as int, end as int));
    }
    s
}

/// The number of characters of `s`.
pub fn char_len(s: &str) -> (n: usize)
    ensures
        n == s@.len(),
{
    chars_of(s).len()
}

/// The characters of `s` with indices in `start..end`, clamped to the end of `s`;
/// `start` must not exceed `end`.
pub fn char_slice(s: &str, start: usize, end: usize) -> (r: String)
    requires
        start <= end,
    ensures
        r@ == s@.subrange(clamp(start as int, s@.len() as int), clamp(end as int, s@.len() as int)),
{
    let v = chars_of(s);
    let a = if start < v.len() {
        start
    } else {
        v.len()
    };
    let b = if end < v.len() {
        end
    } else {
        v.len()
    };
    string_of(&v, a, b)
}

/// `min(i, n)`.
pub open spec fn clamp(i: int, n: int) -> int {
    if i < n {
        i
    } else {
        n
    }
}

/// Equality of two strings, character by character.
pub fn str_eq(a: &str, b: &str) -> (r: bool)
    ensures
        r == (a@ == b@),
{
    let va = chars_of(a);
    let vb = chars_of(b);
    if va.len() != vb.len() {
        return false;
    }
    let mut i: usize = 0;
    while i < va.len()
        invariant
            va@ == a@,
            vb@ == b@,
            va@.len() == vb@.len(),
            i <= va@.len(),
            forall|j: int| 0 <= j < i ==> va@[j] == vb@[j],
        decreases va@.len() - i,
    {
        if va[i] != vb[i] {
            return false;
        }
        i = i + 1;
    }
    proof {
        assert(va@ =~= vb@);
    }
    true
}

/// The decimal digit character of `d` (`d < 10`).
pub open spec fn digit_char(d: nat) -> char {
    if d == 0 {
        '0'
    } else if d == 1 {
        '1'
    } else if d == 2 {
        '2'
    } else if d == 3 {
        '3'
    } else if d == 4 {
        '4'
    } else if d == 5 {
        '5'
    } else if d == 6 {
        '6'
    } else if d == 7 {
        '7'
    } else if d == 8 {
        '8'
    } else {
        '9'
    }
}

/// The decimal notation of `n`, without leading zeros.
pub open spec fn decimal(n: nat) -> Seq<char>
    decreases n,
{
    if n < 10 {
        seq![digit_char(n)]
    } else {
        decimal(n / 10).push(digit_char(n % 10))
    }
}

fn digit_of(d: usize) -> (c: char)
    requires
        d < 10,
    ensures
        c == digit_char(d as nat),
{
    if d == 0 {
        '0'
    } else if d == 1 {
        '1'
    } else if d == 2 {
        '2'
    } else if d == 3 {
        '3'
    } else if d == 4 {
        '4'
    } else if d == 5 {
        '5'
    } else if d == 6 {
        '6'
    } else if d == 7 {
        '7'
    } else if d == 8 {
        '8'
    } else {
        '9'
    }
}

/// Appends the decimal notation of `n`.
pub fn push_decimal(s: &mut String, n: usize)
    ensures
        final(s)@ == old(s)@ + decimal(n as nat),
    decreases n,
{
    if n >= 10 {
        push_decimal(s, n / 10);
    }
    push_char(s, digit_of(n % 10));
    proof {
        if n >= 10 {
            assert(decimal(n as nat) == decimal((n / 10) as nat).push(digit_char((n % 10) as nat)));
        }
    }
}

/// The decimal notation of `n` as a string.
pub fn decimal_string(n: usize) -> (s: String)
    ensures
        s@ == decimal(n as nat),
{
    let mut s = String::new();
    push_decimal(&mut s, n);
    proof {
        assert(s@ =~= decimal(n as nat));
    }
    s
}

/// `s` with a trailing newline removed, if there is one.
pub open spec fn without_final_newline(s: Seq<char>) -> Seq<char> {
    if s.len() > 0 && s.last() == '\n' {
        s.drop_last()
    } else {
        s
    }
}

/// The pieces of `s` between occurrences of `sep`, as `str::split` yields them:
/// `k` separators give `k + 1` pieces.
pub open spec fn split_on(s: Seq<char>, sep: char) -> Seq<Seq<char>>
    decreases s.len(),
{
    if s.len() == 0 {
        seq![Seq::<char>::empty()]
    } else {
        let rest = split_on(s.drop_last(), sep);
        if s.last() == sep {
            rest.push(Seq::<char>::empty())
        } else {
            rest.update(rest.len() - 1, rest.last().push(s.last()))
        }
    }
}

pub proof fn lemma_split_on_nonempty(s: Seq<char>, sep: char)
    ensures
        split_on(s, sep).len() >= 1,
    decreases s.len(),
{
    if s.len() > 0 {
        lemma_split_on_nonempty(s.drop_last(), sep);
    }
}

/// Splits `v[0..n]` on `sep`.
pub fn split_chars(v: &Vec<char>, sep: char) -> (parts: Vec<String>)
    ensures
        parts@.len() == split_on(v@, sep).len(),
        forall|i: int| 0 <= i < parts@.len() ==> #[trigger] parts@[i]@ == split_on(v@, sep)[i],
{
    let mut parts: Vec<String> = Vec::new();
    let mut cur = String::new();
    let mut i: usize = 0;
    while i < v.len()
        invariant
            i <= v@.len(),
            parts@.len() + 1 == split_on(v@.take(i as int), sep).len(),
            forall|j: int|
                0 <= j < parts@.len() ==> #[trigger] parts@[j]@ == split_on(
                    v@.take(i as int),
                    sep,
                )[j],
            cur@ == split_on(v@.take(i as int), sep).last(),
        decreases v@.len() - i,
    {
        proof {
            lemma_split_on_nonempty(v@.take(i as int), sep);
            assert(v@.take(i + 1).drop_last() =~= v@.take(i as int));
        }
        if v[i] == sep {
            parts.push(cur);
            cur = String::new();
        } else {
            push_char(&mut cur, v[i]);
        }
        i = i + 1;
    }
    proof {
        lemma_split_on_nonempty(v@, sep);
        assert(v@.take(v@.len() as int) =~= v@);
    }
    parts.push(cur);
    proof {
        assert forall|j: int| 0 <= j < parts@.len() implies #[trigger] parts@[j]@ == split_on(
            v@,
            sep,
        )[j] by {}
    }
    parts
}

} // verus!

verus! {

/// `char::is_alphanumeric`: the character is Alphabetic or Numeric in the
/// Unicode Character Database.
pub uninterp spec fn is_alphanumeric_char(c: char) -> bool;

/// `char::is_whitespace`: the character has the Unicode White_Space property.
pub open spec fn is_white_space(c: char) -> bool {
    let u = c as u32;
    ||| 0x9 <= u <= 0xd
    ||| u == 0x20
    ||| u == 0x85
    ||| u == 0xa0
    ||| u == 0x1680
    ||| 0x2000 <= u <= 0x200a
    ||| u == 0x2028
    ||| u == 0x2029
    ||| u == 0x202f
    ||| u == 0x205f
    ||| u == 0x3000
}

/// `char::is_control`: the character is in the general category Cc.
pub open spec fn is_control_char(c: char) -> bool {
    let u = c as u32;
    u <= 0x1f || (0x7f <= u <= 0x9f)
}

/// An ASCII letter or digit.
pub open spec fn is_ascii_alnum(c: char) -> bool {
    ('a' <= c <= 'z') || ('A' <= c <= 'Z') || ('0' <= c <= '9')
}

/// `char::is_alphanumeric` from std.  Stated: the result is the named
/// property; on ASCII it holds exactly of letters and digits; no White_Space
/// character has it.  Which non-ASCII characters have it is left to the name.
#[verifier::external_body]
pub(crate) fn is_alphanumeric(c: char) -> (r: bool)
    ensures
        r == is_alphanumeric_char(c),
        (c as u32) < 128 ==> (r <==> is_ascii_alnum(c)),
        is_white_space(c) ==> !r,
{
    c.is_alphanumeric()
}

/// Whether `c` has the Unicode White_Space property, as `char::is_whitespace`
/// decides it.
pub fn is_whitespace(c: char) -> (r: bool)
    ensures
        r == is_white_space(c),
{
    let u = c as u32;
    (0x9 <= u && u <= 0xd) || u == 0x20 || u == 0x85 || u == 0xa0 || u == 0x1680 || (0x2000 <= u
        && u <= 0x200a) || u == 0x2028 || u == 0x2029 || u == 0x202f || u == 0x205f || u == 0x3000
}

/// Whether `c` is in the general category Cc (control codes), as
/// `char::is_control` decides it.
pub fn is_control(c: char) -> (r: bool)
    ensures
        r == is_control_char(c),
{
    let u = c as u32;
    u <= 0x1f || (0x7f <= u && u <= 0x9f)
}

} // verus!

verus! {

/// A string of the one character `c`.
pub fn char_string(c: char) -> (s: String)
    ensures
        s@ == seq![c],
{
    let mut s = String::new();
    push_char(&mut s, c);
    proof {
        assert(s@ =~= seq![c]);
    }
    s
}

/// `s` has no `sep` exactly when splitting it at `sep` yields one piece.
pub proof fn lemma_split_single_iff(s: Seq<char>, sep: char)
    ensures
        split_on(s, sep).len() == 1 <==> !s.contains(sep),
    decreases s.len(),
{
    if s.len() > 0 {
        lemma_split_single_iff(s.drop_last(), sep);
        lemma_split_on_nonempty(s.drop_last(), sep);
        if s.drop_last().contains(sep) {
            let i = choose|i: int| 0 <= i < s.drop_last().len() && s.drop_last()[i] == sep;
            assert(s[i] == sep);
        }
        if s.contains(sep) && s.last() != sep {
            let i = choose|i: int| 0 <= i < s.len() && s[i] == sep;
            assert(s.drop_last()[i] == sep);
        }
        if s.last() == sep {
            assert(s[s.len() - 1] == sep);
        }
    }
}

/// Whether `s` holds the character `c`.
pub fn contains_char(s: &str, c: char) -> (r: bool)
    ensures
        r == s@.contains(c),
{
    let v = chars_of(s);
    let mut i: usize = 0;
    while i < v.len()
        invariant
            v@ == s@,
            i <= v@.len(),
            forall|j: int| 0 <= j < i ==> v@[j] != c,
        decreases v@.len() - i,
    {
        if v[i] == c {
            return true;
        }
        i += 1;
    }
    false
}

} // verus!

verus! {

/// A text that starts with a newline splits into at least two pieces.
pub proof fn lemma_newline_splits(s: Seq<char>)
    requires
        s.len() > 0,
        s[0] == '\n',
    ensures
        split_on(s, '\n').len() != 1,
        split_on(s, '\n').len() >= 1,
{
    lemma_split_single_iff(s, '\n');
    lemma_split_on_nonempty(s, '\n');
    assert(s.contains('\n'));
}

} // verus!

verus! {

/// Appends the escape sequence `ESC [ code m`.
pub fn push_sgr(s: &mut String, code: char)
    ensures
        final(s)@ == old(s)@ + seq!['\x1b', '[', code, 'm'],
{
    push_char(s, '\x1b');
    push_char(s, '[');
    push_char(s, code);
    push_char(s, 'm');
    proof {
        assert(s@ =~= old(s)@ + seq!['\x1b', '[', code, 'm']);
    }
}

/// The escape sequence that moves the terminal cursor to `row`, `col`.
pub open spec fn move_seq(row: nat, col: nat) -> Seq<char> {
    seq!['\x1b', '['] + decimal(row) + seq![';'] + decimal(col) + seq!['H']
}

/// Appends the escape sequence that moves the terminal cursor to `row`, `col`.
pub fn push_move(s: &mut String, row: usize, col: usize)
    ensures
        final(s)@ == old(s)@ + move_seq(row as nat, col as nat),
{
    push_char(s, '\x1b');
    push_char(s, '[');
    push_decimal(s, row);
    push_char(s, ';');
    push_decimal(s, col);
    push_char(s, 'H');
    proof {
        assert(s@ =~= old(s)@ + move_seq(row as nat, col as nat));
    }
}

} // verus!
