//! Building the fields of a dump line into a `String`, one character at a time.
use vstd::prelude::*;
use vstd::utf8::is_scalar;

use crate::layout::{
    ascii_char, ascii_field, byte_hex, group_sep, hex_digit, hex_field, hex_fixed, hex_len,
    lemma_hex_len_bound, offset_field, pow16, repeat_char,
};

verus! {

/// Relies on `String::push`, which appends the given `char` to the end of the string.
#[verifier::external_body]
pub(crate) fn push_char(s: &mut String, c: char)
    ensures
        final(s)@ == old(s)@.push(c),
{
    s.push(c);
}

/// Relies on `char::from_u32`, which returns the `char` with the given code
/// point when it is a Unicode scalar value, and `None` otherwise.
#[verifier::external_body]
fn char_from_u32(v: u32) -> (r: Option<char>)
    ensures
        r == (if is_scalar(v) {
            Some(v as char)
        } else {
            None
        }),
{
    char::from_u32(v)
}

/// Appends `n` copies of `c`.
pub(crate) fn push_repeat(s: &mut String, c: char, n: usize)
    ensures
        final(s)@ == old(s)@ + repeat_char(c, n as nat),
{
    let mut i: usize = 0;
    while i < n
        invariant
            i <= n,
            s@ == old(s)@ + repeat_char(c, i as nat),
        decreases n - i,
    {
        push_char(s, c);
        i = i + 1;
        assert(s@ =~= old(s)@ + repeat_char(c, i as nat));
    }
}

/// Appends the field separator ` | `.
pub(crate) fn push_bar(s: &mut String)
    ensures
        final(s)@ == old(s)@ + seq![' ', '|', ' '],
{
    push_char(s, ' ');
    push_char(s, '|');
    push_char(s, ' ');
    assert(s@ =~= old(s)@ + seq![' ', '|', ' ']);
}

fn hex_digit_char(d: u8) -> (c: char)
    requires
        d < 16,
    ensures
        c == hex_digit(d as nat),
{
    if d < 10 {
        (d + 48) as char
    } else {
        (d + 87) as char
    }
}

/// Appends the `k` least significant hexadecimal digits of `n`.
pub(crate) fn push_hex(s: &mut String, n: usize, k: usize)
    ensures
        final(s)@ == old(s)@ + hex_fixed(n as nat, k as nat),
    decreases k,
{
    if k > 0 {
        push_hex(s, n / 16, k - 1);
        push_char(s, hex_digit_char((n % 16) as u8));
        assert(s@ =~= old(s)@ + hex_fixed(n as nat, k as nat));
    } else {
        assert(s@ =~= old(s)@ + hex_fixed(n as nat, k as nat));
    }
}

fn hex_digit_count(n: usize) -> (r: usize)
    ensures
        r == hex_len(n as nat),
    decreases n,
{
    if n < 16 {
        1
    } else {
        proof {
            reveal_with_fuel(pow16, 17);
            lemma_hex_len_bound(n as nat, 16);
        }
        1 + hex_digit_count(n / 16)
    }
}

/// Appends a chunk offset, zero-padded to at least 8 hexadecimal digits.
pub(crate) fn push_offset(s: &mut String, n: usize)
    ensures
        final(s)@ == old(s)@ + offset_field(n as nat),
{
    let len = hex_digit_count(n);
    let k = if len < 8 {
        8
    } else {
        len
    };
    push_hex(s, n, k);
}

/// Appends the hex field of `bytes` with groups of `g` bytes, and returns
/// how many characters it took.
pub(crate) fn push_hex_field(s: &mut String, bytes: &[u8], g: usize) -> (r: usize)
    requires
        g >= 1,
        bytes@.len() <= 256,
    ensures
        final(s)@ == old(s)@ + hex_field(bytes@, g as nat),
        r == hex_field(bytes@, g as nat).len(),
{
    let mut i: usize = 0;
    let mut written: usize = 0;
    while i < bytes.len()
        invariant
            g >= 1,
            bytes@.len() <= 256,
            i <= bytes@.len(),
            s@ == old(s)@ + hex_field(bytes@.take(i as int), g as nat),
            written == hex_field(bytes@.take(i as int), g as nat).len(),
            written <= 3 * i,
        decreases bytes@.len() - i,
    {
        let ghost before = s@;
        proof {
            let next = bytes@.take(i + 1);
            assert(next.drop_last() =~= bytes@.take(i as int));
            assert(next.last() == bytes@[i as int]);
        }
        if i > 0 && i % g == 0 {
            push_char(s, ' ');
            written = written + 1;
        }
        let b = bytes[i];
        push_char(s, hex_digit_char(b / 16));
        push_char(s, hex_digit_char(b % 16));
        written = written + 2;
        proof {
            assert(byte_hex(b) =~= seq![hex_digit((b / 16) as nat), hex_digit((b % 16) as nat)]) by {
                reveal_with_fuel(hex_fixed, 3);
            }
            assert(s@ =~= before + group_sep(i as nat, g as nat) + byte_hex(b));
        }
        i = i + 1;
    }
    assert(bytes@.take(i as int) =~= bytes@);
    written
}

/// Pads a field that took `written` characters with spaces up to `width`.
pub(crate) fn push_padding(s: &mut String, written: usize, width: usize)
    ensures
        final(s)@ == old(s)@ + (if written < width {
            repeat_char(' ', (width - written) as nat)
        } else {
            seq![]
        }),
{
    if written < width {
        push_repeat(s, ' ', width - written);
    } else {
        assert(s@ =~= old(s)@ + seq![]);
    }
}

pub(crate) fn ascii_glyph(b: u8, control_pictures: bool) -> (c: char)
    ensures
        c == ascii_char(b, control_pictures),
{
    if b < 0x20 {
        if control_pictures {
            let v: u32 = b as u32 + 0x2400;
            assert(is_scalar(v));
            match char_from_u32(v) {
                Some(c) => c,
                None => '.',
            }
        } else {
            '.'
        }
    } else if b < 0x7f {
        b as char
    } else {
        '.'
    }
}

/// Appends the ASCII field of `bytes`.
pub(crate) fn push_ascii_field(s: &mut String, bytes: &[u8], control_pictures: bool)
    ensures
        final(s)@ == old(s)@ + ascii_field(bytes@, control_pictures),
{
    let mut i: usize = 0;
    while i < bytes.len()
        invariant
            i <= bytes@.len(),
            s@ == old(s)@ + ascii_field(bytes@.take(i as int), control_pictures),
        decreases bytes@.len() - i,
    {
        push_char(s, ascii_glyph(bytes[i], control_pictures));
        i = i + 1;
        assert(s@ =~= old(s)@ + ascii_field(bytes@.take(i as int), control_pictures));
    }
    assert(bytes@.take(i as int) =~= bytes@);
}

} // verus!
