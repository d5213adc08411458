//! The mathematical model of a dump: what every line of output holds,
//! as sequences of characters computed from the configuration and the bytes.
use vstd::arithmetic::div_mod::lemma_fundamental_div_mod;
use vstd::prelude::*;

verus! {

/// The display options of a dump, as mathematical values.
pub struct DumpConfig {
    pub control_pictures: bool,
    pub line_count: Option<nat>,
    pub line_width: nat,
    pub byte_group_length: nat,
}

impl DumpConfig {
    /// Line width and byte-group length both lie in `1..=256`.
    pub open spec fn wf(self) -> bool {
        &&& 1 <= self.line_width <= 256
        &&& 1 <= self.byte_group_length <= 256
    }
}

pub open spec fn repeat_char(c: char, n: nat) -> Seq<char> {
    Seq::new(n, |_i: int| c)
}

/// The field separator ` | `.
pub open spec fn bar() -> Seq<char> {
    seq![' ', '|', ' ']
}

/// `s` left-justified in a field of `width` characters; never truncated.
pub open spec fn pad_right(s: Seq<char>, width: nat) -> Seq<char> {
    if s.len() < width {
        s + repeat_char(' ', (width - s.len()) as nat)
    } else {
        s
    }
}

/// The lowercase hexadecimal digit for a value below 16.
pub open spec fn hex_digit(d: nat) -> char {
    if d < 10 {
        (d + 48) as u8 as char
    } else {
        (d + 87) as u8 as char
    }
}

/// The `k` least significant hexadecimal digits of `n`, most significant first.
pub open spec fn hex_fixed(n: nat, k: nat) -> Seq<char>
    decreases k,
{
    if k == 0 {
        seq![]
    } else {
        hex_fixed(n / 16, (k - 1) as nat).push(hex_digit(n % 16))
    }
}

/// The number of hexadecimal digits of `n` without leading zeros (one for zero).
pub open spec fn hex_len(n: nat) -> nat
    decreases n,
{
    if n < 16 {
        1
    } else {
        1 + hex_len(n / 16)
    }
}

/// A chunk offset in lowercase hexadecimal, zero-padded to at least 8 digits.
pub open spec fn offset_field(n: nat) -> Seq<char> {
    hex_fixed(n, if hex_len(n) < 8 { 8 } else { hex_len(n) })
}

/// A byte as two lowercase hexadecimal digits.
pub open spec fn byte_hex(b: u8) -> Seq<char> {
    hex_fixed(b as nat, 2)
}

/// The space that opens a new group before the byte at index `i`.
pub open spec fn group_sep(i: nat, g: nat) -> Seq<char> {
    if i > 0 && i % g == 0 {
        seq![' ']
    } else {
        seq![]
    }
}

/// The hex field of a chunk: each group of `g` bytes as run-together digit
/// pairs, groups separated by one space.
pub open spec fn hex_field(bytes: Seq<u8>, g: nat) -> Seq<char>
    decreases bytes.len(),
{
    if bytes.len() == 0 {
        seq![]
    } else {
        hex_field(bytes.drop_last(), g) + group_sep((bytes.len() - 1) as nat, g) + byte_hex(
            bytes.last(),
        )
    }
}

/// A byte that stands for itself in the ASCII field.
pub open spec fn is_printable(b: u8) -> bool {
    0x20 <= b < 0x7f
}

/// The glyph of the Control Pictures block for a C0 control code.
pub open spec fn control_picture(b: u8) -> char {
    (b as int + 0x2400) as u32 as char
}

/// The character shown for one byte in the ASCII field.
pub open spec fn ascii_char(b: u8, control_pictures: bool) -> char {
    if b < 0x20 {
        if control_pictures {
            control_picture(b)
        } else {
            '.'
        }
    } else if b < 0x7f {
        b as char
    } else {
        '.'
    }
}

pub open spec fn ascii_field(bytes: Seq<u8>, control_pictures: bool) -> Seq<char> {
    bytes.map_values(|b: u8| ascii_char(b, control_pictures))
}

/// The width every hex field is padded to, from the configured line width
/// and group length.
pub open spec fn hex_pad_length(c: DumpConfig) -> nat {
    (((2 * c.byte_group_length + 1) * c.line_width - 1) as nat / c.byte_group_length) as nat
}

/// One data line: `<offset> | <padded hex field> | <ascii field>`.
pub open spec fn data_line(c: DumpConfig, offset: nat, chunk: Seq<u8>) -> Seq<char> {
    offset_field(offset) + bar() + pad_right(hex_field(chunk, c.byte_group_length), hex_pad_length(c))
        + bar() + ascii_field(chunk, c.control_pictures)
}

/// The number of groups in a full line.
pub open spec fn group_count(c: DumpConfig) -> nat {
    ((c.line_width + c.byte_group_length - 1) as nat / c.byte_group_length) as nat
}

/// The first `k` in-line offsets of groups (`0, g, 2g, ...`), two hex digits
/// each, spaced so that each sits above the first byte of its group.
pub open spec fn legend(k: nat, g: nat) -> Seq<char>
    decreases k,
{
    if k == 0 {
        seq![]
    } else if k == 1 {
        hex_fixed(0, 2)
    } else {
        legend((k - 1) as nat, g) + repeat_char(' ', (2 * g - 1) as nat) + hex_fixed(
            ((k - 1) * g) as nat,
            2,
        )
    }
}

/// The first header line: the in-line offset of each group.
pub open spec fn legend_line(c: DumpConfig) -> Seq<char> {
    repeat_char(' ', 9) + seq!['|', ' '] + pad_right(
        legend(group_count(c), c.byte_group_length),
        hex_pad_length(c),
    ) + bar() + repeat_char(' ', c.line_width)
}

/// The second header line: a rule of dashes across the three columns.
pub open spec fn rule_line(c: DumpConfig) -> Seq<char> {
    repeat_char('-', 9) + seq!['+', '-'] + repeat_char('-', hex_pad_length(c)) + seq!['-', '+', '-']
        + repeat_char('-', c.line_width)
}

pub open spec fn min(a: nat, b: nat) -> nat {
    if a <= b {
        a
    } else {
        b
    }
}

/// How many bytes of a source of `n` bytes the dump shows.
pub open spec fn consumed(c: DumpConfig, n: nat) -> nat {
    match c.line_count {
        Some(k) => min(n, k * c.line_width),
        None => n,
    }
}

/// How many data lines a source of `n` bytes yields.
pub open spec fn line_total(c: DumpConfig, n: nat) -> nat {
    ((consumed(c, n) + c.line_width - 1) as nat / c.line_width) as nat
}

/// The bytes shown on data line `k`: up to `line_width` bytes from offset
/// `k * line_width`.
pub open spec fn chunk(c: DumpConfig, src: Seq<u8>, k: nat) -> Seq<u8> {
    src.subrange((k * c.line_width) as int, min((k + 1) * c.line_width, src.len()) as int)
}

/// The data lines of a dump, in offset order.
pub open spec fn contents(c: DumpConfig, src: Seq<u8>) -> Seq<Seq<char>> {
    Seq::new(
        line_total(c, src.len()),
        |k: int| data_line(c, (k * c.line_width) as nat, chunk(c, src, k as nat)),
    )
}

/// The whole dump: the two header lines, then the data lines.
pub open spec fn dump_lines(c: DumpConfig, src: Seq<u8>) -> Seq<Seq<char>> {
    seq![legend_line(c), rule_line(c)] + contents(c, src)
}

/// The ASCII fields of the first `k` data lines, run together.
pub open spec fn ascii_text(c: DumpConfig, src: Seq<u8>, k: nat) -> Seq<char>
    decreases k,
{
    if k == 0 {
        seq![]
    } else {
        ascii_text(c, src, (k - 1) as nat) + ascii_field(
            chunk(c, src, (k - 1) as nat),
            c.control_pictures,
        )
    }
}

/// The characters of each string, in order.
pub open spec fn lines_view(v: Seq<String>) -> Seq<Seq<char>> {
    v.map_values(|s: String| s@)
}

// Arithmetic facts behind the layout.

pub(crate) open spec fn pow16(k: nat) -> nat
    decreases k,
{
    if k == 0 {
        1
    } else {
        16 * pow16((k - 1) as nat)
    }
}

pub(crate) proof fn lemma_hex_len_bound(n: nat, k: nat)
    requires
        k >= 1,
        n < pow16(k),
    ensures
        hex_len(n) <= k,
    decreases k,
{
    if n >= 16 {
        assert(pow16(1) == 16) by {
            reveal_with_fuel(pow16, 2);
        }
        assert(k >= 2);
        assert(n / 16 < pow16((k - 1) as nat)) by (nonlinear_arith)
            requires
                n < 16 * pow16((k - 1) as nat),
        ;
        lemma_hex_len_bound(n / 16, (k - 1) as nat);
    }
}

pub(crate) proof fn lemma_mul_le_iff_le_div(k: nat, n: nat, w: nat)
    requires
        w >= 1,
    ensures
        k <= n / w <==> k * w <= n,
{
    lemma_fundamental_div_mod(n as int, w as int);
    let q = n / w;
    let r = n % w;
    if k <= q {
        assert(k * w <= n) by (nonlinear_arith)
            requires
                k <= q,
                n == w * q + r,
                r >= 0,
                w >= 1,
        ;
    } else {
        assert(k * w > n) by (nonlinear_arith)
            requires
                k >= q + 1,
                n == w * q + r,
                r < w,
        ;
    }
}

pub(crate) proof fn lemma_ceil_div(m: nat, w: nat)
    requires
        w >= 1,
    ensures
        (m + w - 1) as nat / w == m / w + (if m % w == 0 {
            0nat
        } else {
            1nat
        }),
{
    lemma_fundamental_div_mod(m as int, w as int);
    lemma_fundamental_div_mod((m + w - 1) as int, w as int);
    let q = m / w;
    let r = m % w;
    let q2 = (m + w - 1) as nat / w;
    let r2 = (m + w - 1) as nat % w;
    if r == 0 {
        assert(q2 == q) by (nonlinear_arith)
            requires
                m == w * q,
                (m + w - 1) == w * q2 + r2,
                0 <= r2 < w,
                w >= 1,
        ;
    } else {
        assert(q2 == q + 1) by (nonlinear_arith)
            requires
                m == w * q + r,
                1 <= r < w,
                (m + w - 1) == w * q2 + r2,
                0 <= r2 < w,
                w >= 1,
        ;
    }
}

/// Data line `k` of a source that shows `m` bytes starts inside those bytes.
pub(crate) proof fn lemma_line_start(k: nat, m: nat, w: nat)
    requires
        w >= 1,
        k < (m + w - 1) as nat / w,
    ensures
        k * w < m,
{
    lemma_ceil_div(m, w);
    lemma_fundamental_div_mod(m as int, w as int);
    let q = m / w;
    let r = m % w;
    if r == 0 {
        assert(k * w < m) by (nonlinear_arith)
            requires
                k < q,
                m == w * q,
                w >= 1,
        ;
    } else {
        assert(k * w < m) by (nonlinear_arith)
            requires
                k <= q,
                m == w * q + r,
                r >= 1,
        ;
    }
}

} // verus!
