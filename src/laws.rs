//! Properties of every dump, stated over the model of `layout` and proved.
use vstd::arithmetic::div_mod::{lemma_div_is_ordered, lemma_fundamental_div_mod};
use vstd::prelude::*;

use vstd::arithmetic::div_mod::lemma_div_multiples_vanish;

use crate::dumper::Dumper;
use crate::layout::{
    ascii_field, ascii_text, bar, chunk, consumed, contents, control_picture,
    data_line, dump_lines, group_count, hex_field, hex_fixed, hex_pad_length, is_printable, legend,
    legend_line, lemma_ceil_div, lemma_hex_len_bound, lemma_line_start, line_total, lines_view, min,
    offset_field, pad_right, pow16, repeat_char, rule_line, DumpConfig,
};

verus! {

proof fn lemma_hex_fixed_len(n: nat, k: nat)
    ensures
        hex_fixed(n, k).len() == k,
    decreases k,
{
    if k > 0 {
        lemma_hex_fixed_len(n / 16, (k - 1) as nat);
    }
}

/// Offsets below 2^32 take exactly eight digits.
proof fn lemma_offset_field_len(n: nat)
    requires
        n < 0x1_0000_0000,
    ensures
        offset_field(n).len() == 8,
{
    assert(pow16(8) == 0x1_0000_0000) by {
        reveal_with_fuel(pow16, 9);
    }
    lemma_hex_len_bound(n, 8);
    lemma_hex_fixed_len(n, 8);
}

/// Going from `x - 1` to `x` bytes adds a group exactly when `x` is a multiple of `g`.
proof fn lemma_div_step(x: nat, g: nat)
    requires
        x >= 1,
        g >= 1,
    ensures
        x / g == (x - 1) as nat / g + (if x % g == 0 {
            1nat
        } else {
            0nat
        }),
{
    let y = (x - 1) as nat;
    lemma_fundamental_div_mod(x as int, g as int);
    lemma_fundamental_div_mod(y as int, g as int);
    let q = x / g;
    let r = x % g;
    let q2 = y / g;
    let r2 = y % g;
    if r == 0 {
        assert(q == q2 + 1) by (nonlinear_arith)
            requires
                x == g * q,
                y == g * q2 + r2,
                0 <= r2 < g,
                y == x - 1,
                g >= 1,
        ;
    } else {
        assert(q == q2) by (nonlinear_arith)
            requires
                x == g * q + r,
                1 <= r < g,
                y == g * q2 + r2,
                0 <= r2 < g,
                y == x - 1,
        ;
    }
}

/// `n` bytes take `2n` digits and one space between each two groups.
proof fn lemma_hex_field_len(bytes: Seq<u8>, g: nat)
    requires
        g >= 1,
    ensures
        hex_field(bytes, g).len() == (if bytes.len() == 0 {
            0
        } else {
            2 * bytes.len() + (bytes.len() - 1) as nat / g
        }),
    decreases bytes.len(),
{
    if bytes.len() > 0 {
        let n = bytes.len();
        lemma_hex_field_len(bytes.drop_last(), g);
        lemma_hex_fixed_len(bytes.last() as nat, 2);
        if n >= 2 {
            lemma_div_step((n - 1) as nat, g);
        }
    }
}

/// The pad width is the width of the hex field of a full line.
proof fn lemma_pad_length(c: DumpConfig)
    requires
        c.wf(),
    ensures
        hex_pad_length(c) == 2 * c.line_width + (c.line_width - 1) as nat / c.byte_group_length,
        group_count(c) == (c.line_width - 1) as nat / c.byte_group_length + 1,
{
    let w = c.line_width;
    let g = c.byte_group_length;
    let m = (w - 1) as nat;
    lemma_fundamental_div_mod(m as int, g as int);
    let q = m / g;
    let r = m % g;
    assert((2 * g + 1) * w >= 1) by (nonlinear_arith)
        requires
            g >= 1,
            w >= 1,
    ;
    let p = ((2 * g + 1) * w - 1) as nat;
    lemma_fundamental_div_mod(p as int, g as int);
    assert(p / g == 2 * w + q) by (nonlinear_arith)
        requires
            p == (2 * g + 1) * w - 1,
            m == w - 1,
            m == g * q + r,
            0 <= r < g,
            p == g * (p / g) + p % g,
            0 <= p % g < g,
    ;
    let t = (w + g - 1) as nat;
    lemma_fundamental_div_mod(t as int, g as int);
    assert(t / g == q + 1) by (nonlinear_arith)
        requires
            t == w + g - 1,
            m == w - 1,
            m == g * q + r,
            0 <= r < g,
            t == g * (t / g) + t % g,
            0 <= t % g < g,
    ;
}

proof fn lemma_legend_len(k: nat, g: nat)
    requires
        k >= 1,
        g >= 1,
    ensures
        legend(k, g).len() == 2 * k + (k - 1) * (2 * g - 1),
    decreases k,
{
    lemma_hex_fixed_len(0, 2);
    if k > 1 {
        lemma_legend_len((k - 1) as nat, g);
        lemma_hex_fixed_len(((k - 1) * g) as nat, 2);
        let prev = legend((k - 1) as nat, g);
        let gap = repeat_char(' ', (2 * g - 1) as nat);
        assert(legend(k, g) == prev + gap + hex_fixed(((k - 1) * g) as nat, 2));
        assert(gap.len() == 2 * g - 1);
        let km = (k - 1) as nat;
        assert(prev.len() == 2 * km + (km - 1) * (2 * g - 1));
        assert(prev.len() + gap.len() + 2 == 2 * k + (k - 1) * (2 * g - 1)) by (nonlinear_arith)
            requires
                prev.len() == 2 * km + (km - 1) * (2 * g - 1),
                gap.len() == 2 * g - 1,
                km == k - 1,
        ;
    } else {
        assert((k - 1) * (2 * g - 1) == 0) by (nonlinear_arith)
            requires
                k == 1,
        ;
    }
}

/// Every hex field is padded to the same width as the header's, so the
/// column separators of every data line and of both header lines stand in
/// the same columns: the chunk of a line holds at most `line_width` bytes,
/// and offsets below 2^32 take eight digits.
pub proof fn lemma_hex_column_width(c: DumpConfig, offset: nat, chunk: Seq<u8>)
    requires
        c.wf(),
        chunk.len() <= c.line_width,
        offset < 0x1_0000_0000,
    ensures
        pad_right(hex_field(chunk, c.byte_group_length), hex_pad_length(c)).len() == hex_pad_length(
            c,
        ),
        pad_right(legend(group_count(c), c.byte_group_length), hex_pad_length(c)).len()
            == hex_pad_length(c),
        data_line(c, offset, chunk)[9] == '|',
        data_line(c, offset, chunk)[12 + hex_pad_length(c) as int] == '|',
        legend_line(c)[9] == '|',
        legend_line(c)[12 + hex_pad_length(c) as int] == '|',
        rule_line(c)[9] == '+',
        rule_line(c)[12 + hex_pad_length(c) as int] == '+',
{
    let w = c.line_width;
    let g = c.byte_group_length;
    let pad = hex_pad_length(c);
    lemma_pad_length(c);
    lemma_hex_field_len(chunk, g);
    let n = chunk.len();
    if n > 0 {
        lemma_div_is_ordered((n - 1) as int, (w - 1) as int, g as int);
    }
    let k = group_count(c);
    lemma_legend_len(k, g);
    let q = (w - 1) as nat / g;
    lemma_fundamental_div_mod((w - 1) as int, g as int);
    assert(2 * k + (k - 1) * (2 * g - 1) <= pad) by (nonlinear_arith)
        requires
            k == q + 1,
            pad == 2 * w + q,
            g * q <= w - 1,
            g >= 1,
    ;
    let hex = pad_right(hex_field(chunk, g), pad);
    let leg = pad_right(legend(k, g), pad);
    lemma_offset_field_len(offset);
    let line = data_line(c, offset, chunk);
    assert(line == offset_field(offset) + bar() + hex + bar() + ascii_field(
        chunk,
        c.control_pictures,
    ));
    assert(line[9] == bar()[1]);
    assert(line[12 + pad as int] == bar()[1]);
    let head = legend_line(c);
    assert(head == repeat_char(' ', 9) + seq!['|', ' '] + leg + bar() + repeat_char(' ', w));
    assert(head[9] == '|');
    assert(head[12 + pad as int] == bar()[1]);
    let rule = rule_line(c);
    assert(rule[9] == '+');
    assert(rule[12 + pad as int] == '+');
}

/// Data line `k` shows bytes of the shown prefix only, and ends where it
/// would end in the source as a whole.
proof fn lemma_chunk_in_shown(c: DumpConfig, n: nat, k: nat)
    requires
        c.wf(),
        k < line_total(c, n),
    ensures
        k * c.line_width < consumed(c, n),
        min((k + 1) * c.line_width, n) == min((k + 1) * c.line_width, consumed(c, n)),
        k * c.line_width <= min((k + 1) * c.line_width, n),
{
    let w = c.line_width;
    let shown = consumed(c, n);
    lemma_line_start(k, shown, w);
    lemma_total_le_limit(c, n);
    assert(k * w <= (k + 1) * w) by (nonlinear_arith);
    if let Some(m) = c.line_count {
        assert((k + 1) * w <= m * w) by (nonlinear_arith)
            requires
                k + 1 <= m,
        ;
    }
}

/// A line limit of `m` allows at most `m` data lines; together the data
/// lines cover all the bytes that are shown.
proof fn lemma_total_le_limit(c: DumpConfig, n: nat)
    requires
        c.wf(),
    ensures
        c.line_count matches Some(m) ==> line_total(c, n) <= m,
        line_total(c, n) * c.line_width >= consumed(c, n),
{
    let w = c.line_width;
    let shown = consumed(c, n);
    let total = line_total(c, n);
    lemma_ceil_div(shown, w);
    lemma_fundamental_div_mod(shown as int, w as int);
    let q = shown / w;
    let r = shown % w;
    assert(total * w >= shown) by (nonlinear_arith)
        requires
            total == q + (if r == 0 {
                0int
            } else {
                1int
            }),
            shown == w * q + r,
            r < w,
    ;
    if let Some(m) = c.line_count {
        assert(total <= m) by (nonlinear_arith)
            requires
                total == q + (if r == 0 {
                    0int
                } else {
                    1int
                }),
                shown == w * q + r,
                0 <= r < w,
                shown <= m * w,
        ;
    }
}

proof fn lemma_ascii_field_concat(a: Seq<u8>, b: Seq<u8>, control_pictures: bool)
    ensures
        ascii_field(a + b, control_pictures) == ascii_field(a, control_pictures) + ascii_field(
            b,
            control_pictures,
        ),
{
    assert(ascii_field(a + b, control_pictures) =~= ascii_field(a, control_pictures)
        + ascii_field(b, control_pictures));
}

proof fn lemma_ascii_text_prefix(c: DumpConfig, src: Seq<u8>, k: nat)
    requires
        c.wf(),
        k <= line_total(c, src.len()),
    ensures
        ascii_text(c, src, k) == ascii_field(
            src.take(min(k * c.line_width, consumed(c, src.len())) as int),
            c.control_pictures,
        ),
    decreases k,
{
    let w = c.line_width;
    let n = src.len();
    let shown = consumed(c, n);
    if k == 0 {
        assert(src.take(0) =~= Seq::<u8>::empty());
        assert(ascii_field(src.take(0), c.control_pictures) =~= Seq::<char>::empty());
    } else {
        let j = (k - 1) as nat;
        lemma_ascii_text_prefix(c, src, j);
        lemma_chunk_in_shown(c, n, j);
        let start = j * w;
        let end = min((j + 1) * w, n);
        assert(src.take(end as int) =~= src.take(start as int) + src.subrange(
            start as int,
            end as int,
        ));
        lemma_ascii_field_concat(
            src.take(start as int),
            src.subrange(start as int, end as int),
            c.control_pictures,
        );
        assert(k * w == (j + 1) * w);
    }
}

/// The ASCII fields of the data lines, read in order, hold one character per
/// shown byte of the source, in the source's order: a printable byte stands
/// for itself, any other byte for its placeholder.
pub proof fn lemma_ascii_round_trip(c: DumpConfig, src: Seq<u8>)
    requires
        c.wf(),
    ensures
        ascii_text(c, src, line_total(c, src.len())) == ascii_field(
            src.take(consumed(c, src.len()) as int),
            c.control_pictures,
        ),
        ascii_text(c, src, line_total(c, src.len())).len() == consumed(c, src.len()),
        forall|i: int|
            #![trigger ascii_text(c, src, line_total(c, src.len()))[i]]
            0 <= i < consumed(c, src.len()) ==> {
                let shown = ascii_text(c, src, line_total(c, src.len()))[i];
                &&& is_printable(src[i]) ==> shown == src[i] as char
                &&& !is_printable(src[i]) ==> shown == (if src[i] < 0x20 && c.control_pictures {
                    control_picture(src[i])
                } else {
                    '.'
                })
            },
{
    let n = src.len();
    let total = line_total(c, n);
    lemma_ascii_text_prefix(c, src, total);
    lemma_total_le_limit(c, n);
}

/// A source whose length is a multiple of the line width fills every data
/// line (no line is short); one more byte adds exactly one data line, which
/// holds that byte alone, and leaves the other lines as they were.
pub proof fn lemma_exact_multiple(c: DumpConfig, src: Seq<u8>, b: u8)
    requires
        c.wf(),
        c.line_count is None,
        src.len() % c.line_width == 0,
    ensures
        line_total(c, src.len()) == src.len() / c.line_width,
        forall|k: nat| k < line_total(c, src.len()) ==> (#[trigger] chunk(c, src, k)).len() == c.line_width,
        contents(c, src.push(b)) == contents(c, src).push(data_line(c, src.len(), seq![b])),
{
    let w = c.line_width;
    let n = src.len();
    let q = n / w;
    lemma_ceil_div(n, w);
    lemma_fundamental_div_mod(n as int, w as int);
    assert(n == q * w) by (nonlinear_arith)
        requires
            n == w * q + n % w,
            n % w == 0,
    ;
    assert forall|k: nat| k < line_total(c, n) implies (#[trigger] chunk(c, src, k)).len() == w by {
        assert((k + 1) * w <= q * w) by (nonlinear_arith)
            requires
                k + 1 <= q,
        ;
        assert((k + 1) * w == k * w + w) by (nonlinear_arith);
    }
    let longer = src.push(b);
    lemma_div_multiples_vanish((q + 1) as int, w as int);
    assert((n + 1 + w - 1) as nat == w * (q + 1)) by (nonlinear_arith)
        requires
            n == q * w,
    ;
    assert(line_total(c, n + 1) == q + 1);
    let before = contents(c, src);
    let after = contents(c, longer);
    let last = data_line(c, n, seq![b]);
    assert forall|k: int| 0 <= k < q + 1 implies #[trigger] after[k] == before.push(last)[k] by {
        let kn = k as nat;
        if k < q {
            assert((kn + 1) * w <= q * w) by (nonlinear_arith)
                requires
                    kn + 1 <= q,
            ;
            assert(kn * w <= (kn + 1) * w) by (nonlinear_arith);
            let lo = (kn * w) as int;
            let hi = ((kn + 1) * w) as int;
            assert(chunk(c, longer, kn) == longer.subrange(lo, hi));
            assert(chunk(c, src, kn) == src.subrange(lo, hi));
            assert(longer.subrange(lo, hi) =~= src.subrange(lo, hi));
        } else {
            assert((kn + 1) * w >= n + 1) by (nonlinear_arith)
                requires
                    kn == q,
                    n == q * w,
                    w >= 1,
            ;
            assert(kn * w == n) by (nonlinear_arith)
                requires
                    kn == q,
                    n == q * w,
            ;
            assert(chunk(c, longer, kn) =~= seq![b]);
        }
    }
    assert(after =~= before.push(last));
}

/// With a line limit of `m`, a dump has at most `m` data lines, and they
/// depend on the first `m * line_width` bytes of the source alone: no byte
/// past those is needed. With a limit of zero only the two header lines
/// remain.
pub proof fn lemma_line_limit(c: DumpConfig, src: Seq<u8>, m: nat)
    requires
        c.wf(),
        c.line_count == Some(m),
    ensures
        line_total(c, src.len()) <= m,
        contents(c, src) == contents(c, src.take(min(src.len(), m * c.line_width) as int)),
        m == 0 ==> dump_lines(c, src) == seq![legend_line(c), rule_line(c)],
{
    let w = c.line_width;
    let n = src.len();
    let shown = consumed(c, n);
    lemma_total_le_limit(c, n);
    let head = src.take(shown as int);
    assert(consumed(c, head.len()) == shown);
    assert forall|k: int| 0 <= k < line_total(c, n) implies #[trigger] contents(c, src)[k]
        == contents(c, head)[k] by {
        lemma_chunk_in_shown(c, n, k as nat);
        assert(chunk(c, src, k as nat) =~= chunk(c, head, k as nat));
    }
    assert(contents(c, src) =~= contents(c, head));
    if m == 0 {
        assert(line_total(c, n) == 0);
        assert(dump_lines(c, src) =~= seq![legend_line(c), rule_line(c)]);
    }
}

/// Dumping the same source with the same options twice gives the same lines.
pub proof fn lemma_dump_deterministic(
    first: Dumper,
    second: Dumper,
    src: Seq<u8>,
    out1: Seq<String>,
    out2: Seq<String>,
)
    requires
        first@ == second@,
        lines_view(out1) == dump_lines(first@, src),
        lines_view(out2) == dump_lines(second@, src),
    ensures
        lines_view(out1) == lines_view(out2),
{
}

} // verus!
