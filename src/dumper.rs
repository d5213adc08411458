//! The dump formatter: a validated configuration, and the functions that turn
//! a byte source into the lines of a dump.
use vstd::arithmetic::div_mod::lemma_fundamental_div_mod;
use vstd::prelude::*;

use crate::layout::{
    consumed, contents, data_line, dump_lines, group_count, hex_field, hex_fixed, hex_pad_length,
    legend, legend_line, lemma_ceil_div, lemma_line_start, lemma_mul_le_iff_le_div, line_total,
    lines_view, min, pad_right, rule_line, DumpConfig,
};
use crate::text::{
    push_ascii_field, push_bar, push_char, push_hex, push_hex_field, push_offset, push_padding,
    push_repeat,
};

verus! {

/// An option that was given a value outside `1..=256`.
#[derive(Clone, Copy, Debug, PartialEq, Eq, Structural)]
pub enum InvalidConfiguration {
    LineWidth(usize),
    ByteGroupLength(usize),
}

/// A hex dump formatter: the display options, built with chained setters.
#[derive(Clone, Copy, Debug)]
pub struct Dumper {
    control_pictures: bool,
    line_count: Option<usize>,
    line_width: usize,
    byte_group_length: usize,
}

impl View for Dumper {
    type V = DumpConfig;

    closed spec fn view(&self) -> DumpConfig {
        DumpConfig {
            control_pictures: self.control_pictures,
            line_count: match self.line_count {
                Some(n) => Some(n as nat),
                None => None,
            },
            line_width: self.line_width as nat,
            byte_group_length: self.byte_group_length as nat,
        }
    }
}

impl Dumper {
    #[verifier::type_invariant]
    spec fn inv(&self) -> bool {
        &&& 1 <= self.line_width <= 256
        &&& 1 <= self.byte_group_length <= 256
    }

    /// The options every dump starts from: placeholders for control codes,
    /// no line limit, 16 bytes per line, groups of one byte.
    pub fn new() -> (r: Dumper)
        ensures
            r@ == (DumpConfig {
                control_pictures: false,
                line_count: None,
                line_width: 16,
                byte_group_length: 1,
            }),
    {
        Dumper { control_pictures: false, line_count: None, line_width: 0x10, byte_group_length: 1 }
    }

    /// Whether C0 control codes are shown as glyphs of the Control Pictures
    /// block rather than as `.`.
    pub fn control_pictures(self, control_pictures: bool) -> (r: Dumper)
        ensures
            r@ == (DumpConfig { control_pictures, ..self@ }),
    {
        proof {
            use_type_invariant(&self);
        }
        Dumper { control_pictures, ..self }
    }

    /// The largest number of data lines to show; `None` shows them all.
    pub fn line_count(self, line_count: Option<usize>) -> (r: Dumper)
        ensures
            r@ == (DumpConfig {
                line_count: match line_count {
                    Some(n) => Some(n as nat),
                    None => None,
                },
                ..self@
            }),
    {
        proof {
            use_type_invariant(&self);
        }
        Dumper { line_count, ..self }
    }

    /// The number of bytes per line, which must lie in `1..=256`.
    pub fn line_width(self, line_width: usize) -> (r: Result<Dumper, InvalidConfiguration>)
        ensures
            r is Ok <==> 1 <= line_width <= 256,
            r is Ok ==> r->Ok_0@ == (DumpConfig { line_width: line_width as nat, ..self@ }),
            r is Err ==> r->Err_0 == InvalidConfiguration::LineWidth(line_width),
    {
        proof {
            use_type_invariant(&self);
        }
        if line_width == 0 || line_width > 256 {
            Err(InvalidConfiguration::LineWidth(line_width))
        } else {
            Ok(Dumper { line_width, ..self })
        }
    }

    /// The number of bytes run together between two spaces of the hex field,
    /// which must lie in `1..=256`.
    pub fn byte_group_length(self, byte_group_length: usize) -> (r: Result<
        Dumper,
        InvalidConfiguration,
    >)
        ensures
            r is Ok <==> 1 <= byte_group_length <= 256,
            r is Ok ==> r->Ok_0@ == (DumpConfig {
                byte_group_length: byte_group_length as nat,
                ..self@
            }),
            r is Err ==> r->Err_0 == InvalidConfiguration::ByteGroupLength(byte_group_length),
    {
        proof {
            use_type_invariant(&self);
        }
        if byte_group_length == 0 || byte_group_length > 256 {
            Err(InvalidConfiguration::ByteGroupLength(byte_group_length))
        } else {
            Ok(Dumper { byte_group_length, ..self })
        }
    }

    /// The width that every hex field is padded to.
    fn get_line_hex_pad_length(&self) -> (r: usize)
        ensures
            r == hex_pad_length(self@),
            r <= 1024,
    {
        proof {
            use_type_invariant(self);
        }
        let group_characters = 2 * self.byte_group_length + 1;
        assert(group_characters * self.line_width <= 513 * 256) by (nonlinear_arith)
            requires
                group_characters <= 513,
                self.line_width <= 256,
        ;
        assert(group_characters * self.line_width >= 1) by (nonlinear_arith)
            requires
                group_characters >= 3,
                self.line_width >= 1,
        ;
        let p = group_characters * self.line_width - 1;
        let r = p / self.byte_group_length;
        proof {
            lemma_fundamental_div_mod(p as int, self.byte_group_length as int);
            let g = self.byte_group_length as int;
            assert(r * g <= p) by (nonlinear_arith)
                requires
                    p as int == g * r + (p as int) % g,
                    (p as int) % g >= 0,
            ;
            assert(p <= (2 * g + 1) * 256) by (nonlinear_arith)
                requires
                    p == (2 * g + 1) * self.line_width - 1,
                    self.line_width <= 256,
                    g >= 1,
            ;
            assert(r <= 1024) by (nonlinear_arith)
                requires
                    r * g <= p,
                    p <= (2 * g + 1) * 256,
                    g >= 1,
            ;
        }
        r
    }

    /// Formats one data line for the bytes `line_bytes` found at byte offset
    /// `chunk_offset` of the source.
    pub fn format_line(&self, chunk_offset: usize, line_bytes: &[u8]) -> (r: String)
        requires
            line_bytes@.len() <= self@.line_width,
        ensures
            r@ == data_line(self@, chunk_offset as nat, line_bytes@),
    {
        proof {
            use_type_invariant(self);
        }
        let mut line = String::new();
        push_offset(&mut line, chunk_offset);
        push_bar(&mut line);
        let ghost before_hex = line@;
        let written = push_hex_field(&mut line, line_bytes, self.byte_group_length);
        let pad_length = self.get_line_hex_pad_length();
        push_padding(&mut line, written, pad_length);
        assert(line@ =~= before_hex + pad_right(
            hex_field(line_bytes@, self@.byte_group_length),
            hex_pad_length(self@),
        ));
        push_bar(&mut line);
        push_ascii_field(&mut line, line_bytes, self.control_pictures);
        line
    }

    /// The number of bytes a dump of a `len`-byte source shows.
    fn shown_bytes(&self, len: usize) -> (r: usize)
        ensures
            r == consumed(self@, len as nat),
    {
        proof {
            use_type_invariant(self);
        }
        match self.line_count {
            Some(n) => {
                proof {
                    lemma_mul_le_iff_le_div(n as nat, len as nat, self.line_width as nat);
                }
                if n <= len / self.line_width {
                    n * self.line_width
                } else {
                    len
                }
            },
            None => len,
        }
    }

    /// Formats the data lines of a dump of `source`: one per chunk of
    /// `line_width` bytes (the last may be shorter), at most `line_count`.
    pub fn format_contents(&self, source: &[u8]) -> (r: Vec<String>)
        ensures
            lines_view(r@) == contents(self@, source@),
    {
        proof {
            use_type_invariant(self);
        }
        let ghost c = self@;
        let len = source.len();
        let w = self.line_width;
        let shown = self.shown_bytes(len);
        proof {
            lemma_ceil_div(shown as nat, w as nat);
            lemma_fundamental_div_mod(shown as int, w as int);
            if shown % w != 0 {
                let q = shown / w;
                let r = shown % w;
                assert(q < shown) by (nonlinear_arith)
                    requires
                        shown == w * q + r,
                        r >= 1,
                        w >= 1,
                        q >= 0,
                ;
            }
        }
        let total = shown / w + if shown % w == 0 {
            0
        } else {
            1
        };
        assert(total == line_total(c, len as nat));
        let mut lines: Vec<String> = Vec::new();
        let mut k: usize = 0;
        while k < total
            invariant
                c == self@,
                c.wf(),
                w == c.line_width,
                len == source@.len(),
                shown == consumed(c, len as nat),
                shown <= len,
                total == line_total(c, len as nat),
                k <= total,
                lines_view(lines@) == contents(c, source@).take(k as int),
            decreases total - k,
        {
            proof {
                lemma_line_start(k as nat, shown as nat, w as nat);
            }
            let start = k * w;
            let end = if len - start <= w {
                len
            } else {
                start + w
            };
            assert(end == min(((k + 1) * w) as nat, len as nat)) by (nonlinear_arith)
                requires
                    start == k * w,
                    end == (if len - start <= w {
                        len as int
                    } else {
                        start + w
                    }),
            ;
            let line = self.format_line(start, &source[start..end]);
            assert(line@ == contents(c, source@)[k as int]);
            let ghost before = lines@;
            lines.push(line);
            proof {
                assert(lines@ == before.push(line));
                assert(lines_view(lines@) =~= lines_view(before).push(line@));
            }
            k = k + 1;
            assert(lines_view(lines@) =~= contents(c, source@).take(k as int));
        }
        assert(contents(c, source@).take(k as int) =~= contents(c, source@));
        lines
    }

    /// The first header line: the in-line offset of each group, above it.
    fn byte_offsets_line(&self) -> (r: String)
        ensures
            r@ == legend_line(self@),
    {
        proof {
            use_type_invariant(self);
        }
        let ghost c = self@;
        let g = self.byte_group_length;
        let w = self.line_width;
        let count = (w + g - 1) / g;
        proof {
            let m = (w + g - 1) as int;
            let gi = g as int;
            lemma_fundamental_div_mod(m, gi);
            assert(count <= 256) by (nonlinear_arith)
                requires
                    m == gi * count + m % gi,
                    m % gi >= 0,
                    m == w + gi - 1,
                    w <= 256,
                    gi >= 1,
            ;
        }
        let mut line = String::new();
        push_repeat(&mut line, ' ', 9);
        push_char(&mut line, '|');
        push_char(&mut line, ' ');
        let ghost head = line@;
        let mut k: usize = 0;
        let mut written: usize = 0;
        while k < count
            invariant
                c == self@,
                c.wf(),
                g == c.byte_group_length,
                w == c.line_width,
                count == group_count(c),
                count <= 256,
                k <= count,
                line@ == head + legend(k as nat, g as nat),
                written == legend(k as nat, g as nat).len(),
                written <= k * (2 * g + 1),
            decreases count - k,
        {
            let ghost before = line@;
            if k > 0 {
                push_repeat(&mut line, ' ', 2 * g - 1);
            }
            assert(k * g < 256 * 256) by (nonlinear_arith)
                requires
                    k < count,
                    count <= 256,
                    g <= 256,
            ;
            push_hex(&mut line, k * g, 2);
            proof {
                reveal_with_fuel(hex_fixed, 3);
                if k == 0 {
                    assert(line@ =~= head + legend(1, g as nat));
                } else {
                    assert(line@ =~= head + legend((k + 1) as nat, g as nat));
                }
                assert(written + 2 * g + 1 <= (k + 1) * (2 * g + 1)) by (nonlinear_arith)
                    requires
                        written <= k * (2 * g + 1),
                ;
                assert((k + 1) * (2 * g + 1) <= 256 * 513) by (nonlinear_arith)
                    requires
                        k < 256,
                        g <= 256,
                ;
            }
            written = written + if k > 0 {
                2 * g + 1
            } else {
                2
            };
            k = k + 1;
        }
        let pad_length = self.get_line_hex_pad_length();
        push_padding(&mut line, written, pad_length);
        push_bar(&mut line);
        push_repeat(&mut line, ' ', w);
        assert(line@ =~= legend_line(c));
        line
    }

    /// The second header line: a rule of dashes joined by `+`.
    fn separator_line(&self) -> (r: String)
        ensures
            r@ == rule_line(self@),
    {
        let mut line = String::new();
        push_repeat(&mut line, '-', 9);
        push_char(&mut line, '+');
        push_char(&mut line, '-');
        let pad_length = self.get_line_hex_pad_length();
        push_repeat(&mut line, '-', pad_length);
        push_char(&mut line, '-');
        push_char(&mut line, '+');
        push_char(&mut line, '-');
        push_repeat(&mut line, '-', self.line_width);
        assert(line@ =~= rule_line(self@));
        line
    }

    /// The whole dump of `source`: the two header lines, then the data lines.
    pub fn dump(&self, source: &[u8]) -> (r: Vec<String>)
        ensures
            lines_view(r@) == dump_lines(self@, source@),
    {
        let mut lines: Vec<String> = Vec::new();
        lines.push(self.byte_offsets_line());
        lines.push(self.separator_line());
        let mut data = self.format_contents(source);
        lines.append(&mut data);
        assert(lines_view(lines@) =~= dump_lines(self@, source@));
        lines
    }

    /// How many bytes of the source a dump can show: `line_count` lines of
    /// `line_width` bytes, or `None` when there is no limit (or it exceeds
    /// the address space).
    pub fn byte_limit(&self) -> (r: Option<usize>)
        ensures
            r == (match self@.line_count {
                Some(n) => if n * self@.line_width <= usize::MAX {
                    Some((n * self@.line_width) as usize)
                } else {
                    None
                },
                None => None,
            }),
    {
        match self.line_count {
            Some(n) => n.checked_mul(self.line_width),
            None => None,
        }
    }
}

} // verus!
