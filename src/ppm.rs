use vstd::prelude::*;

use crate::image_config::ImageConfig;
use vstd::arithmetic::div_mod::{lemma_fundamental_div_mod, lemma_fundamental_div_mod_converse};

verus! {

/// The ASCII line feed that ends every line.
pub const NEWLINE: u8 = 10;

/// The ASCII space that separates values on a line.
pub const SPACE: u8 = 32;

/// The ASCII digit `0`; the other digits follow it.
pub const DIGIT_ZERO: u8 = 48;

/// The ASCII letter `P` that starts the PPM magic.
pub const LETTER_P: u8 = 80;

/// A pixel quantized to three 8-bit channels, as a PPM file stores it.
#[derive(Debug, Clone, Copy, PartialEq, Eq, Structural)]
pub struct Rgb8 {
    pub r: u8,
    pub g: u8,
    pub b: u8,
}

/// The ASCII byte of the decimal digit `d`.
pub open spec fn digit_byte(d: nat) -> u8 {
    (DIGIT_ZERO + d) as u8
}

/// The decimal text of `n`, most significant digit first, without leading zeros.
pub open spec fn decimal(n: nat) -> Seq<u8>
    decreases n,
{
    if n < 10 {
        seq![digit_byte(n)]
    } else {
        decimal(n / 10).push(digit_byte(n % 10))
    }
}

/// Appends the decimal text of `n` to `out`.
pub fn push_decimal(out: &mut Vec<u8>, n: u32)
    ensures
        final(out)@ == old(out)@ + decimal(n as nat),
    decreases n,
{
    if n >= 10 {
        push_decimal(out, n / 10);
    }
    let d = (n % 10) as u8;
    out.push(DIGIT_ZERO + d);
}


/// The text of one pixel: its three channels in decimal, separated by single spaces.
pub open spec fn pixel_line(c: Rgb8) -> Seq<u8> {
    decimal(c.r as nat) + seq![SPACE] + decimal(c.g as nat) + seq![SPACE] + decimal(
        c.b as nat,
    )
}

/// The three header lines of a plain-text PPM image: the magic `P3`, the size as
/// `<width> <height>`, and the largest channel value `255`.
pub open spec fn header_lines(width: nat, height: nat) -> Seq<Seq<u8>> {
    seq![
        seq![LETTER_P, digit_byte(3)],
        decimal(width) + seq![SPACE] + decimal(height),
        seq![digit_byte(2), digit_byte(5), digit_byte(5)],
    ]
}

/// Index in the row-major buffer of the `k`-th pixel written out: the rows go top row
/// first, that is from the last scanline down to scanline 0, each from left to right.
pub open spec fn output_index(width: nat, height: nat, k: nat) -> int {
    (height - 1 - k / width) * width + k % width
}

proof fn lemma_output_index_bound(width: nat, height: nat, k: nat)
    requires
        k < width * height,
    ensures
        0 <= output_index(width, height, k) < width * height,
{
    let q = k / width;
    let r = k % width;
    assert(width > 0) by (nonlinear_arith)
        requires
            k < width * height,
    ;
    lemma_fundamental_div_mod(k as int, width as int);
    assert(0 <= r < width);
    assert(q < height) by (nonlinear_arith)
        requires
            k == width * q + r,
            0 <= r,
            k < width * height,
            width > 0,
            q >= 0,
    ;
    assert(0 <= (height - 1 - q) * width + r < width * height) by (nonlinear_arith)
        requires
            q < height,
            0 <= r < width,
            q >= 0,
    ;
}

/// The lines of the PPM image of `pixels`: the header, then one line per pixel.
pub open spec fn ppm_lines(width: nat, height: nat, pixels: Seq<Rgb8>) -> Seq<Seq<u8>> {
    header_lines(width, height) + Seq::new(
        width * height,
        |k: int| pixel_line(pixels[output_index(width, height, k as nat)]),
    )
}

/// `lines`, each ended by a newline.
pub open spec fn join_lines(lines: Seq<Seq<u8>>) -> Seq<u8>
    decreases lines.len(),
{
    if lines.len() == 0 {
        seq![]
    } else {
        join_lines(lines.drop_last()) + lines.last() + seq![NEWLINE]
    }
}

/// The number of newline bytes in `s`.
pub open spec fn newline_count(s: Seq<u8>) -> nat
    decreases s.len(),
{
    if s.len() == 0 {
        0
    } else {
        newline_count(s.drop_last()) + if s.last() == NEWLINE {
            1nat
        } else {
            0nat
        }
    }
}

proof fn lemma_newline_count_concat(a: Seq<u8>, b: Seq<u8>)
    ensures
        newline_count(a + b) == newline_count(a) + newline_count(b),
    decreases b.len(),
{
    if b.len() > 0 {
        assert((a + b).drop_last() =~= a + b.drop_last());
        lemma_newline_count_concat(a, b.drop_last());
    } else {
        assert(a + b =~= a);
    }
}

proof fn lemma_newline_count_single(b: u8)
    ensures
        newline_count(seq![b]) == if b == NEWLINE {
            1nat
        } else {
            0nat
        },
{
    assert(seq![b].drop_last() =~= Seq::<u8>::empty());
    assert(newline_count(Seq::<u8>::empty()) == 0);
}

proof fn lemma_decimal_has_no_newline(n: nat)
    ensures
        newline_count(decimal(n)) == 0,
    decreases n,
{
    if n < 10 {
        lemma_newline_count_single(digit_byte(n));
    } else {
        lemma_decimal_has_no_newline(n / 10);
        assert(decimal(n).drop_last() =~= decimal(n / 10));
    }
}

proof fn lemma_join_lines_newlines(lines: Seq<Seq<u8>>)
    requires
        forall|k: int| 0 <= k < lines.len() ==> newline_count(#[trigger] lines[k]) == 0,
    ensures
        newline_count(join_lines(lines)) == lines.len(),
    decreases lines.len(),
{
    if lines.len() > 0 {
        let init = lines.drop_last();
        assert forall|k: int| 0 <= k < init.len() implies newline_count(#[trigger] init[k]) == 0 by {
            assert(init[k] == lines[k]);
        }
        lemma_join_lines_newlines(init);
        assert(newline_count(lines[lines.len() - 1]) == 0);
        lemma_newline_count_concat(join_lines(init), lines.last());
        lemma_newline_count_concat(join_lines(init) + lines.last(), seq![NEWLINE]);
        lemma_newline_count_single(NEWLINE);
    }
}

/// The shape of a written image: a PPM stream of a `width` by `height` image starts with
/// the lines `P3`, `<width> <height>` and `255`, and has exactly `width * height + 3`
/// lines, one per pixel after the header.
pub proof fn lemma_ppm_shape(width: nat, height: nat, pixels: Seq<Rgb8>)
    requires
        pixels.len() == width * height,
    ensures
        ppm_lines(width, height, pixels).len() == width * height + 3,
        ppm_lines(width, height, pixels).take(3) == header_lines(width, height),
        newline_count(join_lines(ppm_lines(width, height, pixels))) == width * height + 3,
{
    let lines = ppm_lines(width, height, pixels);
    assert(lines.take(3) =~= header_lines(width, height));
    lemma_decimal_has_no_newline(width);
    lemma_decimal_has_no_newline(height);
    assert forall|k: int| 0 <= k < lines.len() implies newline_count(#[trigger] lines[k]) == 0 by {
        let sp = seq![SPACE];
        lemma_newline_count_single(SPACE);
        if k == 0 {
            lemma_newline_count_single(LETTER_P);
            lemma_newline_count_single(digit_byte(3));
            lemma_newline_count_concat(seq![LETTER_P], seq![digit_byte(3)]);
            assert(lines[k] =~= seq![LETTER_P] + seq![digit_byte(3)]);
        } else if k == 1 {
            lemma_newline_count_concat(decimal(width), sp);
            lemma_newline_count_concat(decimal(width) + sp, decimal(height));
        } else if k == 2 {
            lemma_newline_count_single(digit_byte(2));
            lemma_newline_count_single(digit_byte(5));
            lemma_newline_count_concat(seq![digit_byte(2)], seq![digit_byte(5)]);
            lemma_newline_count_concat(
                seq![digit_byte(2)] + seq![digit_byte(5)],
                seq![digit_byte(5)],
            );
            assert(lines[k] =~= seq![digit_byte(2)] + seq![digit_byte(5)] + seq![digit_byte(5)]);
        } else {
            let idx = (k - 3) as nat;
            lemma_output_index_bound(width, height, idx);
            let c = pixels[output_index(width, height, idx)];
            lemma_decimal_has_no_newline(c.r as nat);
            lemma_decimal_has_no_newline(c.g as nat);
            lemma_decimal_has_no_newline(c.b as nat);
            lemma_newline_count_concat(decimal(c.r as nat), sp);
            lemma_newline_count_concat(decimal(c.r as nat) + sp, decimal(c.g as nat));
            lemma_newline_count_concat(decimal(c.r as nat) + sp + decimal(c.g as nat), sp);
            lemma_newline_count_concat(
                decimal(c.r as nat) + sp + decimal(c.g as nat) + sp,
                decimal(c.b as nat),
            );
            assert(lines[k] == pixel_line(c));
        }
    }
    lemma_join_lines_newlines(lines);
}

/// Appends the text of `c`, and a newline, to `out`.
fn push_pixel_line(out: &mut Vec<u8>, c: Rgb8)
    ensures
        final(out)@ == old(out)@ + pixel_line(c) + seq![NEWLINE],
{
    push_decimal(out, c.r as u32);
    out.push(SPACE);
    push_decimal(out, c.g as u32);
    out.push(SPACE);
    push_decimal(out, c.b as u32);
    out.push(NEWLINE);
    assert(out@ =~= old(out)@ + pixel_line(c) + seq![NEWLINE]);
}

/// The plain-text PPM image of the row-major buffer `pixels` of an image of `config`:
/// the header, then one line per pixel, top row first.
pub fn write_ppm(config: &ImageConfig, pixels: &Vec<Rgb8>) -> (r: Vec<u8>)
    requires
        pixels@.len() == config.spec_pixel_count(),
    ensures
        r@ == join_lines(ppm_lines(config.width as nat, config.height as nat, pixels@)),
{
    let ghost w = config.width as nat;
    let ghost h = config.height as nat;
    let ghost lines = ppm_lines(w, h, pixels@);
    let n = pixels.len();
    let mut out: Vec<u8> = Vec::new();
    out.push(LETTER_P);
    out.push(DIGIT_ZERO + 3);
    out.push(NEWLINE);
    proof {
        assert(lines.take(1).drop_last() =~= lines.take(0));
        assert(lines[0] =~= seq![LETTER_P, digit_byte(3)]);
        assert(join_lines(lines.take(0)) =~= seq![]);
        assert(lines.take(1).last() == lines[0]);
        assert(out@ =~= join_lines(lines.take(1)));
    }
    push_decimal(&mut out, config.width);
    out.push(SPACE);
    push_decimal(&mut out, config.height);
    out.push(NEWLINE);
    proof {
        assert(lines.take(2).drop_last() =~= lines.take(1));
        assert(out@ =~= join_lines(lines.take(2)));
    }
    out.push(DIGIT_ZERO + 2);
    out.push(DIGIT_ZERO + 5);
    out.push(DIGIT_ZERO + 5);
    out.push(NEWLINE);
    proof {
        assert(lines.take(3).drop_last() =~= lines.take(2));
        assert(out@ =~= join_lines(lines.take(3)));
    }
    let mut row: u32 = config.height;
    let ghost mut k: int = 0;
    while row > 0
        invariant
            row <= config.height,
            w == config.width,
            h == config.height,
            pixels@.len() == w * h,
            n == w * h,
            lines == ppm_lines(w, h, pixels@),
            k == (h - row) * w,
            out@ == join_lines(lines.take(3 + k)),
        decreases row,
    {
        row = row - 1;
        proof {
            assert((row as nat) * w + w <= h * w) by (nonlinear_arith)
                requires
                    row < h,
            ;
            assert(h * w == w * h) by (nonlinear_arith);
        }
        let base: usize = (row as usize) * (config.width as usize);
        let mut i: u32 = 0;
        while i < config.width
            invariant
                row < config.height,
                i <= config.width,
                w == config.width,
                h == config.height,
                pixels@.len() == w * h,
                base == row * w,
                base + w <= n,
                n == w * h,
                lines == ppm_lines(w, h, pixels@),
                k == (h - 1 - row) * w + i,
                out@ == join_lines(lines.take(3 + k)),
            decreases config.width - i,
        {
            proof {
                assert(k < w * h) by (nonlinear_arith)
                    requires
                        k == (h - 1 - row) * w + i,
                        i < w,
                        row < h,
                ;
                lemma_fundamental_div_mod_converse(k, w as int, h - 1 - row, i as int);
                assert(output_index(w, h, k as nat) == base + i);
                assert(lines[3 + k] == pixel_line(pixels@[base + i]));
                assert(lines.take(3 + k + 1).drop_last() =~= lines.take(3 + k));
            }
            let c = pixels[base + i as usize];
            push_pixel_line(&mut out, c);
            i = i + 1;
            proof {
                k = k + 1;
            }
        }
        proof {
            assert((h - 1 - row) * w + w == (h - row) * w) by (nonlinear_arith)
                requires
                    row < h,
            ;
        }
    }
    proof {
        assert(h * w == w * h) by (nonlinear_arith);
        assert(lines.len() == 3 + w * h);
        assert(lines.take(3 + k) =~= lines);
    }
    out
}

} // verus!
