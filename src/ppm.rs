use vstd::prelude::*;

use crate::canvas::Pixel;

verus! {

/// The ASCII decimal digits of `n`, most significant first, without leading zeros.
pub open spec fn decimal(n: nat) -> Seq<u8>
    decreases n,
{
    if n < 10 {
        seq![(48 + n) as u8]
    } else {
        decimal(n / 10).push((48 + n % 10) as u8)
    }
}

/// The header of a plain-text pixel map `w` wide and `h` high whose channels reach 255:
/// `P3`, then `w h`, then `255`, each on a line of its own.
pub open spec fn header(w: nat, h: nat) -> Seq<u8> {
    seq![80u8, 51u8, 10u8] + decimal(w) + seq![32u8] + decimal(h) + seq![10u8, 50u8, 53u8, 53u8, 10u8]
}

/// One pixel as a line: its three channels in decimal, separated by spaces.
pub open spec fn pixel_line(p: Pixel) -> Seq<u8> {
    decimal(p.red as nat) + seq![32u8] + decimal(p.green as nat) + seq![32u8] + decimal(
        p.blue as nat,
    ) + seq![10u8]
}

/// The lines of a sequence of pixels, in order.
pub open spec fn pixels_text(ps: Seq<Pixel>) -> Seq<u8>
    decreases ps.len(),
{
    if ps.len() == 0 {
        Seq::empty()
    } else {
        pixels_text(ps.drop_last()) + pixel_line(ps.last())
    }
}

/// The whole pixel map of a `w`-by-`h` image whose pixels, row-major, are `ps`.
pub open spec fn ppm_text(w: nat, h: nat, ps: Seq<Pixel>) -> Seq<u8> {
    header(w, h) + pixels_text(ps)
}

/// `n` copies of `line`, one after another.
pub open spec fn repeated(line: Seq<u8>, n: nat) -> Seq<u8>
    decreases n,
{
    if n == 0 {
        Seq::empty()
    } else {
        repeated(line, (n - 1) as nat) + line
    }
}

/// The line `0 0 0` of a black pixel.
pub open spec fn black_line() -> Seq<u8> {
    seq![48u8, 32u8, 48u8, 32u8, 48u8, 10u8]
}

/// A `w`-by-`h` image whose pixels are all black serializes as the header followed by
/// exactly `w * h` lines `0 0 0`.
pub proof fn lemma_black_image_text(w: nat, h: nat, ps: Seq<Pixel>)
    requires
        ps.len() == w * h,
        forall|i: int| 0 <= i < ps.len() ==> ps[i] == Pixel::zero(),
    ensures
        ppm_text(w, h, ps) == header(w, h) + repeated(black_line(), w * h),
{
    lemma_black_pixels_text(ps);
}

proof fn lemma_black_pixels_text(ps: Seq<Pixel>)
    requires
        forall|i: int| 0 <= i < ps.len() ==> ps[i] == Pixel::zero(),
    ensures
        pixels_text(ps) == repeated(black_line(), ps.len()),
    decreases ps.len(),
{
    if ps.len() > 0 {
        lemma_black_pixels_text(ps.drop_last());
        reveal_with_fuel(decimal, 1);
        assert(pixel_line(ps.last()) =~= black_line());
    }
}

/// Appends the decimal digits of `n`.
pub fn push_decimal(out: &mut Vec<u8>, n: usize)
    ensures
        final(out)@ == old(out)@ + decimal(n as nat),
    decreases n,
{
    if n >= 10 {
        push_decimal(out, n / 10);
    }
    let d: u8 = (n % 10) as u8;
    out.push(48 + d);
    proof {
        assert(final(out)@ =~= old(out)@ + decimal(n as nat));
    }
}

/// Appends the line of one pixel.
pub fn push_pixel_line(out: &mut Vec<u8>, p: Pixel)
    ensures
        final(out)@ == old(out)@ + pixel_line(p),
{
    push_decimal(out, p.red as usize);
    out.push(32);
    push_decimal(out, p.green as usize);
    out.push(32);
    push_decimal(out, p.blue as usize);
    out.push(10);
    proof {
        assert(final(out)@ =~= old(out)@ + pixel_line(p));
    }
}

/// The header of a `w`-by-`h` pixel map.
pub fn header_bytes(w: usize, h: usize) -> (r: Vec<u8>)
    ensures
        r@ == header(w as nat, h as nat),
{
    let mut out: Vec<u8> = Vec::new();
    out.push(80);
    out.push(51);
    out.push(10);
    push_decimal(&mut out, w);
    out.push(32);
    push_decimal(&mut out, h);
    out.push(10);
    out.push(50);
    out.push(53);
    out.push(53);
    out.push(10);
    proof {
        assert(out@ =~= header(w as nat, h as nat));
    }
    out
}

} // verus!
