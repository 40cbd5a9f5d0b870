//! The textual pixel stream: a plain-text image of three decimal channels per
//! pixel, one pixel per line, after a three-line header.

use vstd::prelude::*;

verus! {

/// A quantised pixel. Channels are not clamped: a value outside `0..=255` is
/// written as it is, sign included.
#[derive(Clone, Copy, Debug, PartialEq, Eq, Structural)]
pub struct Rgb {
    pub r: i32,
    pub g: i32,
    pub b: i32,
}

/// ASCII code of the digit `d`, for `0 <= d <= 9`.
pub open spec fn digit(d: int) -> u8 {
    (48 + d) as u8
}

/// The decimal numeral of `n`, most significant digit first, without padding.
pub open spec fn decimal(n: nat) -> Seq<u8>
    decreases n,
{
    if n < 10 {
        seq![digit(n as int)]
    } else {
        decimal(n / 10).push(digit((n % 10) as int))
    }
}

/// The decimal numeral of `n`, with a leading minus sign where `n` is negative.
pub open spec fn signed_decimal(n: int) -> Seq<u8> {
    if n < 0 {
        seq![45u8] + decimal((-n) as nat)
    } else {
        decimal(n as nat)
    }
}

/// The header: the magic word `P3`, the dimensions, and the channel maximum
/// 255, each on a line of its own.
pub open spec fn header_text(width: u32, height: u32) -> Seq<u8> {
    seq![80u8, 51u8, 10u8] + decimal(width as nat) + seq![32u8] + decimal(height as nat) + seq![
        10u8,
        50u8,
        53u8,
        53u8,
        10u8,
    ]
}

/// One pixel: red, green and blue separated by single spaces, then a newline.
pub open spec fn pixel_text(p: Rgb) -> Seq<u8> {
    signed_decimal(p.r as int) + seq![32u8] + signed_decimal(p.g as int) + seq![32u8]
        + signed_decimal(p.b as int) + seq![10u8]
}

/// The lines of `pixels`, in their order.
pub open spec fn body_text(pixels: Seq<Rgb>) -> Seq<u8>
    decreases pixels.len(),
{
    if pixels.len() == 0 {
        Seq::empty()
    } else {
        body_text(pixels.drop_last()) + pixel_text(pixels.last())
    }
}

/// The whole stream: header, then one line per pixel.
pub open spec fn image_text(width: u32, height: u32, pixels: Seq<Rgb>) -> Seq<u8> {
    header_text(width, height) + body_text(pixels)
}

fn push_decimal(out: &mut Vec<u8>, n: u64)
    ensures
        final(out)@ == old(out)@ + decimal(n as nat),
    decreases n,
{
    if n >= 10 {
        push_decimal(out, n / 10);
    }
    let d: u8 = (n % 10) as u8;
    out.push(48 + d);
    assert(out@ =~= old(out)@ + decimal(n as nat));
}

fn push_signed(out: &mut Vec<u8>, n: i32)
    ensures
        final(out)@ == old(out)@ + signed_decimal(n as int),
{
    let wide: i64 = n as i64;
    if wide < 0 {
        out.push(45);
        push_decimal(out, (-wide) as u64);
    } else {
        push_decimal(out, wide as u64);
    }
    assert(out@ =~= old(out)@ + signed_decimal(n as int));
}

fn push_header(out: &mut Vec<u8>, width: u32, height: u32)
    ensures
        final(out)@ == old(out)@ + header_text(width, height),
{
    out.push(80);
    out.push(51);
    out.push(10);
    push_decimal(out, width as u64);
    out.push(32);
    push_decimal(out, height as u64);
    out.push(10);
    out.push(50);
    out.push(53);
    out.push(53);
    out.push(10);
    assert(out@ =~= old(out)@ + header_text(width, height));
}

fn push_pixel(out: &mut Vec<u8>, p: Rgb)
    ensures
        final(out)@ == old(out)@ + pixel_text(p),
{
    push_signed(out, p.r);
    out.push(32);
    push_signed(out, p.g);
    out.push(32);
    push_signed(out, p.b);
    out.push(10);
    assert(out@ =~= old(out)@ + pixel_text(p));
}

/// Writes the header of a `width` by `height` image.
pub fn header(width: u32, height: u32) -> (text: Vec<u8>)
    ensures
        text@ == header_text(width, height),
{
    let mut text: Vec<u8> = Vec::new();
    push_header(&mut text, width, height);
    assert(text@ =~= header_text(width, height));
    text
}

/// Writes the line of one pixel.
pub fn pixel_line(p: Rgb) -> (text: Vec<u8>)
    ensures
        text@ == pixel_text(p),
{
    let mut text: Vec<u8> = Vec::new();
    push_pixel(&mut text, p);
    assert(text@ =~= pixel_text(p));
    text
}

/// Writes the whole stream of an image whose pixels are given in scan order.
pub fn encode(width: u32, height: u32, pixels: &Vec<Rgb>) -> (text: Vec<u8>)
    ensures
        text@ == image_text(width, height, pixels@),
{
    let mut text: Vec<u8> = Vec::new();
    push_header(&mut text, width, height);
    let mut k: usize = 0;
    while k < pixels.len()
        invariant
            k <= pixels.len(),
            text@ =~= header_text(width, height) + body_text(pixels@.take(k as int)),
        decreases pixels.len() - k,
    {
        push_pixel(&mut text, pixels[k]);
        proof {
            let done = pixels@.take(k as int + 1);
            assert(done.drop_last() =~= pixels@.take(k as int));
            assert(done.last() == pixels@[k as int]);
        }
        k += 1;
    }
    assert(pixels@.take(k as int) =~= pixels@);
    text
}

/// Lines can be written in pieces: the text of two runs of pixels, one after
/// the other, is the text of the first followed by the text of the second.
pub proof fn lemma_body_text_concat(first: Seq<Rgb>, second: Seq<Rgb>)
    ensures
        body_text(first + second) == body_text(first) + body_text(second),
    decreases second.len(),
{
    if second.len() == 0 {
        assert(first + second =~= first);
        assert(body_text(first) + body_text(second) =~= body_text(first));
    } else {
        let whole = first + second;
        assert(whole.drop_last() =~= first + second.drop_last());
        assert(whole.last() == second.last());
        lemma_body_text_concat(first, second.drop_last());
        assert(body_text(whole) =~= body_text(first) + body_text(second));
    }
}

/// A numeral has at least one digit, all of its bytes are digits, and it
/// begins with the digit zero only where the number is zero.
pub proof fn lemma_decimal_shape(n: nat)
    ensures
        decimal(n).len() >= 1,
        forall|k: int| 0 <= k < decimal(n).len() ==> 48 <= #[trigger] decimal(n)[k] <= 57,
        decimal(n)[0] == 48 <==> n == 0,
    decreases n,
{
    if n >= 10 {
        lemma_decimal_shape(n / 10);
    }
}

/// The number that a run of digits spells.
pub open spec fn decimal_value(digits: Seq<u8>) -> nat
    decreases digits.len(),
{
    if digits.len() == 0 {
        0
    } else {
        decimal_value(digits.drop_last()) * 10 + (digits.last() - 48) as nat
    }
}

/// A numeral spells the number it was written for, so two different numbers
/// never share a numeral.
pub proof fn lemma_decimal_reads_back(n: nat)
    ensures
        decimal_value(decimal(n)) == n,
    decreases n,
{
    if n < 10 {
        assert(decimal(n).drop_last() =~= Seq::<u8>::empty());
        assert(decimal_value(decimal(n).drop_last()) == 0);
    } else {
        lemma_decimal_reads_back(n / 10);
        assert(decimal(n).drop_last() =~= decimal(n / 10));
    }
}

} // verus!
