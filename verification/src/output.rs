//! Plain-text PPM: the header of an image and one line for each pixel, the
//! rows from the top.

use vstd::arithmetic::div_mod::lemma_fundamental_div_mod_converse;
use vstd::prelude::*;

verus! {

/// ASCII `P`, which opens the name of the format.
pub const LETTER_P: u8 = 80;

/// ASCII `0`; the other digits follow it.
pub const DIGIT_ZERO: u8 = 48;

/// ASCII space.
pub const SPACE: u8 = 32;

/// ASCII line feed.
pub const LINE_FEED: u8 = 10;

/// The number of the plain-text pixmap format, which follows the `P`.
pub const FORMAT: u32 = 3;

/// The greatest value of a channel.
pub const MAX_CHANNEL: u32 = 255;

/// `n` in decimal, without leading zeros.
pub open spec fn decimal(n: nat) -> Seq<u8>
    decreases n,
{
    if n < 10 {
        seq![(DIGIT_ZERO + n) as u8]
    } else {
        decimal(n / 10).push((DIGIT_ZERO + n % 10) as u8)
    }
}

/// The number that a run of ASCII digits spells.
pub open spec fn decimal_value(text: Seq<u8>) -> nat
    decreases text.len(),
{
    if text.len() == 0 {
        0
    } else {
        decimal_value(text.drop_last()) * 10 + (text.last() - DIGIT_ZERO) as nat
    }
}

/// The name of the format, the width and the height, and the greatest
/// channel value, each on a line of its own but for the two dimensions,
/// which share one.
pub open spec fn header(width: u32, height: u32) -> Seq<u8> {
    seq![LETTER_P] + decimal(FORMAT as nat) + seq![LINE_FEED] + decimal(width as nat) + seq![SPACE]
        + decimal(height as nat) + seq![LINE_FEED] + decimal(MAX_CHANNEL as nat) + seq![LINE_FEED]
}

/// The three channels of a pixel, separated by spaces, and a line feed.
pub open spec fn pixel_line(r: u8, g: u8, b: u8) -> Seq<u8> {
    decimal(r as nat) + seq![SPACE] + decimal(g as nat) + seq![SPACE] + decimal(b as nat)
        + seq![LINE_FEED]
}

/// Reading a number back gives the number that was written: it is written
/// in digits alone, at least one, and none of them a needless zero.
pub proof fn lemma_decimal_reads_back(n: nat)
    ensures
        decimal_value(decimal(n)) == n,
        decimal(n).len() >= 1,
        forall|i: int|
            0 <= i < decimal(n).len() ==> DIGIT_ZERO <= #[trigger] decimal(n)[i] <= DIGIT_ZERO + 9,
        n > 0 ==> decimal(n)[0] != DIGIT_ZERO,
    decreases n,
{
    if n < 10 {
        assert(decimal(n).drop_last() =~= Seq::<u8>::empty());
        assert(decimal_value(Seq::<u8>::empty()) == 0);
    } else {
        lemma_decimal_reads_back(n / 10);
        assert(decimal(n).drop_last() =~= decimal(n / 10));
    }
}

fn write_decimal(out: &mut Vec<u8>, n: u32)
    ensures
        final(out)@ == old(out)@ + decimal(n as nat),
    decreases n,
{
    if n >= 10 {
        write_decimal(out, n / 10);
    }
    out.push(DIGIT_ZERO + (n % 10) as u8);
}

/// Appends the header of a `width` by `height` image to `out`.
pub fn write_header(out: &mut Vec<u8>, width: u32, height: u32)
    ensures
        final(out)@ == old(out)@ + header(width, height),
{
    out.push(LETTER_P);
    write_decimal(out, FORMAT);
    out.push(LINE_FEED);
    write_decimal(out, width);
    out.push(SPACE);
    write_decimal(out, height);
    out.push(LINE_FEED);
    write_decimal(out, MAX_CHANNEL);
    out.push(LINE_FEED);
}

/// Appends the line of one pixel to `out`.
pub fn write_color(out: &mut Vec<u8>, r: u8, g: u8, b: u8)
    ensures
        final(out)@ == old(out)@ + pixel_line(r, g, b),
{
    write_decimal(out, r as u32);
    out.push(SPACE);
    write_decimal(out, g as u32);
    out.push(SPACE);
    write_decimal(out, b as u32);
    out.push(LINE_FEED);
}

/// The lines of `pixels`, one after the other.
pub open spec fn pixel_lines(pixels: Seq<(u8, u8, u8)>) -> Seq<u8>
    decreases pixels.len(),
{
    if pixels.len() == 0 {
        Seq::empty()
    } else {
        pixel_lines(pixels.drop_last()) + pixel_line(
            pixels.last().0,
            pixels.last().1,
            pixels.last().2,
        )
    }
}

/// The place of the `k`-th pixel of a `width` by `height` image: its column,
/// counted from the left, and its row, counted from the bottom. The image
/// starts with its top row, and each row starts on the left.
pub open spec fn place_of(k: int, width: u32, height: u32) -> (u32, u32) {
    ((k % (width as int)) as u32, (height - 1 - k / (width as int)) as u32)
}

/// Every place of an image has its pixel: the pixel of column `i` in row
/// `j` from the bottom is the one numbered `(height - 1 - j) * width + i`.
pub proof fn lemma_place_has_its_pixel(width: u32, height: u32, i: u32, j: u32)
    requires
        i < width,
        j < height,
    ensures
        0 <= (height - 1 - j) * width + i < width * height,
        place_of((height - 1 - j) * width + i, width, height) == (i, j),
{
    let w = width as int;
    let h = height as int;
    let row = h - 1 - j;
    lemma_fundamental_div_mod_converse(row * w + i, w, row, i as int);
    assert(0 <= row * w + i < w * h) by (nonlinear_arith)
        requires
            0 <= row < h,
            0 <= i < w,
    ;
}

/// Every pixel of an image has its place, and no two pixels share one.
pub proof fn lemma_pixels_have_their_places(width: u32, height: u32, k: int, other: int)
    requires
        0 <= k < width * height,
        0 <= other < width * height,
    ensures
        place_of(k, width, height).0 < width,
        place_of(k, width, height).1 < height,
        place_of(k, width, height) == place_of(other, width, height) ==> k == other,
{
    let w = width as int;
    let h = height as int;
    assert(0 <= k / w < h && 0 <= k % w < w && k == (k / w) * w + k % w) by (nonlinear_arith)
        requires
            0 <= k < w * h,
            0 < w,
    ;
    assert(0 <= other / w < h && 0 <= other % w < w && other == (other / w) * w + other % w)
        by (nonlinear_arith)
        requires
            0 <= other < w * h,
            0 < w,
    ;
}

/// `pixels` are the pixels of a `width` by `height` image as `shade` may
/// give them: one for each place, in the order of the places.
pub open spec fn is_image<F: Fn(u32, u32) -> (u8, u8, u8)>(
    width: u32,
    height: u32,
    shade: F,
    pixels: Seq<(u8, u8, u8)>,
) -> bool {
    &&& pixels.len() == width * height
    &&& forall|k: int|
        0 <= k < pixels.len() ==> call_ensures(
            shade,
            place_of(k, width, height),
            #[trigger] pixels[k],
        )
}

/// Appends a whole image to `out`: the header, and then the line of each
/// pixel, the rows from the top and each row from the left. `shade` is
/// asked once for each pixel, in that order, with the column and with the
/// row counted from the bottom, and must take every place of the image.
pub fn write_image<F: Fn(u32, u32) -> (u8, u8, u8)>(
    out: &mut Vec<u8>,
    width: u32,
    height: u32,
    shade: F,
)
    requires
        forall|i: u32, j: u32| i < width && j < height ==> call_requires(shade, (i, j)),
    ensures
        exists|pixels: Seq<(u8, u8, u8)>| #[trigger]
            is_image(width, height, shade, pixels) && final(out)@ == old(out)@ + header(
                width,
                height,
            ) + pixel_lines(pixels),
{
    let ghost before = out@;
    let ghost mut pixels: Seq<(u8, u8, u8)> = Seq::empty();
    write_header(out, width, height);
    let mut rows_done: u32 = 0;
    while rows_done < height
        invariant
            rows_done <= height,
            forall|i: u32, j: u32| i < width && j < height ==> call_requires(shade, (i, j)),
            out@ == before + header(width, height) + pixel_lines(pixels),
            pixels.len() == rows_done * width,
            forall|k: int|
                0 <= k < pixels.len() ==> call_ensures(
                    shade,
                    place_of(k, width, height),
                    #[trigger] pixels[k],
                ),
        decreases height - rows_done,
    {
        let j = height - 1 - rows_done;
        let mut i: u32 = 0;
        while i < width
            invariant
                i <= width,
                rows_done < height,
                j == height - 1 - rows_done,
                forall|i: u32, j: u32| i < width && j < height ==> call_requires(shade, (i, j)),
                out@ == before + header(width, height) + pixel_lines(pixels),
                pixels.len() == rows_done * width + i,
                forall|k: int|
                    0 <= k < pixels.len() ==> call_ensures(
                        shade,
                        place_of(k, width, height),
                        #[trigger] pixels[k],
                    ),
            decreases width - i,
        {
            let pixel = shade(i, j);
            proof {
                let k = pixels.len() as int;
                lemma_fundamental_div_mod_converse(k, width as int, rows_done as int, i as int);
                assert(place_of(k, width, height) == (i, j));
                let longer = pixels.push(pixel);
                assert(longer.drop_last() == pixels);
                assert forall|n: int| 0 <= n < longer.len() implies call_ensures(
                    shade,
                    place_of(n, width, height),
                    #[trigger] longer[n],
                ) by {
                    if n < k {
                        assert(longer[n] == pixels[n]);
                    }
                }
                pixels = longer;
            }
            write_color(out, pixel.0, pixel.1, pixel.2);
            i += 1;
        }
        proof {
            assert(rows_done * width + width == (rows_done + 1) * width) by (nonlinear_arith);
        }
        rows_done += 1;
    }
    proof {
        assert(height * width == width * height) by (nonlinear_arith);
        assert(is_image(width, height, shade, pixels));
    }
}

} // verus!
