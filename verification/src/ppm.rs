//! Plain-text PPM images.
//!
//! A picture of `width` by `height` pixels is written as the line that
//! names the format, a line with the width and the height, the line `255`
//! for the largest value and then one line for each row of pixels. A row
//! holds the red, green and blue value of each of its pixels in decimal
//! notation, each value followed by a space.

use crate::image13h::lemma_cell_bounds;
use vstd::prelude::*;

verus! {

/// The character code of the digit 0.
pub const DIGIT_ZERO: u8 = 48;

/// The character code of the space.
pub const SPACE: u8 = 32;

/// The character code of the line feed.
pub const LINE_FEED: u8 = 10;

/// The decimal notation of `n`, as character codes.
pub open spec fn decimal(n: nat) -> Seq<u8>
    decreases n,
{
    if n < 10 {
        seq![(DIGIT_ZERO + n) as u8]
    } else {
        decimal(n / 10).push((DIGIT_ZERO + n % 10) as u8)
    }
}

/// The first lines of a picture: the name of the format (the letter P and
/// the digit 3), the dimensions and the largest value.
pub open spec fn header(width: nat, height: nat) -> Seq<u8> {
    seq![80u8, 51u8, LINE_FEED] + decimal(width) + seq![SPACE] + decimal(height) + seq![
        LINE_FEED,
        50u8,
        53u8,
        53u8,
        LINE_FEED,
    ]
}

/// The text of the pixel whose three values start at position `offset` of
/// `data`.
pub open spec fn pixel(data: Seq<u8>, offset: int) -> Seq<u8> {
    decimal(data[offset] as nat) + seq![SPACE] + decimal(data[offset + 1] as nat) + seq![SPACE]
        + decimal(data[offset + 2] as nat) + seq![SPACE]
}

/// The text of the first `count` pixels of row `y`.
pub open spec fn pixels(width: nat, data: Seq<u8>, y: nat, count: nat) -> Seq<u8>
    decreases count,
{
    if count == 0 {
        Seq::empty()
    } else {
        pixels(width, data, y, (count - 1) as nat) + pixel(data, 3 * (y * width + (count - 1)))
    }
}

/// The text of the first `count` rows.
pub open spec fn rows(width: nat, data: Seq<u8>, count: nat) -> Seq<u8>
    decreases count,
{
    if count == 0 {
        Seq::empty()
    } else {
        rows(width, data, (count - 1) as nat) + pixels(width, data, (count - 1) as nat, width)
            + seq![LINE_FEED]
    }
}

/// The text of the picture of `width` by `height` pixels whose values
/// `data` holds, three for each pixel, row by row.
pub open spec fn ppm(width: nat, height: nat, data: Seq<u8>) -> Seq<u8> {
    header(width, height) + rows(width, data, height)
}

/// Appends the decimal notation of `n` to `w`.
pub fn write_decimal(w: &mut Vec<u8>, n: usize)
    ensures
        final(w)@ == old(w)@ + decimal(n as nat),
    decreases n,
{
    let ghost before = w@;
    if n >= 10 {
        write_decimal(w, n / 10);
    }
    w.push(DIGIT_ZERO + (n % 10) as u8);
    assert(w@ =~= before + decimal(n as nat));
}

/// Write an image stored in RGB values in `data` to a byte buffer using PPM text format.
/// `data` is interpreted as `width * height` 3-byte RGB values stored row by row.
pub fn write_ppm(width: usize, height: usize, data: &[u8], w: &mut Vec<u8>)
    requires
        3 * (width * height) <= data@.len(),
    ensures
        final(w)@ == old(w)@ + ppm(width as nat, height as nat, data@),
{
    let ghost before = w@;
    w.push(80);
    w.push(51);
    w.push(LINE_FEED);
    write_decimal(w, width);
    w.push(SPACE);
    write_decimal(w, height);
    w.push(LINE_FEED);
    w.push(50);
    w.push(53);
    w.push(53);
    w.push(LINE_FEED);
    assert(w@ =~= before + header(width as nat, height as nat));
    let ghost start = w@;

    let mut y: usize = 0;
    while y < height
        invariant
            y <= height,
            3 * (width * height) <= data@.len(),
            w@ == start + rows(width as nat, data@, y as nat),
        decreases height - y,
    {
        let ghost row_start = w@;
        let mut x: usize = 0;
        while x < width
            invariant
                x <= width,
                y < height,
                3 * (width * height) <= data@.len(),
                w@ == row_start + pixels(width as nat, data@, y as nat, x as nat),
            decreases width - x,
        {
            proof {
                lemma_cell_bounds(width as int, height as int, x as int, y as int);
                assert(data@.len() == data.len());
            }
            let offset: usize = 3 * (y * width + x);
            let ghost current = w@;
            write_decimal(w, data[offset] as usize);
            w.push(SPACE);
            write_decimal(w, data[offset + 1] as usize);
            w.push(SPACE);
            write_decimal(w, data[offset + 2] as usize);
            w.push(SPACE);
            assert(w@ =~= current + pixel(data@, offset as int));
            x += 1;
            assert(w@ =~= row_start + pixels(width as nat, data@, y as nat, x as nat));
        }
        w.push(LINE_FEED);
        y += 1;
        assert(w@ =~= start + rows(width as nat, data@, y as nat));
    }
    assert(w@ =~= before + ppm(width as nat, height as nat, data@));
}

} // verus!
