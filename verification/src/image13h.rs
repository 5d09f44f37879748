//! Indexed-colour images.
//!
//! # Byte layout
//!
//! An image is stored as `[ width ] [ height ] [ marker ] [ data ]`:
//!
//! * `width` and `height` are unsigned 2-byte little-endian integers, both
//!   non-zero;
//! * `marker` is the two bytes `1` and `0`;
//! * `data` is `width * height` bytes of colour indices, row by row.
//!
//! Bytes that follow the data are ignored when decoding.
//!
//! # Model
//!
//! [`Raster`] is the mathematical value of an image: its dimensions and the
//! sequence of its pixels. [`Image13h`] is the executable image, and its view
//! is a `Raster`. Every operation on an `Image13h` is specified by the
//! `Raster` function of the same name.

use std::ops::Range;
use vstd::arithmetic::div_mod::lemma_fundamental_div_mod_converse;
use vstd::prelude::*;
use vstd::slice::slice_subrange;

verus! {

/// Mode 13h screen width.
pub const SCREEN_WIDTH: usize = 320;

/// Mode 13h screen height.
pub const SCREEN_HEIGHT: usize = 200;

/// Total number of pixels on the screen.
pub const SCREEN_PIXELS: usize = 64_000;

/// Mode 13h number of colors.
pub const COLORS: usize = 256;

/// The header size in bytes.
pub const HEADER_SIZE: usize = 6;

/// The largest width or height that the two-byte header fields can hold.
pub const MAX_DIMENSION: usize = 0xffff;

/// An axis-aligned region of an image. The right and bottom borders are
/// exclusive: the region covers the columns `left..left + width` and the
/// rows `top..top + height`.
#[derive(Clone, Copy, Debug)]
pub struct Rect {
    /// The position of the left border, inclusive.
    pub left: usize,
    /// The position of the top border, inclusive.
    pub top: usize,
    /// The width of the rect.
    pub width: usize,
    /// The height of the rect.
    pub height: usize,
}

impl Rect {
    /// The column just right of the region, as a mathematical integer.
    pub open spec fn right(self) -> int {
        self.left + self.width
    }

    /// The row just below the region, as a mathematical integer.
    pub open spec fn bottom(self) -> int {
        self.top + self.height
    }

    /// Whether the pixel in column `x` and row `y` lies in the region.
    pub open spec fn covers(self, x: int, y: int) -> bool {
        self.left <= x < self.right() && self.top <= y < self.bottom()
    }

    /// Whether the region lies within an image of the given dimensions.
    pub open spec fn fits(self, width: nat, height: nat) -> bool {
        self.right() <= width && self.bottom() <= height
    }

    /// The first `count` rows of the region.
    pub open spec fn rows(self, count: nat) -> Rect {
        Rect { left: self.left, top: self.top, width: self.width, height: count as usize }
    }

    /// Whether the two regions have no pixel in common.
    pub open spec fn disjoint(self, other: Rect) -> bool {
        ||| self.right() <= other.left
        ||| other.right() <= self.left
        ||| self.bottom() <= other.top
        ||| other.bottom() <= self.top
        ||| self.width == 0
        ||| self.height == 0
        ||| other.width == 0
        ||| other.height == 0
    }

    /// Construct a new `Rect` from coordinate ranges (exclusively-ended).
    pub fn from_ranges(x: Range<usize>, y: Range<usize>) -> (rect: Rect)
        requires
            x.start <= x.end,
            y.start <= y.end,
        ensures
            rect.left == x.start,
            rect.top == y.start,
            rect.width == x.end - x.start,
            rect.height == y.end - y.start,
    {
        Rect { left: x.start, top: y.start, width: x.end - x.start, height: y.end - y.start }
    }

    /// Get the right-most x coordinate that's still in the rect.
    pub fn right_inclusive(&self) -> (x: usize)
        requires
            1 <= self.right() <= usize::MAX,
        ensures
            x == self.right() - 1,
    {
        self.beyond_right() - 1
    }

    /// Get the x coordinate that's one to the right of the right border of the rect.
    pub fn beyond_right(&self) -> (x: usize)
        requires
            self.right() <= usize::MAX,
        ensures
            x == self.right(),
    {
        self.left + self.width
    }

    /// Get the bottom-most y coordinate that's still in the rect.
    pub fn bottom_inclusive(&self) -> (y: usize)
        requires
            1 <= self.bottom() <= usize::MAX,
        ensures
            y == self.bottom() - 1,
    {
        self.beyond_bottom() - 1
    }

    /// Get the y coordinate that's one below the bottom border of the rect.
    pub fn beyond_bottom(&self) -> (y: usize)
        requires
            self.bottom() <= usize::MAX,
        ensures
            y == self.bottom(),
    {
        self.top + self.height
    }
}

/// The mathematical value of an image: `pixels` holds the colour indices row
/// by row, so the pixel in column `x` and row `y` is `pixels[y * width + x]`.
pub struct Raster {
    pub width: nat,
    pub height: nat,
    pub pixels: Seq<u8>,
}

/// The low byte of a header field.
pub open spec fn low_byte(n: nat) -> u8 {
    (n % 256) as u8
}

/// The high byte of a header field. A dimension that does not fit in two
/// bytes loses its upper part.
pub open spec fn high_byte(n: nat) -> u8 {
    ((n / 256) % 256) as u8
}

/// The unsigned integer that two little-endian bytes stand for.
pub open spec fn le16(low: u8, high: u8) -> nat {
    (low + 256 * high) as nat
}

impl Raster {
    /// There is exactly one pixel for each position.
    pub open spec fn wf(self) -> bool {
        self.pixels.len() == self.width * self.height
    }

    /// The colour index in column `x` and row `y`.
    pub open spec fn pixel(self, x: int, y: int) -> u8 {
        self.pixels[y * self.width + x]
    }

    /// The pixels of row `y`.
    pub open spec fn line(self, y: int) -> Seq<u8> {
        self.pixels.subrange(y * self.width, (y + 1) * self.width)
    }

    /// The image of the given dimensions in which every pixel is `color`.
    pub open spec fn filled(width: nat, height: nat, color: u8) -> Raster {
        Raster { width, height, pixels: Seq::new(width * height, |i: int| color) }
    }

    /// Whether `rect` lies within the image.
    pub open spec fn contains(self, rect: Rect) -> bool {
        rect.fits(self.width, self.height)
    }

    /// The part of the image that `rect` covers, as an image of its own.
    pub open spec fn subimage(self, rect: Rect) -> Raster {
        Raster {
            width: rect.width as nat,
            height: rect.height as nat,
            pixels: Seq::new(
                (rect.width * rect.height) as nat,
                |i: int|
                    self.pixel(
                        rect.left + i % (rect.width as int),
                        rect.top + i / (rect.width as int),
                    ),
            ),
        }
    }

    /// The image with the region `rect` replaced by `image`.
    pub open spec fn blit(self, image: Raster, rect: Rect) -> Raster {
        Raster {
            width: self.width,
            height: self.height,
            pixels: Seq::new(
                self.pixels.len(),
                |i: int|
                    {
                        let x = i % (self.width as int);
                        let y = i / (self.width as int);
                        if rect.covers(x, y) {
                            image.pixel(x - rect.left, y - rect.top)
                        } else {
                            self.pixels[i]
                        }
                    },
            ),
        }
    }

    /// Like [`Raster::blit`], but the pixels of `image` that hold the index
    /// `transparent` leave the pixel beneath them as it is.
    pub open spec fn blit_with_transparency(
        self,
        image: Raster,
        rect: Rect,
        transparent: u8,
    ) -> Raster {
        Raster {
            width: self.width,
            height: self.height,
            pixels: Seq::new(
                self.pixels.len(),
                |i: int|
                    {
                        let x = i % (self.width as int);
                        let y = i / (self.width as int);
                        if rect.covers(x, y) && image.pixel(x - rect.left, y - rect.top)
                            != transparent {
                            image.pixel(x - rect.left, y - rect.top)
                        } else {
                            self.pixels[i]
                        }
                    },
            ),
        }
    }

    /// The six header bytes of the image.
    pub open spec fn header(self) -> Seq<u8> {
        seq![
            low_byte(self.width),
            high_byte(self.width),
            low_byte(self.height),
            high_byte(self.height),
            1u8,
            0u8,
        ]
    }

    /// The bytes that the image is stored as.
    pub open spec fn encode(self) -> Seq<u8> {
        self.header() + self.pixels
    }

    /// The width that the header of `bytes` declares.
    pub open spec fn declared_width(bytes: Seq<u8>) -> nat
        recommends
            bytes.len() >= HEADER_SIZE,
    {
        le16(bytes[0], bytes[1])
    }

    /// The height that the header of `bytes` declares.
    pub open spec fn declared_height(bytes: Seq<u8>) -> nat
        recommends
            bytes.len() >= HEADER_SIZE,
    {
        le16(bytes[2], bytes[3])
    }

    /// The number of bytes that an image with the header of `bytes` takes:
    /// the header and one byte for each pixel.
    pub open spec fn declared_len(bytes: Seq<u8>) -> nat
        recommends
            bytes.len() >= HEADER_SIZE,
    {
        HEADER_SIZE as nat + Self::declared_width(bytes) * Self::declared_height(bytes)
    }

    /// Whether `bytes` starts with a complete header of non-zero dimensions
    /// and the marker, and holds at least the pixels that the header declares.
    pub open spec fn decodable(bytes: Seq<u8>) -> bool {
        &&& bytes.len() >= HEADER_SIZE
        &&& Self::declared_width(bytes) != 0
        &&& Self::declared_height(bytes) != 0
        &&& bytes[4] == 1
        &&& bytes[5] == 0
        &&& bytes.len() >= Self::declared_len(bytes)
    }

    /// The image that `bytes` stores, if any.
    pub open spec fn decode(bytes: Seq<u8>) -> Option<Raster> {
        if Self::decodable(bytes) {
            Some(
                Raster {
                    width: Self::declared_width(bytes),
                    height: Self::declared_height(bytes),
                    pixels: bytes.subrange(HEADER_SIZE as int, Self::declared_len(bytes) as int),
                },
            )
        } else {
            None
        }
    }
}

/// An image of colour indices, stored row by row.
#[derive(Clone, Debug, Eq, PartialEq)]
pub struct Image13h {
    data: Vec<u8>,
    width: usize,
    height: usize,
}

impl View for Image13h {
    type V = Raster;

    closed spec fn view(&self) -> Raster {
        Raster { width: self.width as nat, height: self.height as nat, pixels: self.data@ }
    }
}

/// The values of a sequence of images.
pub open spec fn views(images: Seq<Image13h>) -> Seq<Raster> {
    Seq::new(images.len(), |i: int| images[i]@)
}

/// The part `start..end` of `data`, for writing: what `&mut data[start..end]`
/// gives, the `IndexMut` of `Vec` with a range. The slice starts out as that
/// part of `data`. It keeps its length, and when the borrow ends `data` holds
/// what the slice holds then in that part, and what it held before elsewhere.
#[verifier::external_body]
pub(crate) fn range_mut<T>(data: &mut Vec<T>, start: usize, end: usize) -> (part: &mut [T])
    requires
        start <= end <= old(data)@.len(),
    ensures
        part@ == old(data)@.subrange(start as int, end as int),
        final(part)@.len() == part@.len(),
        final(data)@ == old(data)@.subrange(0, start as int) + final(part)@ + old(
            data,
        )@.subrange(end as int, old(data)@.len() as int),
{
    &mut data[start..end]
}

/// Appends `bytes` to `writer`.
pub(crate) fn write_all(writer: &mut Vec<u8>, bytes: &[u8])
    ensures
        final(writer)@ == old(writer)@ + bytes@,
{
    let ghost before = writer@;
    writer.extend_from_slice(bytes);
    assert(writer@ =~= before + bytes@);
}

/// Appends `count` zero bytes to `writer`.
pub(crate) fn write_zeros(writer: &mut Vec<u8>, count: usize)
    ensures
        final(writer)@ == old(writer)@ + Seq::new(count as nat, |i: int| 0u8),
{
    let ghost before = writer@;
    let mut written: usize = 0;
    while written < count
        invariant
            written <= count,
            writer@ == before + Seq::new(written as nat, |i: int| 0u8),
        decreases count - written,
    {
        writer.push(0);
        written += 1;
        assert(writer@ =~= before + Seq::new(written as nat, |i: int| 0u8));
    }
}

impl Image13h {
    /// Get the width of the image
    pub fn width(&self) -> (width: usize)
        ensures
            width == self@.width,
    {
        self.width
    }

    /// Get the height of the image.
    pub fn height(&self) -> (height: usize)
        ensures
            height == self@.height,
    {
        self.height
    }

    /// Get a reference to a slice containing the image data. The data is stored row by row.
    pub fn data(&self) -> (data: &[u8])
        ensures
            data@ == self@.pixels,
    {
        self.data.as_slice()
    }

    /// Like `data`, but mutable. The dimensions of the image stay as they
    /// are; its pixels are whatever the slice holds in the end.
    pub fn data_mut(&mut self) -> (data: &mut [u8])
        ensures
            data@ == old(self)@.pixels,
            final(data)@.len() == data@.len(),
            final(self)@ == (Raster {
                width: old(self)@.width,
                height: old(self)@.height,
                pixels: final(data)@,
            }),
            old(self)@.wf() ==> final(self)@.wf(),
    {
        let ghost before = self.data@;
        let len: usize = self.data.len();
        let data = range_mut(&mut self.data, 0, len);
        assert(data@ =~= before);
        assert(after_borrow(self.data)@ =~= final(data)@);
        data
    }

    /// Get the image contents of a particular line as a byte slice. `line` is 0-based. Since the
    /// data is stored line-by-line internally it's more optimal that way. If you want to access
    /// particular pixel just index into the slice.
    pub fn line(&self, line: usize) -> (row: &[u8])
        requires
            self@.wf(),
            line < self@.height,
        ensures
            row@ == self@.line(line as int),
            row@.len() == self@.width,
    {
        proof {
            lemma_row_bounds(self.width as nat, self.height as nat, line as nat);
            assert((line + 1) * self.width <= self.data.len());
        }
        slice_subrange(self.data.as_slice(), line * self.width, (line + 1) * self.width)
    }

    /// Mutable variant of `line()`. The rest of the image stays as it is;
    /// row `line` is whatever the slice holds in the end.
    pub fn mut_line(&mut self, line: usize) -> (row: &mut [u8])
        requires
            old(self)@.wf(),
            line < old(self)@.height,
        ensures
            row@ == old(self)@.line(line as int),
            final(row)@.len() == row@.len(),
            final(self)@ == (Raster {
                width: old(self)@.width,
                height: old(self)@.height,
                pixels: old(self)@.pixels.subrange(0, line * old(self)@.width) + final(row)@
                    + old(self)@.pixels.subrange(
                    (line + 1) * old(self)@.width,
                    old(self)@.pixels.len() as int,
                ),
            }),
            final(self)@.wf(),
    {
        proof {
            lemma_row_bounds(self.width as nat, self.height as nat, line as nat);
            assert((line + 1) * self.width <= self.data.len());
        }
        let start: usize = line * self.width;
        let end: usize = start + self.width;
        range_mut(&mut self.data, start, end)
    }

    /// Load an image from its bytes. Extra content after the expected data is ignored.
    ///
    /// # Errors
    /// The method will return None if there's something wrong with the contents:
    /// * width or height equal 0
    /// * the marker is not `1, 0`
    /// * not enough bytes
    pub fn load(bytes: &[u8]) -> (image: Option<Image13h>)
        ensures
            match image {
                Some(image) => Raster::decode(bytes@) == Some(image@) && image@.wf(),
                None => Raster::decode(bytes@) is None,
            },
            image is Some <==> Raster::decodable(bytes@),
            bytes@.len() < HEADER_SIZE ==> image is None,
            bytes@.len() >= HEADER_SIZE && bytes@.len() < Raster::declared_len(bytes@)
                ==> image is None,
    {
        if bytes.len() < HEADER_SIZE {
            return None;
        }
        let width: usize = bytes[0] as usize + 256 * (bytes[1] as usize);
        let height: usize = bytes[2] as usize + 256 * (bytes[3] as usize);
        if width == 0 || height == 0 {
            return None;
        }
        if bytes[4] != 1 || bytes[5] != 0 {
            return None;
        }
        assert(width * height <= 0xffff * 0xffff) by (nonlinear_arith)
            requires
                width <= 0xffff,
                height <= 0xffff,
        ;
        let size: usize = width * height;
        if bytes.len() - HEADER_SIZE < size {
            return None;
        }
        let mut data: Vec<u8> = Vec::new();
        write_all(&mut data, slice_subrange(bytes, HEADER_SIZE, HEADER_SIZE + size));
        assert(data@ =~= bytes@.subrange(HEADER_SIZE as int, Raster::declared_len(bytes@) as int));
        Some(Image13h { width, height, data })
    }

    /// Create an empty image with the specified dimensions. Empty means the image is filled with
    /// color 0.
    pub fn empty(width: usize, height: usize) -> (image: Image13h)
        requires
            width * height <= usize::MAX,
        ensures
            image@ == Raster::filled(width as nat, height as nat, 0),
            image@.wf(),
    {
        Image13h::filled_with_color(width, height, 0)
    }

    /// Create an image filled with desired color.
    pub fn filled_with_color(width: usize, height: usize, color: u8) -> (image: Image13h)
        requires
            width * height <= usize::MAX,
        ensures
            image@ == Raster::filled(width as nat, height as nat, color),
            image@.wf(),
    {
        let data: Vec<u8> = vec![color; width * height];
        assert(data@ =~= Seq::new((width * height) as nat, |i: int| color));
        Image13h { width, height, data }
    }

    /// Save the image to a byte buffer: the header, then the pixels.
    pub fn save(&self, writer: &mut Vec<u8>)
        ensures
            final(writer)@ == old(writer)@ + self@.encode(),
    {
        let ghost before = writer@;
        writer.push((self.width % 256) as u8);
        writer.push(((self.width / 256) % 256) as u8);
        writer.push((self.height % 256) as u8);
        writer.push(((self.height / 256) % 256) as u8);
        writer.push(1);
        writer.push(0);
        assert(writer@ =~= before + self@.header());
        write_all(writer, self.data.as_slice());
        assert(writer@ =~= before + self@.encode());
    }

    /// Create an empty image of the size of the screen.
    pub fn empty_screen_sized() -> (image: Image13h)
        ensures
            image@ == Raster::filled(SCREEN_WIDTH as nat, SCREEN_HEIGHT as nat, 0),
            image@.wf(),
    {
        Image13h::empty(SCREEN_WIDTH, SCREEN_HEIGHT)
    }

    /// Extract a `rect`-bound subimage from the image.
    pub fn subimage(&self, rect: &Rect) -> (image: Image13h)
        requires
            self@.wf(),
            self@.contains(*rect),
        ensures
            image@ == self@.subimage(*rect),
            image@.wf(),
    {
        let ghost goal = self@.subimage(*rect).pixels;
        let mut data: Vec<u8> = Vec::new();
        let mut y: usize = 0;
        while y < rect.height
            invariant
                self@.wf(),
                self@.contains(*rect),
                y <= rect.height,
                goal == self@.subimage(*rect).pixels,
                data@.len() == y * rect.width,
                forall|i: int| 0 <= i < data@.len() ==> data@[i] == goal[i],
            decreases rect.height - y,
        {
            let row = self.line(rect.top + y);
            let part = slice_subrange(row, rect.left, rect.left + rect.width);
            let ghost before = data@;
            write_all(&mut data, part);
            proof {
                lemma_row_bounds(rect.width as nat, rect.height as nat, y as nat);
                lemma_row_bounds(self.width as nat, self.height as nat, (rect.top + y) as nat);
                assert forall|i: int| 0 <= i < data@.len() implies data@[i] == goal[i] by {
                    if i >= before.len() {
                        let x = i - before.len();
                        lemma_cell(rect.width as int, x, y as int);
                        assert(row@[rect.left + x] == self@.pixel(rect.left + x, rect.top + y));
                    }
                }
            }
            y += 1;
        }
        assert(rect.height * rect.width == rect.width * rect.height) by (nonlinear_arith);
        assert(data@ =~= goal);
        Image13h { width: rect.width, height: rect.height, data }
    }

    /// Blit another image into a rect in this image. The width and height of `image` and `rect`
    /// need to be the same.
    pub fn blit(&mut self, image: &Image13h, rect: &Rect)
        requires
            old(self)@.wf(),
            image@.wf(),
            image@.width == rect.width,
            image@.height == rect.height,
            old(self)@.contains(*rect),
        ensures
            final(self)@ == old(self)@.blit(image@, *rect),
            final(self)@.wf(),
    {
        let ghost before = self@;
        let mut y: usize = 0;
        assert(before.blit(image@, rect.rows(0)).pixels =~= before.pixels);
        while y < rect.height
            invariant
                before.wf(),
                image@.wf(),
                image@.width == rect.width,
                image@.height == rect.height,
                before.contains(*rect),
                y <= rect.height,
                self@ == before.blit(image@, rect.rows(y as nat)),
            decreases rect.height - y,
        {
            proof {
                lemma_row_bounds(self.width as nat, self.height as nat, (rect.top + y) as nat);
                assert((rect.top + y + 1) * self.width <= self.data.len());
            }
            let at: usize = (rect.top + y) * self.width + rect.left;
            let ghost current = self.data@;
            copy_into(self.data.as_mut_slice(), at, image.line(y));
            proof {
                let next = before.blit(image@, rect.rows((y + 1) as nat));
                assert forall|i: int| 0 <= i < next.pixels.len() implies self.data@[i]
                    == next.pixels[i] by {
                    lemma_blit_row(before, image@, *rect, y as nat, i);
                }
                assert(self.data@ =~= next.pixels);
            }
            y += 1;
        }
    }

    /// Blit another image into a rect in this image, except for the pixels of `image` that
    /// hold the colour `transparent`: the pixels beneath those stay as they are.
    pub fn blit_with_transparency(&mut self, image: &Image13h, rect: &Rect, transparent: u8)
        requires
            old(self)@.wf(),
            image@.wf(),
            image@.width == rect.width,
            image@.height == rect.height,
            old(self)@.contains(*rect),
        ensures
            final(self)@ == old(self)@.blit_with_transparency(image@, *rect, transparent),
            final(self)@.wf(),
    {
        let ghost before = self@;
        let mut y: usize = 0;
        assert(before.blit_with_transparency(image@, rect.rows(0), transparent).pixels
            =~= before.pixels);
        while y < rect.height
            invariant
                before.wf(),
                image@.wf(),
                image@.width == rect.width,
                image@.height == rect.height,
                before.contains(*rect),
                y <= rect.height,
                self@ == before.blit_with_transparency(image@, rect.rows(y as nat), transparent),
            decreases rect.height - y,
        {
            proof {
                lemma_row_bounds(self.width as nat, self.height as nat, (rect.top + y) as nat);
                assert((rect.top + y + 1) * self.width <= self.data.len());
            }
            let at: usize = (rect.top + y) * self.width + rect.left;
            copy_into_except(self.data.as_mut_slice(), at, image.line(y), transparent);
            proof {
                let next = before.blit_with_transparency(
                    image@,
                    rect.rows((y + 1) as nat),
                    transparent,
                );
                assert forall|i: int| 0 <= i < next.pixels.len() implies self.data@[i]
                    == next.pixels[i] by {
                    lemma_blit_row(before, image@, *rect, y as nat, i);
                }
                assert(self.data@ =~= next.pixels);
            }
            y += 1;
        }
    }

    /// Fill the image with a color.
    pub fn fill(&mut self, color: u8)
        ensures
            final(self)@ == (Raster {
                width: old(self)@.width,
                height: old(self)@.height,
                pixels: Seq::new(old(self)@.pixels.len(), |i: int| color),
            }),
            old(self)@.wf() ==> final(self)@ == Raster::filled(
                old(self)@.width,
                old(self)@.height,
                color,
            ),
    {
        let len: usize = self.data.len();
        self.data.clear();
        self.data.resize(len, color);
        assert(self.data@ =~= Seq::new(len as nat, |i: int| color));
    }
}

/// The pixels of a row lie within the pixels of the image.
pub proof fn lemma_row_bounds(width: nat, height: nat, line: nat)
    requires
        line < height,
    ensures
        0 <= line * width,
        line * width + width == (line + 1) * width,
        (line + 1) * width <= width * height,
{
    assert(line * width + width == (line + 1) * width) by (nonlinear_arith);
    assert((line + 1) * width <= width * height) by (nonlinear_arith)
        requires
            line + 1 <= height,
    ;
    assert(0 <= line * width) by (nonlinear_arith);
}

/// Position `y * width + x` of a row-major sequence is column `x` of row `y`.
pub proof fn lemma_cell(width: int, x: int, y: int)
    requires
        0 <= x < width,
        0 <= y,
    ensures
        (y * width + x) % width == x,
        (y * width + x) / width == y,
        0 <= y * width + x,
{
    lemma_fundamental_div_mod_converse(y * width + x, width, y, x);
    assert(0 <= y * width) by (nonlinear_arith)
        requires
            0 <= y,
            0 <= width,
    ;
}

/// Every position of an image is one of its `width * height` pixels.
pub proof fn lemma_cell_bounds(width: int, height: int, x: int, y: int)
    requires
        0 <= x < width,
        0 <= y < height,
    ensures
        0 <= y * width + x < width * height,
{
    assert(y * width + width <= height * width) by (nonlinear_arith)
        requires
            y + 1 <= height,
            0 <= width,
    ;
    assert(0 <= y * width) by (nonlinear_arith)
        requires
            0 <= y,
            0 <= width,
    ;
    assert(height * width == width * height) by (nonlinear_arith);
}

/// Column and row of position `i` of an image.
pub proof fn lemma_position(width: int, height: int, i: int)
    requires
        0 <= i < width * height,
        0 <= width,
    ensures
        0 <= i % width < width,
        0 <= i / width < height,
        i == (i / width) * width + i % width,
{
    assert(width > 0) by (nonlinear_arith)
        requires
            0 <= i < width * height,
            0 <= width,
    ;
    vstd::arithmetic::div_mod::lemma_fundamental_div_mod(i, width);
    vstd::arithmetic::div_mod::lemma_mod_bound(i, width);
    let q = i / width;
    assert(width * q == q * width) by (nonlinear_arith);
    assert(0 <= q < height) by (nonlinear_arith)
        requires
            0 <= i < width * height,
            i == q * width + i % width,
            0 <= i % width < width,
    ;
}

/// Overwrites the bytes of `dst` from position `at` on with `src`.
pub(crate) fn copy_into(dst: &mut [u8], at: usize, src: &[u8])
    requires
        at + src@.len() <= old(dst)@.len(),
    ensures
        final(dst)@ == Seq::new(
            old(dst)@.len(),
            |i: int|
                if at <= i < at + src@.len() {
                    src@[i - at]
                } else {
                    old(dst)@[i]
                },
        ),
{
    let ghost before = dst@;
    let mut x: usize = 0;
    assert(dst.len() == before.len());
    while x < src.len()
        invariant
            x <= src@.len(),
            at + src@.len() <= before.len() <= usize::MAX,
            dst@ == Seq::new(
                before.len(),
                |i: int|
                    if at <= i < at + x {
                        src@[i - at]
                    } else {
                        before[i]
                    },
            ),
        decreases src@.len() - x,
    {
        dst[at + x] = src[x];
        x += 1;
        assert(dst@ =~= Seq::new(
            before.len(),
            |i: int|
                if at <= i < at + x {
                    src@[i - at]
                } else {
                    before[i]
                },
        ));
    }
}

/// Overwrites the bytes of `dst` from position `at` on with those bytes of
/// `src` that differ from `transparent`.
fn copy_into_except(dst: &mut [u8], at: usize, src: &[u8], transparent: u8)
    requires
        at + src@.len() <= old(dst)@.len(),
    ensures
        final(dst)@ == Seq::new(
            old(dst)@.len(),
            |i: int|
                if at <= i < at + src@.len() && src@[i - at] != transparent {
                    src@[i - at]
                } else {
                    old(dst)@[i]
                },
        ),
{
    let ghost before = dst@;
    let mut x: usize = 0;
    assert(dst.len() == before.len());
    while x < src.len()
        invariant
            x <= src@.len(),
            at + src@.len() <= before.len() <= usize::MAX,
            dst@ == Seq::new(
                before.len(),
                |i: int|
                    if at <= i < at + x && src@[i - at] != transparent {
                        src@[i - at]
                    } else {
                        before[i]
                    },
            ),
        decreases src@.len() - x,
    {
        if src[x] != transparent {
            dst[at + x] = src[x];
        }
        x += 1;
        assert(dst@ =~= Seq::new(
            before.len(),
            |i: int|
                if at <= i < at + x && src@[i - at] != transparent {
                    src@[i - at]
                } else {
                    before[i]
                },
        ));
    }
}

/// What position `i` of an image is covered by, once row `y` of a region has
/// been copied after the rows above it.
proof fn lemma_blit_row(before: Raster, image: Raster, rect: Rect, y: nat, i: int)
    requires
        before.wf(),
        image.wf(),
        image.width == rect.width,
        image.height == rect.height,
        before.contains(rect),
        y < rect.height,
        0 <= i < before.pixels.len(),
    ensures
        ({
            let at = (rect.top + y) * before.width + rect.left;
            let column = i % (before.width as int);
            let row = i / (before.width as int);
            &&& at + rect.width <= before.pixels.len()
            &&& (at <= i < at + rect.width) == (row == rect.top + y && rect.left <= column
                < rect.right())
            &&& (at <= i < at + rect.width) ==> image.line(y as int)[i - at] == image.pixel(
                column - rect.left,
                row - rect.top,
            )
            &&& rect.rows(y + 1).covers(column, row) == (rect.rows(y).covers(column, row) || at
                <= i < at + rect.width)
            &&& rect.rows(y).covers(column, row) ==> !(at <= i < at + rect.width)
        }),
{
    let width = before.width as int;
    let at = (rect.top + y) * width + rect.left;
    lemma_position(width, before.height as int, i);
    lemma_row_bounds(before.width, before.height, (rect.top + y) as nat);
    let column = i % width;
    let row = i / width;
    if at <= i < at + rect.width {
        lemma_fundamental_div_mod_converse(i, width, rect.top + y, i - (rect.top + y) * width);
        lemma_row_bounds(image.width, image.height, y);
    }
    if row == rect.top + y && rect.left <= column < rect.right() {
        assert(i == (rect.top + y) * width + column);
    }
}

/// The colour triples of `indices`, in order: three bytes for each index,
/// taken from position `3 * index` of `palette` on.
pub open spec fn rgb_of(indices: Seq<u8>, palette: Seq<u8>) -> Seq<u8> {
    Seq::new(3 * indices.len(), |i: int| palette[3 * indices[i / 3] + i % 3])
}

/// Whether `palette` holds a colour for every index in `indices`.
pub open spec fn palette_covers(indices: Seq<u8>, palette: Seq<u8>) -> bool {
    forall|i: int| 0 <= i < indices.len() ==> 3 * #[trigger] indices[i] + 3 <= palette.len()
}

/// Converts colour indices to colours: appends to `writer` the red, green and
/// blue bytes that `palette` holds for each index in turn.
pub fn indices_to_rgb(indices: &[u8], palette: &[u8], writer: &mut Vec<u8>)
    requires
        palette_covers(indices@, palette@),
    ensures
        final(writer)@ == old(writer)@ + rgb_of(indices@, palette@),
{
    let ghost before = writer@;
    let mut done: usize = 0;
    while done < indices.len()
        invariant
            done <= indices@.len(),
            palette_covers(indices@, palette@),
            writer@.len() == before.len() + 3 * done,
            forall|i: int| 0 <= i < before.len() ==> writer@[i] == before[i],
            forall|i: int|
                0 <= i < 3 * done ==> writer@[before.len() + i] == rgb_of(indices@, palette@)[i],
        decreases indices@.len() - done,
    {
        let color_index: u8 = indices[done];
        let palette_offset: usize = color_index as usize * 3;
        let ghost current = writer@;
        write_all(writer, slice_subrange(palette, palette_offset, palette_offset + 3));
        proof {
            assert forall|i: int| 0 <= i < 3 * (done + 1) implies writer@[before.len() + i]
                == rgb_of(indices@, palette@)[i] by {
                if i >= 3 * done {
                    lemma_cell(3, i - 3 * done, done as int);
                }
            }
        }
        done += 1;
    }
    assert(writer@ =~= before + rgb_of(indices@, palette@));
}

/// Decoding what was encoded gives the image back, whatever bytes follow:
/// for every image whose dimensions are non-zero and fit the header,
/// `decode(encode(r) + rest) == r`.
pub proof fn lemma_decode_encode(r: Raster, rest: Seq<u8>)
    requires
        r.wf(),
        0 < r.width <= MAX_DIMENSION,
        0 < r.height <= MAX_DIMENSION,
    ensures
        Raster::decode(r.encode() + rest) == Some(r),
        Raster::decode(r.encode()) == Some(r),
{
    let bytes = r.encode() + rest;
    assert(r.encode() =~= r.encode() + Seq::<u8>::empty());
    lemma_header_round_trip(r.width);
    lemma_header_round_trip(r.height);
    assert(Raster::declared_width(bytes) == r.width);
    assert(Raster::declared_height(bytes) == r.height);
    assert(bytes.subrange(HEADER_SIZE as int, Raster::declared_len(bytes) as int) =~= r.pixels);
    let only = r.encode();
    assert(Raster::declared_width(only) == r.width);
    assert(Raster::declared_height(only) == r.height);
    assert(only.subrange(HEADER_SIZE as int, Raster::declared_len(only) as int) =~= r.pixels);
}

/// The two header bytes of a dimension that fits them stand for it.
pub proof fn lemma_header_round_trip(n: nat)
    requires
        n <= MAX_DIMENSION,
    ensures
        le16(low_byte(n), high_byte(n)) == n,
{
}

/// Encoding what was decoded gives back the bytes that were read: the
/// declared length of the input, without what follows it.
pub proof fn lemma_encode_decode(bytes: Seq<u8>)
    requires
        Raster::decodable(bytes),
    ensures
        Raster::decode(bytes).unwrap().wf(),
        Raster::decode(bytes).unwrap().encode() == bytes.subrange(
            0,
            Raster::declared_len(bytes) as int,
        ),
{
    let r = Raster::decode(bytes).unwrap();
    assert(r.encode() =~= bytes.subrange(0, Raster::declared_len(bytes) as int));
}

/// A buffer that is shorter than the header, or shorter than the header and
/// the pixels that the header declares, does not decode.
pub proof fn lemma_truncated_input_is_rejected(bytes: Seq<u8>)
    requires
        bytes.len() < HEADER_SIZE || bytes.len() < Raster::declared_len(bytes),
    ensures
        Raster::decode(bytes) is None,
{
}

/// Every strict prefix of an encoded image fails to decode.
pub proof fn lemma_prefix_is_rejected(r: Raster, len: int)
    requires
        r.wf(),
        0 < r.width <= MAX_DIMENSION,
        0 < r.height <= MAX_DIMENSION,
        0 <= len < r.encode().len(),
    ensures
        Raster::decode(r.encode().subrange(0, len)) is None,
{
    let bytes = r.encode().subrange(0, len);
    if len >= HEADER_SIZE {
        lemma_header_round_trip(r.width);
        lemma_header_round_trip(r.height);
        assert(Raster::declared_width(bytes) == r.width);
        assert(Raster::declared_height(bytes) == r.height);
    }
}

/// Extracting a region and copying it back changes nothing. More generally,
/// copying the region `rect` of `source` into `dest` leaves `dest` as it is
/// exactly where the two images hold the same pixels in that region.
pub proof fn lemma_blit_subimage(dest: Raster, source: Raster, rect: Rect)
    requires
        dest.wf(),
        source.wf(),
        dest.contains(rect),
        source.contains(rect),
        source.subimage(rect) == dest.subimage(rect),
    ensures
        dest.blit(source.subimage(rect), rect) == dest,
        dest.blit(dest.subimage(rect), rect) == dest,
{
    let image = dest.subimage(rect);
    let result = dest.blit(image, rect);
    assert forall|i: int| 0 <= i < dest.pixels.len() implies result.pixels[i]
        == dest.pixels[i] by {
        let width = dest.width as int;
        lemma_position(width, dest.height as int, i);
        let x = i % width;
        let y = i / width;
        if rect.covers(x, y) {
            lemma_subimage_pixel(dest, rect, x - rect.left, y - rect.top);
        }
    }
    assert(result.pixels =~= dest.pixels);
}

/// The pixel in column `x` and row `y` of a subimage is the pixel of the
/// image at that offset from the corner of the region.
pub proof fn lemma_subimage_pixel(r: Raster, rect: Rect, x: int, y: int)
    requires
        0 <= x < rect.width,
        0 <= y < rect.height,
    ensures
        r.subimage(rect).wf(),
        r.subimage(rect).pixel(x, y) == r.pixel(rect.left + x, rect.top + y),
{
    lemma_cell(rect.width as int, x, y);
    lemma_cell_bounds(rect.width as int, rect.height as int, x, y);
}

/// The pixel in column `x` and row `y` of an image after a copy: the pixel
/// of the copied image inside the region, the pixel as it was outside.
pub proof fn lemma_blit_pixel(r: Raster, image: Raster, rect: Rect, x: int, y: int)
    requires
        r.wf(),
        0 <= x < r.width,
        0 <= y < r.height,
    ensures
        r.blit(image, rect).wf(),
        r.blit(image, rect).pixel(x, y) == if rect.covers(x, y) {
            image.pixel(x - rect.left, y - rect.top)
        } else {
            r.pixel(x, y)
        },
{
    lemma_cell(r.width as int, x, y);
    lemma_cell_bounds(r.width as int, r.height as int, x, y);
}

/// Copying an image into a region and extracting that region gives the
/// image back.
pub proof fn lemma_subimage_blit(r: Raster, image: Raster, rect: Rect)
    requires
        r.wf(),
        image.wf(),
        image.width == rect.width,
        image.height == rect.height,
        r.contains(rect),
    ensures
        r.blit(image, rect).subimage(rect) == image,
{
    let result = r.blit(image, rect).subimage(rect);
    assert forall|i: int| 0 <= i < image.pixels.len() implies result.pixels[i]
        == image.pixels[i] by {
        lemma_position(rect.width as int, rect.height as int, i);
        let x = i % (rect.width as int);
        let y = i / (rect.width as int);
        lemma_blit_pixel(r, image, rect, rect.left + x, rect.top + y);
    }
    assert(result.pixels =~= image.pixels);
}

/// Copying an image into a region leaves every region apart from it as it
/// was.
pub proof fn lemma_blit_keeps_disjoint(r: Raster, image: Raster, rect: Rect, other: Rect)
    requires
        r.wf(),
        r.contains(other),
        rect.disjoint(other),
    ensures
        r.blit(image, rect).subimage(other) == r.subimage(other),
{
    let result = r.blit(image, rect).subimage(other);
    let expected = r.subimage(other);
    assert forall|i: int| 0 <= i < expected.pixels.len() implies result.pixels[i]
        == expected.pixels[i] by {
        lemma_position(other.width as int, other.height as int, i);
        let x = i % (other.width as int);
        let y = i / (other.width as int);
        lemma_blit_pixel(r, image, rect, other.left + x, other.top + y);
    }
    assert(result.pixels =~= expected.pixels);
}

/// A palette of 256 colours holds a colour for every index.
pub proof fn lemma_full_palette_covers(indices: Seq<u8>, palette: Seq<u8>)
    requires
        palette.len() >= 3 * COLORS,
    ensures
        palette_covers(indices, palette),
{
}

/// The colour of pixel `i` stands at position `3 * i` of the colours of the
/// pixels: the three bytes that the palette holds for the index of the
/// pixel.
pub proof fn lemma_rgb_of_pixel(indices: Seq<u8>, palette: Seq<u8>, i: int)
    requires
        0 <= i < indices.len(),
        palette_covers(indices, palette),
    ensures
        rgb_of(indices, palette).len() == 3 * indices.len(),
        rgb_of(indices, palette).subrange(3 * i, 3 * i + 3) == palette.subrange(
            3 * indices[i],
            3 * indices[i] + 3,
        ),
{
    let colors = rgb_of(indices, palette);
    let color = palette.subrange(3 * indices[i], 3 * indices[i] + 3);
    assert forall|k: int| 0 <= k < 3 implies colors[3 * i + k] == color[k] by {
        lemma_cell(3, k, i);
    }
    assert(colors.subrange(3 * i, 3 * i + 3) =~= color);
}

/// A region in which every pixel holds `color` is, as an image of its own,
/// the image filled with `color`.
pub proof fn lemma_uniform_subimage(r: Raster, rect: Rect, color: u8)
    requires
        forall|x: int, y: int| rect.covers(x, y) ==> #[trigger] r.pixel(x, y) == color,
    ensures
        r.subimage(rect) == Raster::filled(rect.width as nat, rect.height as nat, color),
{
    let image = r.subimage(rect);
    let filled = Raster::filled(rect.width as nat, rect.height as nat, color);
    assert(rect.width * rect.height == (rect.width as nat) * (rect.height as nat));
    assert forall|i: int| 0 <= i < image.pixels.len() implies image.pixels[i] == color by {
        lemma_position(rect.width as int, rect.height as int, i);
        let x = rect.left + i % (rect.width as int);
        let y = rect.top + i / (rect.width as int);
        assert(rect.covers(x, y));
    }
    assert(image.pixels =~= filled.pixels);
}

} // verus!
