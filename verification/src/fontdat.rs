//! The bitmap font.
//!
//! # File layout
//!
//! The font is stored as one image (see [`crate::image13h`]). The image
//! holds 3 rows of characters, all 13 pixels high:
//!
//! * the first row starts at line 8, column 7, and has 33 characters;
//! * the second row starts at line 32, column 8, and has 31 characters;
//! * the third row starts at line 56, column 7, and has 27 characters.
//!
//! The characters of a row stand side by side. Their widths are not stored
//! in the file: [`CHARACTER_WIDTHS`] and [`CHARACTER_X_POSITIONS`] hold
//! them.

use crate::image13h::{
    lemma_blit_keeps_disjoint, lemma_subimage_blit, views, Image13h, Raster, Rect,
};
use vstd::prelude::*;

verus! {

/// The number of rows of characters in the font image.
pub const ROWS: usize = 3;

/// How many characters are there, in total.
pub const CHARACTERS: usize = 91;

/// The height of every character.
pub const CHARACTER_HEIGHT: usize = 13;

/// Where do rows start, (x, y).
pub const ROW_OFFSETS: [(usize, usize); ROWS] = [(7, 8), (8, 32), (7, 56)];

/// How many characters are there in every row.
pub const ROW_CHARACTERS: [usize; ROWS] = [33, 31, 27];

/// The width and height of the smallest image that's capable of storing a font.
pub const MINIMUM_IMAGE_DIMENSIONS: (usize, usize) = (223, 69);

/// The widths of all characters.
pub const CHARACTER_WIDTHS: [usize; CHARACTERS] = [
    // The first row
    4, 2, 4, 6, 6, 6, 6, 6, 4, 4, 6, 6, 2, 4, 2, 6, 6, 5, 6, 6, 6, 6, 6, 6, 6, 6, 2, 2, 8, 6, 8, 6,
    7,
    // The second row
    8, 7, 7, 7, 6, 6, 8, 7, 2, 5, 7, 6, 8, 7, 8, 6, 8, 7, 7, 6, 7, 8, 11, 7, 8, 7, 7, 7, 7, 6, 7,
    // The third row
    4, 6, 6, 6, 6, 6, 4, 6, 6, 2, 2, 5, 2, 8, 6, 6, 6, 6, 4, 6, 3, 6, 6, 10, 6, 6, 6,
];

/// The x positions of the characters in the font image.
pub const CHARACTER_X_POSITIONS: [usize; CHARACTERS] = [
    // The first row
    7, 11, 13, 17, 23, 29, 35, 41, 47, 51, 55, 61, 67, 69, 73, 75, 81, 87, 92, 98, 104, 110, 116,
    122, 128, 134, 140, 142, 144, 152, 158, 166, 172,
    // The second row
    8, 16, 23, 30, 37, 43, 49, 57, 64, 66, 71, 78, 84, 92, 99, 107, 113, 121, 128, 135, 141, 148,
    156, 167, 174, 182, 189, 196, 203, 210, 216,
    // The third row
    7, 11, 17, 23, 29, 35, 41, 45, 51, 57, 59, 61, 66, 68, 76, 82, 88, 94, 100, 104, 110, 113, 119,
    125, 135, 141, 147,
];

/// The row of the font image that holds `character`.
pub open spec fn character_row(character: int) -> int {
    if character < ROW_CHARACTERS[0] {
        0
    } else if character < ROW_CHARACTERS[0] + ROW_CHARACTERS[1] {
        1
    } else {
        2
    }
}

/// The region of the font image that holds `character`.
pub open spec fn glyph_rect(character: int) -> Rect {
    Rect {
        left: CHARACTER_X_POSITIONS[character],
        top: ROW_OFFSETS[character_row(character)].1,
        width: CHARACTER_WIDTHS[character],
        height: CHARACTER_HEIGHT,
    }
}

/// The region of the font image that holds `character`.
pub fn character_rect(character: usize) -> (rect: Rect)
    requires
        character < CHARACTERS,
    ensures
        rect == glyph_rect(character as int),
{
    let line: usize = if character < ROW_CHARACTERS[0] {
        0
    } else if character < ROW_CHARACTERS[0] + ROW_CHARACTERS[1] {
        1
    } else {
        2
    };

    let x: usize = CHARACTER_X_POSITIONS[character];
    let y: usize = ROW_OFFSETS[line].1;
    Rect::from_ranges(x..x + CHARACTER_WIDTHS[character], y..y + CHARACTER_HEIGHT)
}

/// Every character lies within the smallest font image.
pub proof fn lemma_glyph_fits(character: int)
    requires
        0 <= character < CHARACTERS,
    ensures
        glyph_rect(character).fits(
            MINIMUM_IMAGE_DIMENSIONS.0 as nat,
            MINIMUM_IMAGE_DIMENSIONS.1 as nat,
        ),
        glyph_rect(character).width > 0,
{
}

/// In a row, each character stands directly right of the one before it.
pub proof fn lemma_glyphs_are_adjacent(character: int)
    requires
        0 <= character < CHARACTERS - 1,
        character_row(character) == character_row(character + 1),
    ensures
        glyph_rect(character + 1).left == glyph_rect(character).right(),
{
}

/// The characters of a row stand in the order of their numbers, none
/// reaching into the next.
pub proof fn lemma_glyphs_in_order(first: int, second: int)
    requires
        0 <= first < second < CHARACTERS,
        character_row(first) == character_row(second),
    ensures
        glyph_rect(first).right() <= glyph_rect(second).left,
    decreases second - first,
{
    if first + 1 < second {
        lemma_glyphs_in_order(first, second - 1);
    }
    lemma_glyphs_are_adjacent(second - 1);
    lemma_glyph_fits(second - 1);
}

/// No two characters share a pixel of the font image.
pub proof fn lemma_glyphs_are_disjoint(first: int, second: int)
    requires
        0 <= first < CHARACTERS,
        0 <= second < CHARACTERS,
        first != second,
    ensures
        glyph_rect(first).disjoint(glyph_rect(second)),
{
    if character_row(first) == character_row(second) {
        if first < second {
            lemma_glyphs_in_order(first, second);
        } else {
            lemma_glyphs_in_order(second, first);
        }
    }
}

/// The smallest font image is no larger than the characters need: one of
/// them reaches its right border and one its bottom border.
pub proof fn lemma_minimum_image_is_tight()
    ensures
        glyph_rect(63).right() == MINIMUM_IMAGE_DIMENSIONS.0,
        glyph_rect(90).bottom() == MINIMUM_IMAGE_DIMENSIONS.1,
{
}

/// Whether `glyphs` holds one image for each character, each of the
/// dimensions of the character.
pub open spec fn is_font(glyphs: Seq<Raster>) -> bool {
    &&& glyphs.len() == CHARACTERS
    &&& forall|character: int|
        0 <= character < CHARACTERS ==> {
            &&& (#[trigger] glyphs[character]).wf()
            &&& glyphs[character].width == glyph_rect(character).width
            &&& glyphs[character].height == glyph_rect(character).height
        }
}

/// Whether `image` is large enough to hold every character.
pub open spec fn holds_font(image: Raster) -> bool {
    image.width >= MINIMUM_IMAGE_DIMENSIONS.0 && image.height >= MINIMUM_IMAGE_DIMENSIONS.1
}

/// The characters that are cut out of the font image `image`.
pub open spec fn glyphs_of(image: Raster) -> Seq<Raster> {
    Seq::new(CHARACTERS as nat, |character: int| image.subimage(glyph_rect(character)))
}

/// The font that the file `bytes` holds, if any: the file has to hold an
/// image that is large enough for every character.
pub open spec fn decode(bytes: Seq<u8>) -> Option<Seq<Raster>> {
    match Raster::decode(bytes) {
        Some(image) => if holds_font(image) {
            Some(glyphs_of(image))
        } else {
            None
        },
        None => None,
    }
}

/// The smallest font image with the first `count` characters of `glyphs`
/// drawn on it, each at its region; the other pixels are 0.
pub open spec fn draw(glyphs: Seq<Raster>, count: nat) -> Raster
    decreases count,
{
    if count == 0 {
        Raster::filled(MINIMUM_IMAGE_DIMENSIONS.0 as nat, MINIMUM_IMAGE_DIMENSIONS.1 as nat, 0)
    } else {
        draw(glyphs, (count - 1) as nat).blit(glyphs[count - 1], glyph_rect(count - 1))
    }
}

/// The font image that the characters `glyphs` make up.
pub open spec fn image_of(glyphs: Seq<Raster>) -> Raster {
    draw(glyphs, CHARACTERS as nat)
}

/// The file that stores the font `glyphs`.
pub open spec fn encode(glyphs: Seq<Raster>) -> Seq<u8> {
    image_of(glyphs).encode()
}

/// The font in which every pixel of every character is 0.
pub open spec fn empty_font() -> Seq<Raster> {
    Seq::new(
        CHARACTERS as nat,
        |character: int|
            Raster::filled(
                glyph_rect(character).width as nat,
                glyph_rect(character).height as nat,
                0,
            ),
    )
}

/// Drawing characters keeps the dimensions of the font image.
pub proof fn lemma_draw_keeps_dimensions(glyphs: Seq<Raster>, count: nat)
    ensures
        draw(glyphs, count).wf(),
        draw(glyphs, count).width == MINIMUM_IMAGE_DIMENSIONS.0,
        draw(glyphs, count).height == MINIMUM_IMAGE_DIMENSIONS.1,
    decreases count,
{
    if count > 0 {
        lemma_draw_keeps_dimensions(glyphs, (count - 1) as nat);
    }
}

/// The characters that are cut out of an image that holds a font make up a
/// font.
pub proof fn lemma_glyphs_of_is_font(image: Raster)
    ensures
        is_font(glyphs_of(image)),
{
    assert forall|character: int| 0 <= character < CHARACTERS implies {
        &&& (#[trigger] glyphs_of(image)[character]).wf()
        &&& glyphs_of(image)[character].width == glyph_rect(character).width
        &&& glyphs_of(image)[character].height == glyph_rect(character).height
    } by {
        let rect = glyph_rect(character);
        assert(rect.width * rect.height == (rect.width as nat) * (rect.height as nat));
    }
}

/// A character that has been drawn on the font image is found there as it
/// was drawn, however many characters are drawn after it.
pub proof fn lemma_drawn_glyph_stays(glyphs: Seq<Raster>, count: nat, character: int)
    requires
        is_font(glyphs),
        0 <= character < count <= CHARACTERS,
    ensures
        draw(glyphs, count).subimage(glyph_rect(character)) == glyphs[character],
    decreases count,
{
    let last = count - 1;
    let before = draw(glyphs, last as nat);
    lemma_draw_keeps_dimensions(glyphs, last as nat);
    lemma_glyph_fits(last);
    lemma_glyph_fits(character);
    if character == last {
        lemma_subimage_blit(before, glyphs[last], glyph_rect(last));
    } else {
        lemma_drawn_glyph_stays(glyphs, last as nat, character);
        lemma_glyphs_are_disjoint(last, character);
        lemma_blit_keeps_disjoint(before, glyphs[last], glyph_rect(last), glyph_rect(character));
    }
}

/// Decoding the file that stores a font gives the font back, whatever bytes
/// follow it.
pub proof fn lemma_decode_encode(glyphs: Seq<Raster>, rest: Seq<u8>)
    requires
        is_font(glyphs),
    ensures
        decode(encode(glyphs) + rest) == Some(glyphs),
        decode(encode(glyphs)) == Some(glyphs),
{
    let image = image_of(glyphs);
    lemma_draw_keeps_dimensions(glyphs, CHARACTERS as nat);
    crate::image13h::lemma_decode_encode(image, rest);
    assert forall|character: int| 0 <= character < CHARACTERS implies glyphs_of(image)[character]
        == glyphs[character] by {
        lemma_drawn_glyph_stays(glyphs, CHARACTERS as nat, character);
    }
    assert(glyphs_of(image) =~= glyphs);
}

/// A font: one image for each character.
#[derive(Debug, Eq, PartialEq)]
pub struct Fontdat {
    glyphs: Vec<Image13h>,
}

impl View for Fontdat {
    type V = Seq<Raster>;

    closed spec fn view(&self) -> Seq<Raster> {
        views(self.glyphs@)
    }
}

impl Fontdat {
    /// Load a font from the bytes of the file. This function will return None if:
    ///
    /// * The image can't be loaded
    /// * The image loaded is too small (see `MINIMUM_IMAGE_DIMENSIONS`)
    pub fn load(bytes: &[u8]) -> (fontdat: Option<Fontdat>)
        ensures
            match fontdat {
                Some(fontdat) => decode(bytes@) == Some(fontdat@) && is_font(fontdat@),
                None => decode(bytes@) is None,
            },
            fontdat is Some <==> Raster::decodable(bytes@) && holds_font(
                Raster::decode(bytes@).unwrap(),
            ),
    {
        let image = match Image13h::load(bytes) {
            None => return None,
            Some(image) => image,
        };
        if image.width() < MINIMUM_IMAGE_DIMENSIONS.0 || image.height()
            < MINIMUM_IMAGE_DIMENSIONS.1 {
            return None;
        }
        let mut glyphs: Vec<Image13h> = Vec::new();
        let mut character: usize = 0;
        while character < CHARACTERS
            invariant
                character <= CHARACTERS,
                image@.wf(),
                holds_font(image@),
                glyphs@.len() == character,
                forall|k: int|
                    0 <= k < character ==> (#[trigger] glyphs@[k])@ == glyphs_of(image@)[k],
            decreases CHARACTERS - character,
        {
            let rect = character_rect(character);
            proof {
                lemma_glyph_fits(character as int);
            }
            let glyph = image.subimage(&rect);
            glyphs.push(glyph);
            character += 1;
        }
        assert(views(glyphs@) =~= glyphs_of(image@));
        proof {
            lemma_glyphs_of_is_font(image@);
        }
        Some(Fontdat { glyphs })
    }

    /// Create a new empty font (all characters are filled with color 0).
    pub fn empty() -> (fontdat: Fontdat)
        ensures
            fontdat@ == empty_font(),
            is_font(fontdat@),
    {
        let mut glyphs: Vec<Image13h> = Vec::new();
        let mut character: usize = 0;
        while character < CHARACTERS
            invariant
                character <= CHARACTERS,
                glyphs@.len() == character,
                forall|k: int| 0 <= k < character ==> (#[trigger] glyphs@[k])@ == empty_font()[k],
                forall|k: int| 0 <= k < character ==> (#[trigger] glyphs@[k])@.wf(),
            decreases CHARACTERS - character,
        {
            let rect = character_rect(character);
            proof {
                lemma_glyph_fits(character as int);
                assert(rect.width * rect.height <= 223 * 13) by (nonlinear_arith)
                    requires
                        rect.width <= 223,
                        rect.height == 13,
                ;
            }
            let glyph = Image13h::empty(rect.width, rect.height);
            glyphs.push(glyph);
            character += 1;
        }
        assert(views(glyphs@) =~= empty_font());
        Fontdat { glyphs }
    }

    /// Save the font to a byte buffer: every character is drawn at its region on an image of
    /// the smallest size, and the image is saved.
    pub fn save(&self, writer: &mut Vec<u8>)
        requires
            is_font(self@),
        ensures
            final(writer)@ == old(writer)@ + encode(self@),
    {
        let mut image = Image13h::empty(MINIMUM_IMAGE_DIMENSIONS.0, MINIMUM_IMAGE_DIMENSIONS.1);
        let mut character: usize = 0;
        while character < CHARACTERS
            invariant
                character <= CHARACTERS,
                is_font(self@),
                image@ == draw(self@, character as nat),
            decreases CHARACTERS - character,
        {
            let rect = character_rect(character);
            proof {
                lemma_glyph_fits(character as int);
                lemma_draw_keeps_dimensions(self@, character as nat);
                assert(self@[character as int].wf());
            }
            image.blit(&self.glyphs[character], &rect);
            character += 1;
        }
        image.save(writer);
    }

    /// Get a reference to a character glyph.
    pub fn glyph(&self, character: usize) -> (glyph: &Image13h)
        requires
            character < self@.len(),
        ensures
            glyph@ == self@[character as int],
    {
        &self.glyphs[character]
    }

    /// Get a mutable reference to character glyph. The other characters stay as they are.
    pub fn glyph_mut(&mut self, character: usize) -> (glyph: &mut Image13h)
        requires
            character < old(self)@.len(),
        ensures
            glyph@ == old(self)@[character as int],
            final(self)@ == old(self)@.update(character as int, final(glyph)@),
    {
        let ghost before = self.glyphs@;
        let glyph = &mut self.glyphs[character];
        assert(views(before.update(character as int, *final(glyph))) =~= views(before).update(
            character as int,
            final(glyph)@,
        ));
        glyph
    }
}

} // verus!
