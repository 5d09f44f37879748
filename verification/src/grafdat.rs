//! The sprite atlas.
//!
//! # File layout
//!
//! The file holds 30 segments of 33 000 bytes. Each segment starts with a
//! 6-byte header, which is not valid and is ignored, followed by the pixels
//! of one half-image, row by row: 319x100 pixels in the first 15 segments,
//! 319x99 pixels in the last 15. What is left of a segment is not used.
//!
//! The 30 half-images are the halves of 15 images of 319x199 pixels: image
//! `i` has its upper half in segment `i` and its lower half in segment
//! `i + 15`. There is an exception to this rule: the lower halves of images
//! 9 and 10 are stored the other way round.
//!
//! # The catalogue
//!
//! The sprites of the game are regions of those 15 images. [`sprite`] is the
//! table of the regions: entry `j` names an image and a region of it. A
//! [`Grafdat`] holds one image for each entry, in table order.

use crate::image13h::{
    copy_into, lemma_blit_pixel, lemma_cell_bounds, lemma_position, lemma_subimage_pixel,
    range_mut, views, write_all, write_zeros, Image13h, Raster, Rect, HEADER_SIZE,
};
use vstd::prelude::*;
use vstd::slice::slice_subrange;

verus! {

/// The number of bytes in a segment.
pub const SEGMENT_SIZE: usize = 33_000;

/// The number of segments in the file.
pub const SEGMENTS: usize = 30;

/// The number of bytes of the file that are read.
pub const FILE_SIZE: usize = SEGMENT_SIZE * SEGMENTS;

/// The number of images that the segments make up.
pub const IMAGES: usize = 15;

/// Width and height of the upper half of an image.
pub const FIRST_HALF_DIMENSIONS: (usize, usize) = (319, 100);

/// Width and height of the lower half of an image.
pub const SECOND_HALF_DIMENSIONS: (usize, usize) = (319, 99);

/// Width and height of an image.
pub const IMAGE_DIMENSIONS: (usize, usize) = (319, 199);

/// The number of pixels in the upper half of an image.
pub const FIRST_HALF_SIZE: usize = 31_900;

/// The number of pixels in the lower half of an image.
pub const SECOND_HALF_SIZE: usize = 31_581;

/// The number of pixels in an image.
pub const IMAGE_SIZE: usize = 63_481;

/// The number of entries in the table of sprites.
pub const ITEMS: usize = 359;

/// The table position of the first mouse cursor frame; there are 12.
pub const MOUSE_CURSORS: usize = 0;

/// The table position of the first button; there are 16.
pub const BUTTONS: usize = 12;

/// The number of buttons.
pub const BUTTON_COUNT: usize = 16;

/// The table position of the first terrain picture.
pub const PICTURES: usize = 49;

/// The table position of the main menu screen.
pub const MAIN_MENU: usize = 358;

/// The region between the corners `(x1, y1)`, inclusive, and `(x2, y2)`,
/// exclusive.
pub open spec fn span(x1: int, y1: int, x2: int, y2: int) -> Rect {
    Rect {
        left: x1 as usize,
        top: y1 as usize,
        width: (x2 - x1) as usize,
        height: (y2 - y1) as usize,
    }
}

/// Cell `column` of a row of 16x14 cells of image 3 whose first cell has
/// its left border at 11 and whose top border is at `top`.
pub open spec fn cell(column: int, top: int) -> (usize, Rect) {
    (3, span(11 + 16 * column, top, 27 + 16 * column, top + 14))
}

/// The regions of one tree: entry `part` of the 8 that belong to the tree
/// whose pictures start at row `top` of image 3. The first has no pixels.
pub open spec fn tree_part(part: int, top: int) -> (usize, Rect) {
    if part == 0 {
        (3, span(0, 0, 0, 0))
    } else if part == 1 {
        (3, span(235, top, 251, top + 14))
    } else if part == 2 {
        (3, span(251, top, 267, top + 14))
    } else if part == 3 {
        (3, span(235, top + 14, 251, top + 28))
    } else if part == 4 {
        (3, span(251, top + 14, 267, top + 28))
    } else if part == 5 {
        (3, span(235, top + 28, 251, top + 42))
    } else if part == 6 {
        (3, span(251, top + 28, 267, top + 42))
    } else {
        (3, span(251, top + 42, 267, top + 56))
    }
}

/// Entry `j` of the table of sprites: the image that the sprite is part of
/// and its region there.
///
/// The table is long, so its entries are hidden from the solver until a
/// proof asks for them with `reveal(sprite)`.
#[verifier::opaque]
pub open spec fn sprite(j: int) -> (usize, Rect) {
    if j < 12 {
        // Mouse cursor frames.
        cell(j, 8)
    } else if j < 26 {
        // Buttons.
        cell(j - 12, 22)
    } else if j == 26 {
        (3, span(251, 8, 267, 22))
    } else if j == 27 {
        (3, span(235, 8, 251, 22))
    } else if j < 44 {
        // Two trees of 8 entries each.
        tree_part((j - 28) % 8, 22 + 56 * ((j - 28) / 8))
    } else if j < 47 {
        // Fallen units.
        (3, span(219, 8 + (3 + (j - 44)) * 14, 235, 8 + (4 + (j - 44)) * 14))
    } else if j == 47 {
        // Units being hit.
        (3, span(203, 8, 219, 21))
    } else if j == 48 {
        (3, span(219, 8, 235, 21))
    } else if j < 52 {
        // Grass.
        cell(j - 49, 36)
    } else if j < 58 {
        (4, span(303, (2 + (j - 52)) * 14, 319, (3 + (j - 52)) * 14))
    } else if j < 71 {
        // Rocks.
        cell(j - 58, 92)
    } else if j < 74 {
        // Dry earth.
        (3, span(235, 134 + (j - 71) * 19, 257, 152 + (j - 71) * 19))
    } else if j < 84 {
        // Roads.
        cell(j - 74 + 3, 134)
    } else if j < 95 {
        cell(j - 84, 148)
    } else if j < 103 {
        // Bridges.
        cell(j - 95, 162)
    } else if j < 114 {
        // Gadgets.
        cell(j - 103 + 3, 36)
    } else if j < 117 {
        cell(j - 114 + 11, 148)
    } else if j < 123 {
        cell(j - 117 + 8, 162)
    } else if j < 136 {
        // Water.
        cell(j - 123, 50)
    } else if j < 149 {
        cell(j - 136, 64)
    } else if j < 162 {
        cell(j - 149, 78)
    } else if j < 169 {
        // Trees.
        (3, span(11 + 32 * (j - 162), 120, 43 + 32 * (j - 162), 134))
    } else if j < 176 {
        (3, span(11 + 32 * (j - 169), 106, 43 + 32 * (j - 169), 120))
    } else if j < 185 {
        // Buildings under construction.
        (7, span((j - 176) * 16, 168, (j - 176 + 1) * 16, 182))
    } else if j == 185 {
        // A one-pixel entry that keeps the numbering of the next ones.
        (3, span(0, 0, 1, 1))
    } else if j < 306 {
        // Buildings: 6 rows of 20. The last one of a row is one column
        // narrower, since the image ends there.
        (
            7,
            span(
                ((j - 186) % 20) * 16,
                ((j - 186) / 20 + 6) * 14,
                ((j - 186) % 20 + 1) * 16 - if (j - 186) % 20 == 19 {
                    1int
                } else {
                    0int
                },
                ((j - 186) / 20 + 7) * 14,
            ),
        )
    } else if j < 315 {
        // Ruins.
        (7, span((j - 306) * 16, 182, (j - 306 + 1) * 16, 196))
    } else if j < 327 {
        // Palisade.
        (4, span(287, (j - 315) * 14, 303, (j - 315 + 1) * 14))
    } else if j < 331 {
        // Shields.
        (4, span(303, (8 + (j - 327)) * 14, 319, (9 + (j - 327)) * 14))
    } else if j < 333 {
        // Healing.
        (4, span(303, (j - 331) * 14, 319, (1 + (j - 331)) * 14))
    } else if j < 347 {
        // Fire.
        cell(j - 333, 176)
    } else if j == 347 {
        // Borders.
        (3, span(0, 0, 11, 197))
    } else if j == 348 {
        (3, span(0, 0, 268, 8))
    } else if j == 349 {
        (3, span(267, 0, 274, 199))
    } else if j == 350 {
        (3, span(0, 190, 268, 199))
    } else if j == 351 {
        // Wood.
        (3, span(272, 7, 276, 28))
    } else if j == 352 {
        (3, span(278, 7, 310, 28))
    } else if j == 353 {
        (3, span(299, 9, 314, 150))
    } else if j == 354 {
        // The second row of buttons.
        (7, span(108, 142, 219, 160))
    } else if j == 355 {
        (7, span(108, 114, 219, 132))
    } else if j == 356 {
        (3, span(274, 38, 292, 54))
    } else if j == 357 {
        (3, span(274, 58, 292, 74))
    } else {
        // The main menu screen.
        (2, span(0, 0, 319, 199))
    }
}

/// The table of sprites, entry by entry.
pub open spec fn image_rects() -> Seq<(usize, Rect)> {
    Seq::new(ITEMS as nat, |j: int| sprite(j))
}

/// Every entry of the table names one of the images and a region that lies
/// within it.
pub proof fn lemma_sprite_fits(j: int)
    requires
        0 <= j < ITEMS,
    ensures
        sprite(j).0 < IMAGES,
        sprite(j).1.fits(IMAGE_DIMENSIONS.0 as nat, IMAGE_DIMENSIONS.1 as nat),
{
    reveal(sprite);
}

/// The last entry of the table is the whole of image 2.
pub proof fn lemma_main_menu_is_last()
    ensures
        MAIN_MENU == ITEMS - 1,
        sprite(MAIN_MENU as int) == (2usize, span(0, 0, 319, 199)),
{
    reveal(sprite);
}

/// Whether `rects` is the beginning of the table of sprites.
pub open spec fn is_table_prefix(rects: Seq<(usize, Rect)>) -> bool {
    forall|j: int| 0 <= j < rects.len() ==> rects[j] == sprite(j)
}

/// The regions that [`push_run`] appends: the region between `(x1, y1)` and
/// `(x2, y2)`, then the same region moved by `(dx, dy)`, and so on.
pub open spec fn run(
    image: usize,
    count: nat,
    x1: int,
    y1: int,
    x2: int,
    y2: int,
    dx: int,
    dy: int,
) -> Seq<(usize, Rect)> {
    Seq::new(count, |i: int| (image, span(x1 + i * dx, y1 + i * dy, x2 + i * dx, y2 + i * dy)))
}

/// Appends to `rects` a run of `count` regions of image `image`, all of one
/// size, each moved by `(dx, dy)` from the one before.
fn push_run(
    rects: &mut Vec<(usize, Rect)>,
    image: usize,
    count: usize,
    x1: usize,
    y1: usize,
    x2: usize,
    y2: usize,
    dx: usize,
    dy: usize,
)
    requires
        x1 <= x2 <= 1024,
        y1 <= y2 <= 1024,
        count <= 32,
        dx <= 32,
        dy <= 32,
    ensures
        final(rects)@ == old(rects)@ + run(
            image,
            count as nat,
            x1 as int,
            y1 as int,
            x2 as int,
            y2 as int,
            dx as int,
            dy as int,
        ),
{
    let ghost before = rects@;
    let ghost added = run(
        image,
        count as nat,
        x1 as int,
        y1 as int,
        x2 as int,
        y2 as int,
        dx as int,
        dy as int,
    );
    let mut i: usize = 0;
    while i < count
        invariant
            i <= count <= 32,
            x1 <= x2 <= 1024,
            y1 <= y2 <= 1024,
            dx <= 32,
            dy <= 32,
            added == run(
                image,
                count as nat,
                x1 as int,
                y1 as int,
                x2 as int,
                y2 as int,
                dx as int,
                dy as int,
            ),
            rects@ == before + added.subrange(0, i as int),
        decreases count - i,
    {
        assert(i * dx <= 1024 && i * dy <= 1024) by (nonlinear_arith)
            requires
                i < 32,
                dx <= 32,
                dy <= 32,
        ;
        let x: usize = i * dx;
        let y: usize = i * dy;
        rects.push((image, Rect::from_ranges(x1 + x..x2 + x, y1 + y..y2 + y)));
        i += 1;
        assert(rects@ =~= before + added.subrange(0, i as int));
    }
    assert(added.subrange(0, count as int) =~= added);
}

/// Appends to `rects` the 8 regions of the tree whose pictures start at row
/// `top`.
fn push_tree(rects: &mut Vec<(usize, Rect)>, top: usize)
    requires
        top <= 1024,
    ensures
        final(rects)@ == old(rects)@ + Seq::new(8, |part: int| tree_part(part, top as int)),
{
    let ghost before = rects@;
    rects.push((3, Rect::from_ranges(0..0, 0..0)));
    rects.push((3, Rect::from_ranges(235..251, top..top + 14)));
    rects.push((3, Rect::from_ranges(251..267, top..top + 14)));
    rects.push((3, Rect::from_ranges(235..251, top + 14..top + 28)));
    rects.push((3, Rect::from_ranges(251..267, top + 14..top + 28)));
    rects.push((3, Rect::from_ranges(235..251, top + 28..top + 42)));
    rects.push((3, Rect::from_ranges(251..267, top + 28..top + 42)));
    rects.push((3, Rect::from_ranges(251..267, top + 42..top + 56)));
    assert(rects@ =~= before + Seq::new(8, |part: int| tree_part(part, top as int)));
}

/// Appends the entries of the mouse cursor frames and of the buttons.
fn push_cursors_and_buttons(rects: &mut Vec<(usize, Rect)>)
    requires
        old(rects)@.len() == MOUSE_CURSORS,
    ensures
        final(rects)@.len() == 28,
        is_table_prefix(final(rects)@),
{
    proof {
        reveal(sprite);
    }
    // Mouse cursor frames.
    push_run(rects, 3, 12, 11, 8, 27, 22, 16, 0);
    assert(rects@.len() == 12 && is_table_prefix(rects@));
    // Buttons.
    push_run(rects, 3, 14, 11, 22, 27, 36, 16, 0);
    rects.push((3, Rect::from_ranges(251..267, 8..22)));
    rects.push((3, Rect::from_ranges(235..251, 8..22)));
}

/// Appends the entries of the growing trees and of the units that fall or
/// are hit.
fn push_trees_and_units(rects: &mut Vec<(usize, Rect)>)
    requires
        old(rects)@.len() == 28,
        is_table_prefix(old(rects)@),
    ensures
        final(rects)@.len() == PICTURES,
        is_table_prefix(final(rects)@),
{
    proof {
        reveal(sprite);
    }
    // Trees.
    push_tree(rects, 22);
    assert(rects@.len() == 36 && is_table_prefix(rects@));
    push_tree(rects, 78);
    assert(rects@.len() == 44 && is_table_prefix(rects@));
    // Fallen units.
    push_run(rects, 3, 3, 219, 50, 235, 64, 0, 14);
    assert(rects@.len() == 47 && is_table_prefix(rects@));
    // Units being hit.
    rects.push((3, Rect::from_ranges(203..219, 8..21)));
    rects.push((3, Rect::from_ranges(219..235, 8..21)));
}

/// Appends the entries of the terrain pictures: grass, rocks, dry earth,
/// roads and bridges.
fn push_ground(rects: &mut Vec<(usize, Rect)>)
    requires
        old(rects)@.len() == PICTURES,
        is_table_prefix(old(rects)@),
    ensures
        final(rects)@.len() == 103,
        is_table_prefix(final(rects)@),
{
    proof {
        reveal(sprite);
    }
    // Grass.
    push_run(rects, 3, 3, 11, 36, 27, 50, 16, 0);
    assert(rects@.len() == 52 && is_table_prefix(rects@));
    push_run(rects, 4, 6, 303, 28, 319, 42, 0, 14);
    assert(rects@.len() == 58 && is_table_prefix(rects@));
    // Rocks.
    push_run(rects, 3, 13, 11, 92, 27, 106, 16, 0);
    assert(rects@.len() == 71 && is_table_prefix(rects@));
    // Dry earth.
    push_run(rects, 3, 3, 235, 134, 257, 152, 0, 19);
    assert(rects@.len() == 74 && is_table_prefix(rects@));
    // Roads.
    push_run(rects, 3, 10, 59, 134, 75, 148, 16, 0);
    assert(rects@.len() == 84 && is_table_prefix(rects@));
    push_run(rects, 3, 11, 11, 148, 27, 162, 16, 0);
    assert(rects@.len() == 95 && is_table_prefix(rects@));
    // Bridges.
    push_run(rects, 3, 8, 11, 162, 27, 176, 16, 0);
}

/// Appends the entries of the gadgets, of the water and of the trees.
fn push_nature(rects: &mut Vec<(usize, Rect)>)
    requires
        old(rects)@.len() == 103,
        is_table_prefix(old(rects)@),
    ensures
        final(rects)@.len() == 176,
        is_table_prefix(final(rects)@),
{
    proof {
        reveal(sprite);
    }
    // Gadgets.
    push_run(rects, 3, 11, 59, 36, 75, 50, 16, 0);
    assert(rects@.len() == 114 && is_table_prefix(rects@));
    push_run(rects, 3, 3, 187, 148, 203, 162, 16, 0);
    assert(rects@.len() == 117 && is_table_prefix(rects@));
    push_run(rects, 3, 6, 139, 162, 155, 176, 16, 0);
    assert(rects@.len() == 123 && is_table_prefix(rects@));
    // Water.
    push_run(rects, 3, 13, 11, 50, 27, 64, 16, 0);
    assert(rects@.len() == 136 && is_table_prefix(rects@));
    push_run(rects, 3, 13, 11, 64, 27, 78, 16, 0);
    assert(rects@.len() == 149 && is_table_prefix(rects@));
    push_run(rects, 3, 13, 11, 78, 27, 92, 16, 0);
    assert(rects@.len() == 162 && is_table_prefix(rects@));
    // Trees.
    push_run(rects, 3, 7, 11, 120, 43, 134, 32, 0);
    assert(rects@.len() == 169 && is_table_prefix(rects@));
    push_run(rects, 3, 7, 11, 106, 43, 120, 32, 0);
}

/// Appends the entries of the buildings, from construction to ruin, and of
/// what stands around them.
fn push_buildings(rects: &mut Vec<(usize, Rect)>)
    requires
        old(rects)@.len() == 176,
        is_table_prefix(old(rects)@),
    ensures
        final(rects)@.len() == 333,
        is_table_prefix(final(rects)@),
{
    proof {
        reveal(sprite);
    }
    // Buildings under construction.
    push_run(rects, 7, 9, 0, 168, 16, 182, 16, 0);
    assert(rects@.len() == 185 && is_table_prefix(rects@));
    // A one-pixel entry that keeps the numbering of the next ones.
    rects.push((3, Rect::from_ranges(0..1, 0..1)));
    assert(rects@.len() == 186 && is_table_prefix(rects@));
    // Buildings. The last one of a row is one column narrower, since the
    // image ends there.
    let mut row: usize = 0;
    while row < 6
        invariant
            row <= 6,
            rects@.len() == 186 + 20 * row,
            is_table_prefix(rects@),
        decreases 6 - row,
    {
        proof {
            reveal(sprite);
        }
        let top: usize = (row + 6) * 14;
        push_run(rects, 7, 19, 0, top, 16, top + 14, 16, 0);
        rects.push((7, Rect::from_ranges(304..319, top..top + 14)));
        row += 1;
    }
    // Ruins.
    push_run(rects, 7, 9, 0, 182, 16, 196, 16, 0);
    assert(rects@.len() == 315 && is_table_prefix(rects@));
    // Palisade.
    push_run(rects, 4, 12, 287, 0, 303, 14, 0, 14);
    assert(rects@.len() == 327 && is_table_prefix(rects@));
    // Shields.
    push_run(rects, 4, 4, 303, 112, 319, 126, 0, 14);
    assert(rects@.len() == 331 && is_table_prefix(rects@));
    // Healing.
    push_run(rects, 4, 2, 303, 0, 319, 14, 0, 14);
}

/// Appends the entries of the fire and of the parts of the interface.
fn push_interface(rects: &mut Vec<(usize, Rect)>)
    requires
        old(rects)@.len() == 333,
        is_table_prefix(old(rects)@),
    ensures
        final(rects)@.len() == ITEMS,
        is_table_prefix(final(rects)@),
{
    proof {
        reveal(sprite);
    }
    // Fire.
    push_run(rects, 3, 14, 11, 176, 27, 190, 16, 0);
    assert(rects@.len() == 347 && is_table_prefix(rects@));
    // Borders.
    rects.push((3, Rect::from_ranges(0..11, 0..197)));
    rects.push((3, Rect::from_ranges(0..268, 0..8)));
    rects.push((3, Rect::from_ranges(267..274, 0..199)));
    rects.push((3, Rect::from_ranges(0..268, 190..199)));
    // Wood.
    rects.push((3, Rect::from_ranges(272..276, 7..28)));
    rects.push((3, Rect::from_ranges(278..310, 7..28)));
    rects.push((3, Rect::from_ranges(299..314, 9..150)));
    assert(rects@.len() == 354 && is_table_prefix(rects@));
    // The second row of buttons.
    rects.push((7, Rect::from_ranges(108..219, 142..160)));
    rects.push((7, Rect::from_ranges(108..219, 114..132)));
    rects.push((3, Rect::from_ranges(274..292, 38..54)));
    rects.push((3, Rect::from_ranges(274..292, 58..74)));
    // The main menu screen.
    rects.push((2, Rect::from_ranges(0..319, 0..199)));
}

/// The table of sprites: for each entry the image that the sprite is part
/// of and its region there.
pub fn get_image_rects() -> (rects: Vec<(usize, Rect)>)
    ensures
        rects@ == image_rects(),
        rects@.len() == ITEMS,
{
    let mut rects: Vec<(usize, Rect)> = Vec::new();
    push_cursors_and_buttons(&mut rects);
    push_trees_and_units(&mut rects);
    push_ground(&mut rects);
    push_nature(&mut rects);
    push_buildings(&mut rects);
    push_interface(&mut rects);
    assert(rects@ =~= image_rects());
    rects
}

/// The segment that holds the lower half of image `i`. The lower halves of
/// images 9 and 10 stand in each other's place.
pub open spec fn second_half_segment(i: int) -> int {
    if i == 9 {
        25
    } else if i == 10 {
        24
    } else {
        i + IMAGES
    }
}

/// The image whose lower half the segment `IMAGES + k` holds.
pub open spec fn second_half_owner(k: int) -> int {
    if k == 9 {
        10
    } else if k == 10 {
        9
    } else {
        k
    }
}

/// The `size` bytes of pixel data in segment `segment` of `bytes`.
pub open spec fn half(bytes: Seq<u8>, segment: int, size: int) -> Seq<u8> {
    bytes.subrange(
        segment * SEGMENT_SIZE + HEADER_SIZE,
        segment * SEGMENT_SIZE + HEADER_SIZE + size,
    )
}

/// Image `i` of the file `bytes`: its upper half, then its lower half.
pub open spec fn composite(bytes: Seq<u8>, i: int) -> Raster {
    Raster {
        width: IMAGE_DIMENSIONS.0 as nat,
        height: IMAGE_DIMENSIONS.1 as nat,
        pixels: half(bytes, i, FIRST_HALF_SIZE as int) + half(
            bytes,
            second_half_segment(i),
            SECOND_HALF_SIZE as int,
        ),
    }
}

/// The images of the file `bytes`. A file that is shorter than 30 segments
/// holds none; what follows the 30 segments is ignored.
pub open spec fn decode_images(bytes: Seq<u8>) -> Option<Seq<Raster>> {
    if bytes.len() >= FILE_SIZE {
        Some(Seq::new(IMAGES as nat, |i: int| composite(bytes, i)))
    } else {
        None
    }
}

/// Whether `image` has the dimensions of the images of the file.
pub open spec fn is_composite(image: Raster) -> bool {
    &&& image.width == IMAGE_DIMENSIONS.0
    &&& image.height == IMAGE_DIMENSIONS.1
    &&& image.pixels.len() == IMAGE_SIZE
}

/// Whether `images` are as many images as the file holds, of the dimensions
/// that they have there.
pub open spec fn are_composites(images: Seq<Raster>) -> bool {
    &&& images.len() == IMAGES
    &&& forall|i: int| 0 <= i < IMAGES ==> is_composite(#[trigger] images[i])
}

/// Byte `position` of the file that stores `images`: zero in the headers
/// and in the unused ends of the segments, a pixel elsewhere.
pub open spec fn encoded_byte(images: Seq<Raster>, position: int) -> u8 {
    let segment = position / (SEGMENT_SIZE as int);
    let offset = position % (SEGMENT_SIZE as int) - HEADER_SIZE;
    if offset < 0 {
        0
    } else if segment < IMAGES {
        if offset < FIRST_HALF_SIZE {
            images[segment].pixels[offset]
        } else {
            0
        }
    } else {
        if offset < SECOND_HALF_SIZE {
            images[second_half_owner(segment - IMAGES)].pixels[FIRST_HALF_SIZE + offset]
        } else {
            0
        }
    }
}

/// The file that stores `images`.
pub open spec fn encode_images(images: Seq<Raster>) -> Seq<u8> {
    Seq::new(FILE_SIZE as nat, |position: int| encoded_byte(images, position))
}

/// The sprites that the table cuts out of `images`, in table order.
pub open spec fn items_of(images: Seq<Raster>) -> Seq<Raster> {
    Seq::new(ITEMS as nat, |j: int| images[sprite(j).0 as int].subimage(sprite(j).1))
}

/// Whether `items` holds one image for each entry of the table, each of the
/// dimensions of its region.
pub open spec fn is_catalogue(items: Seq<Raster>) -> bool {
    &&& items.len() == ITEMS
    &&& forall|j: int|
        0 <= j < ITEMS ==> {
            &&& (#[trigger] items[j]).wf()
            &&& items[j].width == sprite(j).1.width
            &&& items[j].height == sprite(j).1.height
        }
}

/// The images of the file before any sprite is drawn: all pixels are 0.
pub open spec fn blank_images() -> Seq<Raster> {
    Seq::new(
        IMAGES as nat,
        |i: int| Raster::filled(IMAGE_DIMENSIONS.0 as nat, IMAGE_DIMENSIONS.1 as nat, 0),
    )
}

/// The images of the file after the first `count` sprites of `items` have
/// been drawn, each at its region, in table order.
pub open spec fn compose(items: Seq<Raster>, count: nat) -> Seq<Raster>
    decreases count,
{
    if count == 0 {
        blank_images()
    } else {
        let drawn = compose(items, (count - 1) as nat);
        let (image, rect) = sprite(count - 1);
        drawn.update(image as int, drawn[image as int].blit(items[count - 1], rect))
    }
}

/// The images that the sprites `items` make up.
pub open spec fn images_of(items: Seq<Raster>) -> Seq<Raster> {
    compose(items, ITEMS as nat)
}

/// The catalogue of sprites that the file `bytes` holds, if any.
pub open spec fn decode_catalogue(bytes: Seq<u8>) -> Option<Seq<Raster>> {
    match decode_images(bytes) {
        Some(images) => Some(items_of(images)),
        None => None,
    }
}

/// The file that stores the catalogue `items`.
pub open spec fn encode_catalogue(items: Seq<Raster>) -> Seq<u8> {
    encode_images(images_of(items))
}

/// The images that a file decodes to have the dimensions of the format.
pub proof fn lemma_decoded_images_are_composites(bytes: Seq<u8>)
    requires
        bytes.len() >= FILE_SIZE,
    ensures
        are_composites(decode_images(bytes).unwrap()),
{
}

/// The sprites cut out of images have the dimensions of their regions.
pub proof fn lemma_items_of_is_catalogue(images: Seq<Raster>)
    ensures
        is_catalogue(items_of(images)),
{
    assert forall|j: int| 0 <= j < ITEMS implies {
        &&& (#[trigger] items_of(images)[j]).wf()
        &&& items_of(images)[j].width == sprite(j).1.width
        &&& items_of(images)[j].height == sprite(j).1.height
    } by {
        let rect = sprite(j).1;
        lemma_sprite_fits(j);
        assert(rect.width * rect.height == (rect.width as nat) * (rect.height as nat));
    }
}

/// Drawing sprites keeps the number and the dimensions of the images.
pub proof fn lemma_compose_are_composites(items: Seq<Raster>, count: nat)
    requires
        count <= ITEMS,
    ensures
        are_composites(compose(items, count)),
    decreases count,
{
    if count > 0 {
        lemma_compose_are_composites(items, (count - 1) as nat);
        lemma_sprite_fits(count - 1);
    }
}

/// Creates the images of the file with all pixels 0.
fn empty_images() -> (images: Vec<Image13h>)
    ensures
        views(images@) == blank_images(),
{
    let mut images: Vec<Image13h> = Vec::new();
    let mut i: usize = 0;
    while i < IMAGES
        invariant
            i <= IMAGES,
            images@.len() == i,
            forall|k: int|
                0 <= k < i ==> (#[trigger] images@[k])@ == Raster::filled(
                    IMAGE_DIMENSIONS.0 as nat,
                    IMAGE_DIMENSIONS.1 as nat,
                    0,
                ),
        decreases IMAGES - i,
    {
        images.push(Image13h::empty(IMAGE_DIMENSIONS.0, IMAGE_DIMENSIONS.1));
        i += 1;
    }
    assert(views(images@) =~= blank_images());
    images
}

/// A catalogue of sprites: one image for each entry of the table of
/// sprites, in table order.
#[derive(Debug, Eq, PartialEq)]
pub struct Grafdat {
    items: Vec<Image13h>,
}

impl View for Grafdat {
    type V = Seq<Raster>;

    closed spec fn view(&self) -> Seq<Raster> {
        views(self.items@)
    }
}

impl Grafdat {
    /// Load the catalogue from the bytes of the file. This function will
    /// return None if the bytes do not make up 30 segments.
    pub fn load(bytes: &[u8]) -> (grafdat: Option<Grafdat>)
        ensures
            match grafdat {
                Some(grafdat) => decode_catalogue(bytes@) == Some(grafdat@) && is_catalogue(
                    grafdat@,
                ),
                None => decode_catalogue(bytes@) is None,
            },
            grafdat is Some <==> bytes@.len() >= FILE_SIZE,
    {
        match Grafdat::load_images(bytes) {
            None => None,
            Some(images) => {
                proof {
                    lemma_decoded_images_are_composites(bytes@);
                }
                Some(Grafdat::load_from_images(images.as_slice()))
            },
        }
    }

    /// Load the images of the file from its bytes. The error conditions of this function are
    /// the same as with `load`.
    pub fn load_images(bytes: &[u8]) -> (images: Option<Vec<Image13h>>)
        ensures
            match images {
                Some(images) => decode_images(bytes@) == Some(views(images@)),
                None => decode_images(bytes@) is None,
            },
            images is Some <==> bytes@.len() >= FILE_SIZE,
    {
        let w: usize = IMAGE_DIMENSIONS.0;
        let h1: usize = FIRST_HALF_DIMENSIONS.1;
        let h2: usize = SECOND_HALF_DIMENSIONS.1;
        let h: usize = h1 + h2;
        let first_half_size: usize = w * h1;
        let second_half_size: usize = w * h2;

        if bytes.len() < FILE_SIZE {
            return None;
        }
        let mut images: Vec<Image13h> = Vec::new();
        let mut i: usize = 0;
        while i < IMAGES
            invariant
                i <= IMAGES,
                w == IMAGE_DIMENSIONS.0,
                h == IMAGE_DIMENSIONS.1,
                first_half_size == FIRST_HALF_SIZE,
                second_half_size == SECOND_HALF_SIZE,
                bytes@.len() >= FILE_SIZE,
                images@.len() == i,
                forall|k: int| 0 <= k < i ==> (#[trigger] images@[k])@ == composite(bytes@, k),
            decreases IMAGES - i,
        {
            let mut image = Image13h::empty(w, h);
            let image_data = image.data_mut();
            let offset1: usize = i * SEGMENT_SIZE + HEADER_SIZE;
            // Images 9 and 10 have their second halves swapped, we need to handle this
            // manually.
            let second: usize = if i == 9 {
                25
            } else if i == 10 {
                24
            } else {
                i + IMAGES
            };
            let offset2: usize = second * SEGMENT_SIZE + HEADER_SIZE;
            let src1 = slice_subrange(bytes, offset1, offset1 + first_half_size);
            let src2 = slice_subrange(bytes, offset2, offset2 + second_half_size);
            copy_into(image_data, 0, src1);
            copy_into(image_data, first_half_size, src2);
            assert(image@.pixels =~= composite(bytes@, i as int).pixels);
            images.push(image);
            i += 1;
        }
        assert(views(images@) =~= decode_images(bytes@).unwrap());
        Some(images)
    }

    /// Load the catalogue from the images of the file: there have to be `IMAGES` of them, of
    /// the dimensions that they have in the file.
    pub fn load_from_images(images: &[Image13h]) -> (grafdat: Grafdat)
        requires
            are_composites(views(images@)),
        ensures
            grafdat@ == items_of(views(images@)),
            is_catalogue(grafdat@),
    {
        let rects = get_image_rects();
        let mut items: Vec<Image13h> = Vec::new();
        let mut j: usize = 0;
        while j < rects.len()
            invariant
                j <= rects@.len(),
                rects@ == image_rects(),
                are_composites(views(images@)),
                items@.len() == j,
                forall|k: int|
                    0 <= k < j ==> (#[trigger] items@[k])@ == items_of(views(images@))[k],
            decreases rects@.len() - j,
        {
            let (index, rect) = rects[j];
            proof {
                lemma_sprite_fits(j as int);
                assert(is_composite(views(images@)[index as int]));
            }
            items.push(images[index].subimage(&rect));
            j += 1;
        }
        assert(views(items@) =~= items_of(views(images@)));
        proof {
            lemma_items_of_is_catalogue(views(images@));
        }
        Grafdat { items }
    }

    /// Create an empty Grafdat. All images are filled with color 0.
    pub fn empty() -> (grafdat: Grafdat)
        ensures
            grafdat@ == items_of(blank_images()),
            is_catalogue(grafdat@),
    {
        let images = empty_images();
        Grafdat::load_from_images(images.as_slice())
    }

    /// Save the Grafdat to a byte buffer.
    pub fn save(&self, writer: &mut Vec<u8>)
        requires
            is_catalogue(self@),
        ensures
            final(writer)@ == old(writer)@ + encode_catalogue(self@),
    {
        let images = self.to_images();
        Grafdat::save_images(images.as_slice(), writer);
    }

    /// Save the images of the file to a byte buffer: there have to be `IMAGES` of them, of the
    /// dimensions that they have in the file.
    pub fn save_images(images: &[Image13h], writer: &mut Vec<u8>)
        requires
            are_composites(views(images@)),
        ensures
            final(writer)@ == old(writer)@ + encode_images(views(images@)),
    {
        let ghost before = writer@;
        let ghost file = encode_images(views(images@));
        let first_halves_filler: usize = SEGMENT_SIZE - HEADER_SIZE - FIRST_HALF_DIMENSIONS.0
            * FIRST_HALF_DIMENSIONS.1;
        let second_halves_filler: usize = SEGMENT_SIZE - HEADER_SIZE - SECOND_HALF_DIMENSIONS.0
            * SECOND_HALF_DIMENSIONS.1;

        let mut k: usize = 0;
        while k < IMAGES
            invariant
                k <= IMAGES,
                are_composites(views(images@)),
                file == encode_images(views(images@)),
                first_halves_filler == SEGMENT_SIZE - HEADER_SIZE - FIRST_HALF_SIZE,
                writer@ == before + file.subrange(0, k * SEGMENT_SIZE),
            decreases IMAGES - k,
        {
            proof {
                assert(is_composite(views(images@)[k as int]));
            }
            let ghost written = writer@;
            write_zeros(writer, HEADER_SIZE);
            write_all(
                writer,
                slice_subrange(
                    images[k].data(),
                    0,
                    FIRST_HALF_DIMENSIONS.0 * FIRST_HALF_DIMENSIONS.1,
                ),
            );
            write_zeros(writer, first_halves_filler);
            assert(writer@ =~= before + file.subrange(0, (k + 1) * SEGMENT_SIZE));
            k += 1;
        }
        let mut k: usize = 0;
        while k < IMAGES
            invariant
                k <= IMAGES,
                are_composites(views(images@)),
                file == encode_images(views(images@)),
                second_halves_filler == SEGMENT_SIZE - HEADER_SIZE - SECOND_HALF_SIZE,
                writer@ == before + file.subrange(0, (IMAGES + k) * SEGMENT_SIZE),
            decreases IMAGES - k,
        {
            // Images 9 and 10 have their second halves swapped.
            let i: usize = if k == 9 {
                10
            } else if k == 10 {
                9
            } else {
                k
            };
            proof {
                assert(is_composite(views(images@)[i as int]));
            }
            write_zeros(writer, HEADER_SIZE);
            write_all(
                writer,
                slice_subrange(
                    images[i].data(),
                    FIRST_HALF_DIMENSIONS.0 * FIRST_HALF_DIMENSIONS.1,
                    images[i].data().len(),
                ),
            );
            write_zeros(writer, second_halves_filler);
            assert(writer@ =~= before + file.subrange(0, (IMAGES + k + 1) * SEGMENT_SIZE));
            k += 1;
        }
        assert(file.subrange(0, (IMAGES + IMAGES) * SEGMENT_SIZE) =~= file);
    }

    /// Convert the contents to the images of the file: every sprite is drawn at its region,
    /// in table order, on images that are filled with color 0.
    pub fn to_images(&self) -> (images: Vec<Image13h>)
        requires
            is_catalogue(self@),
        ensures
            views(images@) == images_of(self@),
            are_composites(views(images@)),
    {
        let mut images = empty_images();
        let rects = get_image_rects();
        let mut j: usize = 0;
        while j < rects.len()
            invariant
                j <= rects@.len(),
                rects@ == image_rects(),
                is_catalogue(self@),
                views(images@) == compose(self@, j as nat),
            decreases rects@.len() - j,
        {
            let (image_index, rect) = rects[j];
            proof {
                lemma_sprite_fits(j as int);
                lemma_compose_are_composites(self@, j as nat);
                assert(is_composite(views(images@)[image_index as int]));
                assert(self@[j as int].wf());
            }
            let ghost drawn = views(images@);
            images[image_index].blit(&self.items[j], &rect);
            j += 1;
            assert(views(images@) =~= drawn.update(
                image_index as int,
                drawn[image_index as int].blit(self@[j - 1], rect),
            ));
        }
        proof {
            lemma_compose_are_composites(self@, ITEMS as nat);
        }
        images
    }

    /// Get a reference to the Grafdat items
    pub fn items(&self) -> (items: &[Image13h])
        ensures
            views(items@) == self@,
    {
        self.items.as_slice()
    }

    /// Get a mutable reference to the Grafdat items
    pub fn items_mut(&mut self) -> (items: &mut [Image13h])
        ensures
            views(items@) == old(self)@,
            final(items)@.len() == items@.len(),
            final(self)@ == views(final(items)@),
            final(self)@.len() == old(self)@.len(),
    {
        let ghost before = self.items@;
        let len: usize = self.items.len();
        let items = range_mut(&mut self.items, 0, len);
        assert(items@ =~= before);
        assert(after_borrow(self.items)@ =~= final(items)@);
        items
    }

    /// The main menu screen: the last sprite of the catalogue.
    pub fn main_menu(&self) -> (image: &Image13h)
        requires
            self@.len() > 0,
        ensures
            image@ == self@.last(),
    {
        &self.items[self.items.len() - 1]
    }

    /// A button of the interface, `button` counting from 0.
    pub fn button(&self, button: usize) -> (image: &Image13h)
        requires
            self@.len() == ITEMS,
            button < BUTTON_COUNT,
        ensures
            image@ == self@[BUTTONS + button],
    {
        &self.items[BUTTONS + button]
    }
}

/// Decoding the file that stores `images` gives them back, whatever bytes
/// follow it.
pub proof fn lemma_decode_encode_images(images: Seq<Raster>, rest: Seq<u8>)
    requires
        are_composites(images),
    ensures
        decode_images(encode_images(images) + rest) == Some(images),
        decode_images(encode_images(images)) == Some(images),
    decreases rest.len(),
{
    let file = encode_images(images) + rest;
    let decoded = decode_images(file).unwrap();
    assert forall|i: int| 0 <= i < IMAGES implies decoded[i] == images[i] by {
        assert(is_composite(images[i]));
        assert(composite(file, i).pixels =~= images[i].pixels);
    }
    assert(decoded =~= images);
    if rest.len() > 0 {
        lemma_decode_encode_images(images, Seq::empty());
    } else {
        assert(file =~= encode_images(images));
    }
}

/// A file in which the two segments of image `i` hold the byte `color`
/// throughout their pixel data decodes to an image `i` filled with `color`.
pub proof fn lemma_uniform_segments(bytes: Seq<u8>, i: int, color: u8)
    requires
        bytes.len() >= FILE_SIZE,
        0 <= i < IMAGES,
        forall|p: int|
            i * SEGMENT_SIZE <= p < (i + 1) * SEGMENT_SIZE ==> #[trigger] bytes[p] == color,
        forall|p: int|
            second_half_segment(i) * SEGMENT_SIZE <= p < (second_half_segment(i) + 1)
                * SEGMENT_SIZE ==> #[trigger] bytes[p] == color,
    ensures
        decode_images(bytes).unwrap()[i] == Raster::filled(
            IMAGE_DIMENSIONS.0 as nat,
            IMAGE_DIMENSIONS.1 as nat,
            color,
        ),
{
    let filled = Raster::filled(IMAGE_DIMENSIONS.0 as nat, IMAGE_DIMENSIONS.1 as nat, color);
    let pixels = composite(bytes, i).pixels;
    assert forall|p: int| 0 <= p < IMAGE_SIZE implies pixels[p] == color by {
        if p < FIRST_HALF_SIZE {
            assert(pixels[p] == bytes[i * SEGMENT_SIZE + HEADER_SIZE + p]);
        } else {
            assert(pixels[p] == bytes[second_half_segment(i) * SEGMENT_SIZE + HEADER_SIZE + (p
                - FIRST_HALF_SIZE)]);
        }
    }
    assert(IMAGE_DIMENSIONS.0 * IMAGE_DIMENSIONS.1 == IMAGE_SIZE);
    assert(pixels =~= filled.pixels);
}

/// Whether one of the first `count` entries of the table covers the pixel
/// in column `x` and row `y` of image `image`.
pub open spec fn drawn_at(count: nat, image: int, x: int, y: int) -> bool {
    exists|j: int| 0 <= j < count && (#[trigger] sprite(j)).0 == image && sprite(j).1.covers(x, y)
}

/// A pixel of the images that the sprites cut out of `images` make up: the
/// pixel of `images` where a sprite covers it, 0 elsewhere.
pub proof fn lemma_composed_pixel(images: Seq<Raster>, count: nat, image: int, x: int, y: int)
    requires
        are_composites(images),
        count <= ITEMS,
        0 <= image < IMAGES,
        0 <= x < IMAGE_DIMENSIONS.0,
        0 <= y < IMAGE_DIMENSIONS.1,
    ensures
        compose(items_of(images), count)[image].pixel(x, y) == if drawn_at(count, image, x, y) {
            images[image].pixel(x, y)
        } else {
            0
        },
    decreases count,
{
    let items = items_of(images);
    if count == 0 {
        lemma_cell_bounds(IMAGE_DIMENSIONS.0 as int, IMAGE_DIMENSIONS.1 as int, x, y);
    } else {
        let last = count - 1;
        lemma_composed_pixel(images, last as nat, image, x, y);
        lemma_compose_are_composites(items, last as nat);
        lemma_sprite_fits(last);
        let drawn = compose(items, last as nat);
        let (target, rect) = sprite(last);
        assert(is_composite(drawn[image]));
        if target == image {
            lemma_blit_pixel(drawn[image], items[last], rect, x, y);
            if rect.covers(x, y) {
                assert(is_composite(images[image]));
                lemma_subimage_pixel(images[image], rect, x - rect.left, y - rect.top);
                assert(sprite(last).0 == image && sprite(last).1.covers(x, y));
            }
        }
        if drawn_at(last as nat, image, x, y) {
            let j = choose|j: int|
                0 <= j < last && (#[trigger] sprite(j)).0 == image && sprite(j).1.covers(x, y);
            assert(sprite(j).0 == image && sprite(j).1.covers(x, y));
        }
        if drawn_at(count, image, x, y) && !(target == image && rect.covers(x, y)) {
            let j = choose|j: int|
                0 <= j < count && (#[trigger] sprite(j)).0 == image && sprite(j).1.covers(x, y);
            assert(j < last);
        }
    }
}

/// A pixel that no sprite covers is 0 in the images that a catalogue makes
/// up.
pub proof fn lemma_blank_where_not_drawn(
    items: Seq<Raster>,
    count: nat,
    image: int,
    x: int,
    y: int,
)
    requires
        count <= ITEMS,
        0 <= image < IMAGES,
        0 <= x < IMAGE_DIMENSIONS.0,
        0 <= y < IMAGE_DIMENSIONS.1,
        !drawn_at(count, image, x, y),
    ensures
        compose(items, count)[image].pixel(x, y) == 0,
    decreases count,
{
    if count == 0 {
        lemma_cell_bounds(IMAGE_DIMENSIONS.0 as int, IMAGE_DIMENSIONS.1 as int, x, y);
    } else {
        let last = count - 1;
        if drawn_at(last as nat, image, x, y) {
            let j = choose|j: int|
                0 <= j < last && (#[trigger] sprite(j)).0 == image && sprite(j).1.covers(x, y);
            assert(sprite(j).0 == image && sprite(j).1.covers(x, y));
        }
        lemma_blank_where_not_drawn(items, last as nat, image, x, y);
        lemma_compose_are_composites(items, last as nat);
        lemma_sprite_fits(last);
        let drawn = compose(items, last as nat);
        let (target, rect) = sprite(last);
        assert(is_composite(drawn[image]));
        assert(!(sprite(last).0 == image && sprite(last).1.covers(x, y)));
        assert(drawn[image].pixel(x, y) == 0);
        if target == image {
            lemma_blit_pixel(drawn[image], items[last], rect, x, y);
            assert(compose(items, count)[image] == drawn[image].blit(items[last], rect));
        } else {
            assert(compose(items, count)[image] == drawn[image]);
        }
    }
}

/// Cutting the sprites out of images, drawing them again and cutting them
/// out once more gives the same sprites: what the first pass loses of the
/// images lies outside every sprite.
pub proof fn lemma_sprites_survive(images: Seq<Raster>)
    requires
        are_composites(images),
    ensures
        items_of(images_of(items_of(images))) == items_of(images),
{
    let items = items_of(images);
    let again = items_of(images_of(items));
    lemma_compose_are_composites(items, ITEMS as nat);
    assert forall|j: int| 0 <= j < ITEMS implies again[j] == items[j] by {
        let (image, rect) = sprite(j);
        lemma_sprite_fits(j);
        assert forall|i: int| 0 <= i < rect.width * rect.height implies again[j].pixels[i]
            == items[j].pixels[i] by {
            lemma_position(rect.width as int, rect.height as int, i);
            let x = rect.left + i % (rect.width as int);
            let y = rect.top + i / (rect.width as int);
            lemma_composed_pixel(images, ITEMS as nat, image as int, x, y);
            assert(sprite(j).0 == image && sprite(j).1.covers(x, y));
        }
        assert(again[j].pixels =~= items[j].pixels);
    }
    assert(again =~= items);
}

/// The images that a catalogue makes up are made up again by the sprites
/// that are cut out of them.
pub proof fn lemma_images_survive(items: Seq<Raster>)
    ensures
        images_of(items_of(images_of(items))) == images_of(items),
{
    let images = images_of(items);
    let again = images_of(items_of(images));
    lemma_compose_are_composites(items, ITEMS as nat);
    lemma_compose_are_composites(items_of(images), ITEMS as nat);
    assert forall|k: int| 0 <= k < IMAGES implies again[k] == images[k] by {
        assert(is_composite(images[k]));
        assert(is_composite(again[k]));
        assert forall|p: int| 0 <= p < IMAGE_SIZE implies again[k].pixels[p]
            == images[k].pixels[p] by {
            lemma_position(IMAGE_DIMENSIONS.0 as int, IMAGE_DIMENSIONS.1 as int, p);
            let x = p % (IMAGE_DIMENSIONS.0 as int);
            let y = p / (IMAGE_DIMENSIONS.0 as int);
            lemma_composed_pixel(images, ITEMS as nat, k, x, y);
            if !drawn_at(ITEMS as nat, k, x, y) {
                lemma_blank_where_not_drawn(items, ITEMS as nat, k, x, y);
            }
        }
        assert(again[k].pixels =~= images[k].pixels);
    }
    assert(again =~= images);
}

/// Decoding a file, encoding the catalogue and decoding again gives the
/// catalogue of the first decoding.
pub proof fn lemma_decode_encode_decode(bytes: Seq<u8>)
    requires
        bytes.len() >= FILE_SIZE,
    ensures
        decode_catalogue(encode_catalogue(decode_catalogue(bytes).unwrap())) == decode_catalogue(
            bytes,
        ),
{
    let images = decode_images(bytes).unwrap();
    let items = items_of(images);
    lemma_decoded_images_are_composites(bytes);
    lemma_compose_are_composites(items, ITEMS as nat);
    lemma_decode_encode_images(images_of(items), Seq::empty());
    lemma_sprites_survive(images);
}

/// Encoding is stable from the first encoding on: the file that stores a
/// catalogue decodes to a catalogue that is stored as the same file.
pub proof fn lemma_encode_is_stable(items: Seq<Raster>)
    ensures
        decode_catalogue(encode_catalogue(items)) is Some,
        encode_catalogue(decode_catalogue(encode_catalogue(items)).unwrap()) == encode_catalogue(
            items,
        ),
{
    lemma_compose_are_composites(items, ITEMS as nat);
    lemma_decode_encode_images(images_of(items), Seq::empty());
    lemma_images_survive(items);
}

} // verus!
