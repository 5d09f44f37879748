use openpol::fontdat::{
    character_rect, Fontdat, CHARACTERS, CHARACTER_HEIGHT, CHARACTER_WIDTHS,
    CHARACTER_X_POSITIONS, MINIMUM_IMAGE_DIMENSIONS, ROW_CHARACTERS, ROW_OFFSETS,
};
use openpol::image13h::Image13h;

/// The bytes of a font image with every character filled with color equal
/// to the character's index + 100, on a background of color 0.
fn dummy_font_dat() -> Vec<u8> {
    let (width, height) = MINIMUM_IMAGE_DIMENSIONS;
    let mut bytes = vec![223, 0, 69, 0, 1, 0];
    bytes.resize(6 + width * height, 0);
    for i in 0..CHARACTERS {
        let row = if i < 33 {
            0
        } else if i < 64 {
            1
        } else {
            2
        };
        let top = ROW_OFFSETS[row].1;
        for y in top..top + CHARACTER_HEIGHT {
            for x in CHARACTER_X_POSITIONS[i]..CHARACTER_X_POSITIONS[i] + CHARACTER_WIDTHS[i] {
                bytes[6 + y * width + x] = 100 + i as u8;
            }
        }
    }
    bytes
}

#[test]
fn test_loading_and_saving_works() {
    let dummy_font_dat = dummy_font_dat();
    let fontdat = Fontdat::load(&dummy_font_dat[..]).unwrap();
    let mut expected_fontdat = Fontdat::empty();
    for i in 0..CHARACTERS {
        expected_fontdat.glyph_mut(i).fill(100 + i as u8);
    }
    // First let's verify that after loading from disk we get the expected glyphs...
    assert_eq!(fontdat, expected_fontdat);
    // ...then make sure that after saving a font we get the exact save binary content.
    let mut buf = Vec::new();
    fontdat.save(&mut buf);
    assert_eq!(buf, dummy_font_dat);
}

#[test]
fn test_saving_then_loading_gives_the_font_back() {
    let mut fontdat = Fontdat::empty();
    for i in 0..CHARACTERS {
        for (k, pixel) in fontdat.glyph_mut(i).data_mut().iter_mut().enumerate() {
            *pixel = (i * 31 + k * 7) as u8;
        }
    }
    let mut bytes = Vec::new();
    fontdat.save(&mut bytes);
    assert_eq!(bytes.len(), 6 + 223 * 69);
    assert_eq!(Fontdat::load(&bytes[..]), Some(fontdat));
}

#[test]
fn test_font_image_that_is_too_small_is_an_error() {
    let mut narrow = Vec::new();
    Image13h::empty(222, 69).save(&mut narrow);
    assert!(Fontdat::load(&narrow[..]).is_none());
    let mut low = Vec::new();
    Image13h::empty(223, 68).save(&mut low);
    assert!(Fontdat::load(&low[..]).is_none());
    // Wider than needed, but not high enough.
    let mut wide = Vec::new();
    Image13h::empty(400, 13).save(&mut wide);
    assert!(Fontdat::load(&wide[..]).is_none());
}

#[test]
fn test_font_image_that_is_no_image_is_an_error() {
    let bytes = dummy_font_dat();
    assert!(Fontdat::load(&bytes[0..bytes.len() - 1]).is_none());
    assert!(Fontdat::load(&[][..]).is_none());
    let mut bad_marker = bytes.clone();
    bad_marker[4] = 0;
    assert!(Fontdat::load(&bad_marker[..]).is_none());
}

#[test]
fn test_larger_font_image_is_cut_like_the_smallest() {
    let mut image = Image13h::empty(230, 70);
    for y in 0..70 {
        for (x, pixel) in image.mut_line(y).iter_mut().enumerate() {
            *pixel = (x + 3 * y) as u8;
        }
    }
    let mut bytes = Vec::new();
    image.save(&mut bytes);
    let fontdat = Fontdat::load(&bytes[..]).unwrap();
    for i in 0..CHARACTERS {
        assert_eq!(*fontdat.glyph(i), image.subimage(&character_rect(i)));
    }
}

#[test]
fn test_character_rect_works() {
    let rect = character_rect(0);
    assert_eq!((rect.left, rect.top, rect.width, rect.height), (7, 8, 4, 13));
    let rect = character_rect(32);
    assert_eq!((rect.left, rect.top, rect.width, rect.height), (172, 8, 7, 13));
    let rect = character_rect(33);
    assert_eq!((rect.left, rect.top, rect.width, rect.height), (8, 32, 8, 13));
    let rect = character_rect(63);
    assert_eq!((rect.left, rect.top, rect.width, rect.height), (216, 32, 7, 13));
    let rect = character_rect(64);
    assert_eq!((rect.left, rect.top, rect.width, rect.height), (7, 56, 4, 13));
    let rect = character_rect(90);
    assert_eq!((rect.left, rect.top, rect.width, rect.height), (147, 56, 6, 13));
}

#[test]
fn test_characters_of_a_row_stand_side_by_side() {
    assert_eq!(ROW_CHARACTERS.iter().sum::<usize>(), CHARACTERS);
    let mut character = 0;
    for row in 0..3 {
        let mut x = ROW_OFFSETS[row].0;
        for _ in 0..ROW_CHARACTERS[row] {
            let rect = character_rect(character);
            assert_eq!(rect.left, x);
            assert_eq!(rect.top, ROW_OFFSETS[row].1);
            x = rect.beyond_right();
            assert!(x <= MINIMUM_IMAGE_DIMENSIONS.0);
            assert!(rect.beyond_bottom() <= MINIMUM_IMAGE_DIMENSIONS.1);
            character += 1;
        }
    }
}

#[test]
fn test_empty_font() {
    let fontdat = Fontdat::empty();
    for i in 0..CHARACTERS {
        let glyph = fontdat.glyph(i);
        assert_eq!((glyph.width(), glyph.height()), (CHARACTER_WIDTHS[i], 13));
        assert!(glyph.data().iter().all(|pixel| *pixel == 0));
    }
    let mut bytes = vec![5];
    fontdat.save(&mut bytes);
    let mut expected = vec![5, 223, 0, 69, 0, 1, 0];
    expected.resize(7 + 223 * 69, 0);
    assert_eq!(bytes, expected);
}
