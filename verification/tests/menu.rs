use openpol::grafdat::{Grafdat, BUTTONS, MAIN_MENU};
use openpol::image13h::{Image13h, Rect};
use openpol::input::MousePosition;
use openpol::menu::{MainMenu, CURSOR_BUTTON, MUSIC_TRACK};

#[test]
fn test_menu_music_starts_once() {
    let mut menu = MainMenu::new();
    assert_eq!(menu.start_music(), Some(2));
    assert_eq!(menu.start_music(), None);
    assert_eq!(menu.start_music(), None);
    assert_eq!(MUSIC_TRACK, 2);
}

/// A catalogue whose menu picture is filled with 7 and whose cursor is a
/// frame of 9 around see-through pixels.
fn menu_grafdat() -> Grafdat {
    let mut grafdat = Grafdat::empty();
    grafdat.items_mut()[MAIN_MENU].fill(7);
    let cursor = &mut grafdat.items_mut()[BUTTONS + CURSOR_BUTTON];
    cursor.fill(9);
    for y in 1..13 {
        for pixel in cursor.mut_line(y)[1..15].iter_mut() {
            *pixel = 0;
        }
    }
    grafdat
}

#[test]
fn test_menu_screen_shows_the_menu_under_the_cursor() {
    let grafdat = menu_grafdat();
    let screen = MainMenu::draw(&grafdat, MousePosition::new(100, 50));
    assert_eq!((screen.width(), screen.height()), (320, 200));
    let mut expected = Image13h::empty(320, 200);
    expected.blit(&Image13h::filled_with_color(319, 199, 7), &Rect::from_ranges(0..319, 0..199));
    expected.blit(&Image13h::filled_with_color(16, 14, 9), &Rect::from_ranges(100..116, 50..64));
    expected.blit(&Image13h::filled_with_color(14, 12, 7), &Rect::from_ranges(101..115, 51..63));
    assert_eq!(screen, expected);
    // The last column and the last row of the screen are not part of the menu.
    assert_eq!(screen.line(0)[319], 0);
    assert_eq!(screen.line(199)[0], 0);
}

#[test]
fn test_menu_cursor_stays_on_the_screen() {
    let grafdat = menu_grafdat();
    let screen = MainMenu::draw(&grafdat, MousePosition::new(319, 199));
    let corner = screen.subimage(&Rect::from_ranges(304..320, 186..200));
    let mut expected = Image13h::filled_with_color(16, 14, 9);
    // The menu shows through the cursor, but it ends one pixel before the
    // border of the screen.
    expected.blit(&Image13h::filled_with_color(14, 12, 7), &Rect::from_ranges(1..15, 1..13));
    assert_eq!(corner, expected);
    assert_eq!(screen.line(185)[304], 7);
    assert_eq!(screen.line(186)[303], 7);

    let far = MainMenu::draw(&grafdat, MousePosition::new(5000, 7000));
    assert_eq!(far, screen);
    let edge = MainMenu::draw(&grafdat, MousePosition::new(304, 186));
    assert_eq!(edge, screen);
    let inside = MainMenu::draw(&grafdat, MousePosition::new(303, 186));
    assert_ne!(inside, screen);
}
