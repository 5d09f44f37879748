//! The main menu.
//!
//! The menu is one screen: the picture of the menu with the mouse cursor on
//! top of it. The cursor is drawn where the mouse is, but never beyond the
//! right or the lower border of the screen.

use crate::grafdat::{is_catalogue, lemma_sprite_fits, Grafdat, BUTTONS, MAIN_MENU};
use crate::image13h::{Image13h, Raster, Rect, SCREEN_HEIGHT, SCREEN_WIDTH};
use crate::input::MousePosition;
use vstd::prelude::*;

verus! {

/// The music track of the main menu. Track numbers start at 2, since the
/// data of the game is the first track on its disc.
pub const MUSIC_TRACK: usize = 2;

/// The palette that the main menu is shown with.
pub const PALETTE: usize = 2;

/// The button whose picture is the mouse cursor of the main menu.
pub const CURSOR_BUTTON: usize = 6;

/// The colour of the cursor picture that lets the menu show through.
pub const CURSOR_TRANSPARENT_COLOR: u8 = 0;

/// The sound of a pressed button.
pub const BUTTON_SOUND: usize = 0;

/// The smaller of two numbers.
pub open spec fn min(a: int, b: int) -> int {
    if a <= b {
        a
    } else {
        b
    }
}

/// Where a cursor of the given dimensions is drawn when the mouse is at
/// `mouse`: at the mouse, or as near to it as the screen has room.
pub open spec fn cursor_rect(width: nat, height: nat, mouse: MousePosition) -> Rect {
    Rect {
        left: min(SCREEN_WIDTH - width, mouse.x as int) as usize,
        top: min(SCREEN_HEIGHT - height, mouse.y as int) as usize,
        width: width as usize,
        height: height as usize,
    }
}

/// The region of the upper left corner of the screen that a picture of the
/// given dimensions covers.
pub open spec fn corner_rect(width: nat, height: nat) -> Rect {
    Rect { left: 0, top: 0, width: width as usize, height: height as usize }
}

/// The screen of the main menu: the picture `menu` in the upper left corner
/// of an empty screen, and on top of it the picture `cursor`.
pub open spec fn screen_of(menu: Raster, cursor: Raster, mouse: MousePosition) -> Raster {
    Raster::filled(SCREEN_WIDTH as nat, SCREEN_HEIGHT as nat, 0).blit(
        menu,
        corner_rect(menu.width, menu.height),
    ).blit_with_transparency(
        cursor,
        cursor_rect(cursor.width, cursor.height, mouse),
        CURSOR_TRANSPARENT_COLOR,
    )
}

/// The main menu.
pub struct MainMenu {
    music_playing: bool,
}

impl MainMenu {
    /// Whether the music of the menu has been started.
    pub closed spec fn music_playing(&self) -> bool {
        self.music_playing
    }

    /// The main menu before its first frame.
    pub fn new() -> (menu: MainMenu)
        ensures
            !menu.music_playing(),
    {
        MainMenu { music_playing: false }
    }

    /// The track that is to be started now: the music of the menu in the first frame, none
    /// after that.
    pub fn start_music(&mut self) -> (track: Option<usize>)
        ensures
            final(self).music_playing(),
            track == if old(self).music_playing() {
                None
            } else {
                Some(MUSIC_TRACK)
            },
    {
        if !self.music_playing {
            self.music_playing = true;
            Some(MUSIC_TRACK)
        } else {
            None
        }
    }

    /// The screen of the main menu with the mouse at `mouse`.
    pub fn draw(grafdat: &Grafdat, mouse: MousePosition) -> (screen: Image13h)
        requires
            is_catalogue(grafdat@),
        ensures
            screen@ == screen_of(
                grafdat@[MAIN_MENU as int],
                grafdat@[BUTTONS + CURSOR_BUTTON],
                mouse,
            ),
            screen@.wf(),
    {
        proof {
            lemma_sprite_fits(MAIN_MENU as int);
            lemma_sprite_fits((BUTTONS + CURSOR_BUTTON) as int);
            assert(grafdat@[MAIN_MENU as int].wf());
            assert(grafdat@[BUTTONS + CURSOR_BUTTON].wf());
        }
        let mut screen = Image13h::empty_screen_sized();
        let menu = grafdat.main_menu();
        screen.blit(menu, &Rect { left: 0, top: 0, width: menu.width(), height: menu.height() });
        // Yes, the main menu cursor image comes from the buttons image array.
        let cursor = grafdat.button(CURSOR_BUTTON);
        let x: usize = if mouse.x < SCREEN_WIDTH - cursor.width() {
            mouse.x
        } else {
            SCREEN_WIDTH - cursor.width()
        };
        let y: usize = if mouse.y < SCREEN_HEIGHT - cursor.height() {
            mouse.y
        } else {
            SCREEN_HEIGHT - cursor.height()
        };
        screen.blit_with_transparency(
            cursor,
            &Rect { left: x, top: y, width: cursor.width(), height: cursor.height() },
            CURSOR_TRANSPARENT_COLOR,
        );
        screen
    }
}

} // verus!
