//! Codecs for the data files of a Mode 13h strategy game: indexed-colour
//! images, palettes, the sprite atlas, the sound bank and the bitmap font.
//!
//! Every decoder takes the raw bytes of a file and every encoder appends to a
//! byte buffer, so the crate itself performs no input or output. Each format
//! has a mathematical model (a `spec` function from bytes to values and back)
//! and the executable functions are proved against it.

pub mod audio;
pub mod fontdat;
pub mod grafdat;
pub mod image13h;
pub mod input;
pub mod intro;
pub mod menu;
pub mod paldat;
pub mod ppm;
pub mod sounddat;
