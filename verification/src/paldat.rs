//! The palette store.
//!
//! # File layout
//!
//! * The file consists of 768-byte colour palettes, one after the other.
//! * Each palette contains 256 3-byte colours.
//! * Each 3-byte colour consists of its red, green and blue component, 1
//!   unsigned byte each.
//!
//! Mode 13h shows 6 bits per channel, and the game shifts each value by two
//! bits to the right before it hands it to the hardware. This module does no
//! such thing: it keeps the bytes of the file as they are.

use vstd::prelude::*;
use vstd::slice::slice_subrange;

verus! {

/// The number of bytes of a palette.
pub const PALETTE_SIZE_IN_BYTES: usize = 768;

/// The number of palettes that a file of `len` bytes holds.
pub open spec fn palette_count(len: nat) -> nat {
    len / (PALETTE_SIZE_IN_BYTES as nat)
}

/// Palette `palette` of the file `bytes`.
pub open spec fn palette_of(bytes: Seq<u8>, palette: int) -> Seq<u8> {
    bytes.subrange(palette * PALETTE_SIZE_IN_BYTES, (palette + 1) * PALETTE_SIZE_IN_BYTES)
}

/// The palettes of the file `bytes`, if it consists of whole palettes.
pub open spec fn decode(bytes: Seq<u8>) -> Option<Seq<Seq<u8>>> {
    if bytes.len() % (PALETTE_SIZE_IN_BYTES as nat) == 0 {
        Some(Seq::new(palette_count(bytes.len()), |palette: int| palette_of(bytes, palette)))
    } else {
        None
    }
}

/// Every palette of a file lies within the file and has 768 bytes.
pub proof fn lemma_palette_in_bounds(bytes: Seq<u8>, palette: int)
    requires
        bytes.len() % (PALETTE_SIZE_IN_BYTES as nat) == 0,
        0 <= palette < palette_count(bytes.len()),
    ensures
        (palette + 1) * PALETTE_SIZE_IN_BYTES <= bytes.len(),
        palette_of(bytes, palette).len() == PALETTE_SIZE_IN_BYTES,
        decode(bytes).unwrap()[palette] == palette_of(bytes, palette),
{
}

/// The bytes of a palette store are its palettes one after the other: byte
/// `position` of the file is byte `position % 768` of palette
/// `position / 768`.
pub proof fn lemma_palettes_cover_file(bytes: Seq<u8>, position: int)
    requires
        bytes.len() % (PALETTE_SIZE_IN_BYTES as nat) == 0,
        0 <= position < bytes.len(),
    ensures
        0 <= position / (PALETTE_SIZE_IN_BYTES as int) < palette_count(bytes.len()),
        decode(bytes).unwrap()[position / (PALETTE_SIZE_IN_BYTES as int)][position % (
        PALETTE_SIZE_IN_BYTES as int)] == bytes[position],
{
}

/// A way to access the palettes of a palette store.
pub struct Paldat {
    data: Vec<u8>,
}

impl View for Paldat {
    type V = Seq<Seq<u8>>;

    closed spec fn view(&self) -> Seq<Seq<u8>> {
        Seq::new(
            palette_count(self.data@.len()),
            |palette: int| palette_of(self.data@, palette),
        )
    }
}

impl Paldat {
    /// The data consists of whole palettes.
    #[verifier::type_invariant]
    spec fn wf(&self) -> bool {
        self.data@.len() % (PALETTE_SIZE_IN_BYTES as nat) == 0
    }

    /// Load the palettes from the bytes of the file. All of it is kept in memory.
    ///
    /// # Errors
    /// If the number of bytes is not a multiple of 768 bytes (invalid file) the function will
    /// return `None`.
    pub fn load(bytes: &[u8]) -> (paldat: Option<Paldat>)
        ensures
            match paldat {
                Some(paldat) => decode(bytes@) == Some(paldat@),
                None => decode(bytes@) is None,
            },
            paldat is Some <==> bytes@.len() % (PALETTE_SIZE_IN_BYTES as nat) == 0,
    {
        if bytes.len() % PALETTE_SIZE_IN_BYTES != 0 {
            None
        } else {
            let mut data: Vec<u8> = Vec::new();
            data.extend_from_slice(bytes);
            assert(data@ =~= bytes@);
            Some(Paldat { data })
        }
    }

    /// The number of palettes in the file.
    pub fn palettes(&self) -> (count: usize)
        ensures
            count == self@.len(),
    {
        self.data.len() / PALETTE_SIZE_IN_BYTES
    }

    /// The `palette`'s data (`palette` is 0-based): 256 colours of 3 bytes each.
    pub fn palette_data(&self, palette: usize) -> (data: &[u8])
        requires
            palette < self@.len(),
        ensures
            data@ == self@[palette as int],
            data@.len() == PALETTE_SIZE_IN_BYTES,
    {
        proof {
            use_type_invariant(self);
            lemma_palette_in_bounds(self.data@, palette as int);
            assert(self.data@.len() == self.data.len());
        }
        slice_subrange(
            self.data.as_slice(),
            palette * PALETTE_SIZE_IN_BYTES,
            (palette + 1) * PALETTE_SIZE_IN_BYTES,
        )
    }
}

} // verus!
