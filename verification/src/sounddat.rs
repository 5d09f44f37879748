//! The sound bank.
//!
//! # File layout
//!
//! The file consists of N sounds, one after the other, followed by N
//! little-endian 32-bit unsigned sizes in bytes. The nth size belongs to the
//! nth sound:
//!
//! `[ 0th sound ] [ 1st sound ] ... [ N-1th sound ] [ 0th size ] [ 1st size ] ... [ N-1th size ]`
//!
//! N is not stored. It is found by reading sizes from the end of the file
//! backwards and adding them up until the sum and the sizes read so far fill
//! the file exactly. The sum grows and the room that is left shrinks with
//! every size read, so at most one N fits: [`lemma_count_is_unique`].
//!
//! # Sound format
//!
//! A sound is a single channel of unsigned 8-bit samples at 22 050 Hz.

use vstd::prelude::*;
use vstd::slice::slice_subrange;

verus! {

/// The number of bytes of a size.
pub const ENTRY_SIZE: usize = 4;

/// The unsigned integer that the four bytes of `data` from position `at`
/// on stand for, the lowest byte first.
pub open spec fn le32(data: Seq<u8>, at: int) -> nat {
    (data[at] + 256 * data[at + 1] + 65_536 * data[at + 2] + 16_777_216 * data[at + 3]) as nat
}

/// The `k`th size from the end of the file: `size_from_end(data, 0)` is the
/// last one.
pub open spec fn size_from_end(data: Seq<u8>, k: nat) -> nat {
    le32(data, data.len() - ENTRY_SIZE * (k + 1))
}

/// The sum of the last `n` sizes of the file.
pub open spec fn tail_sum(data: Seq<u8>, n: nat) -> nat
    decreases n,
{
    if n == 0 {
        0
    } else {
        tail_sum(data, (n - 1) as nat) + size_from_end(data, (n - 1) as nat)
    }
}

/// Whether `data` is laid out as `n` sounds: their sizes and the sounds
/// themselves fill the file exactly.
pub open spec fn holds(data: Seq<u8>, n: nat) -> bool {
    &&& n >= 1
    &&& ENTRY_SIZE * n <= data.len()
    &&& tail_sum(data, n) + ENTRY_SIZE * n == data.len()
}

/// The number of sounds in the file, if it is laid out as a sound bank.
pub open spec fn sound_count(data: Seq<u8>) -> Option<nat> {
    if exists|n: nat| holds(data, n) {
        Some(choose|n: nat| holds(data, n))
    } else {
        None
    }
}

/// The size of sound `i` of a file that holds `n` sounds.
pub open spec fn sound_size(data: Seq<u8>, n: nat, i: nat) -> nat {
    size_from_end(data, (n - 1 - i) as nat)
}

/// The position of the first byte of sound `i` of a file that holds `n`
/// sounds: the sizes of the sounds before it, added up.
pub open spec fn sound_offset(data: Seq<u8>, n: nat, i: nat) -> nat
    decreases i,
{
    if i == 0 {
        0
    } else {
        sound_offset(data, n, (i - 1) as nat) + sound_size(data, n, (i - 1) as nat)
    }
}

/// Sound `i` of a file that holds `n` sounds.
pub open spec fn sound(data: Seq<u8>, n: nat, i: nat) -> Seq<u8> {
    data.subrange(
        sound_offset(data, n, i) as int,
        (sound_offset(data, n, i) + sound_size(data, n, i)) as int,
    )
}

/// The sounds of the file, if it is laid out as a sound bank.
pub open spec fn decode(data: Seq<u8>) -> Option<Seq<Seq<u8>>> {
    match sound_count(data) {
        Some(n) => Some(Seq::new(n, |i: int| sound(data, n, i as nat))),
        None => None,
    }
}

/// The sum of the sizes grows with the number of sizes.
pub proof fn lemma_tail_sum_grows(data: Seq<u8>, n: nat, m: nat)
    requires
        n <= m,
    ensures
        tail_sum(data, n) <= tail_sum(data, m),
    decreases m,
{
    if n < m {
        lemma_tail_sum_grows(data, n, (m - 1) as nat);
    }
}

/// A file is laid out as `n` sounds for at most one `n`.
pub proof fn lemma_count_is_unique(data: Seq<u8>, n: nat, m: nat)
    requires
        holds(data, n),
        holds(data, m),
    ensures
        n == m,
{
    if n < m {
        lemma_tail_sum_grows(data, n, m);
    } else if m < n {
        lemma_tail_sum_grows(data, m, n);
    }
}

/// The number of sounds of a file that is laid out as `n` sounds is `n`.
pub proof fn lemma_count_found(data: Seq<u8>, n: nat)
    requires
        holds(data, n),
    ensures
        sound_count(data) == Some(n),
{
    let found = choose|m: nat| holds(data, m);
    lemma_count_is_unique(data, n, found);
}

/// Where reading backwards comes upon a sum of sizes that is more than the
/// room left for the sounds, the file is no sound bank. The reading comes
/// to the `k`th size only if the sizes before it left room.
pub proof fn lemma_overshoot_fails(data: Seq<u8>, k: nat)
    requires
        k >= 1,
        ENTRY_SIZE * k <= data.len(),
        tail_sum(data, k) + ENTRY_SIZE * k > data.len(),
        forall|j: nat| 1 <= j < k ==> tail_sum(data, j) + ENTRY_SIZE * j < data.len(),
    ensures
        decode(data) is None,
{
    assert forall|n: nat| !holds(data, n) by {
        if n >= k {
            lemma_tail_sum_grows(data, k, n);
        }
    }
}

/// Where the sizes that fit into the file never fill it, the file is no
/// sound bank.
pub proof fn lemma_undershoot_fails(data: Seq<u8>, k: nat)
    requires
        ENTRY_SIZE * (k + 1) > data.len(),
        forall|j: nat| 1 <= j <= k ==> tail_sum(data, j) + ENTRY_SIZE * j < data.len(),
    ensures
        decode(data) is None,
{
    assert forall|n: nat| !holds(data, n) by {}
}

/// The sounds before sound `i` and the sizes from sound `i` on add up to
/// the sum of all sizes.
pub proof fn lemma_offset_and_tail(data: Seq<u8>, n: nat, i: nat)
    requires
        i <= n,
    ensures
        sound_offset(data, n, i) + tail_sum(data, (n - i) as nat) == tail_sum(data, n),
    decreases i,
{
    if i > 0 {
        lemma_offset_and_tail(data, n, (i - 1) as nat);
    }
}

/// Every sound of a sound bank lies in the part of the file before the
/// sizes.
pub proof fn lemma_sound_in_bounds(data: Seq<u8>, n: nat, i: nat)
    requires
        holds(data, n),
        i < n,
    ensures
        sound_offset(data, n, i) + sound_size(data, n, i) <= data.len() - ENTRY_SIZE * n,
        sound(data, n, i).len() == sound_size(data, n, i),
{
    lemma_offset_and_tail(data, n, i + 1);
}

/// The sounds of a sound bank and their sizes fill the file exactly: the
/// sounds lie one after the other from the start of the file, and the
/// sizes follow the last of them.
pub proof fn lemma_sounds_fill_file(data: Seq<u8>, n: nat)
    requires
        holds(data, n),
    ensures
        sound_offset(data, n, n) + ENTRY_SIZE * n == data.len(),
        forall|i: nat|
            i < n ==> sound_offset(data, n, i) + #[trigger] sound(data, n, i).len()
                == sound_offset(data, n, i + 1),
{
    lemma_offset_and_tail(data, n, n);
    assert forall|i: nat| i < n implies sound_offset(data, n, i) + #[trigger] sound(
        data,
        n,
        i,
    ).len() == sound_offset(data, n, i + 1) by {
        lemma_sound_in_bounds(data, n, i);
    }
}

/// Reads the size that the four bytes of `data` from position `at` on hold.
pub(crate) fn read_size(data: &[u8], at: usize) -> (size: u32)
    requires
        at + ENTRY_SIZE <= data@.len(),
    ensures
        size == le32(data@, at as int),
{
    data[at] as u32 + 256 * (data[at + 1] as u32) + 65_536 * (data[at + 2] as u32) + 16_777_216 * (
    data[at + 3] as u32)
}

/// A way to access the sounds of a sound bank.
pub struct Sounddat {
    data: Vec<u8>,
    sizes: Vec<usize>,
    offsets: Vec<usize>,
}

impl View for Sounddat {
    type V = Seq<Seq<u8>>;

    closed spec fn view(&self) -> Seq<Seq<u8>> {
        Seq::new(
            self.sizes@.len(),
            |i: int|
                self.data@.subrange(self.offsets@[i] as int, self.offsets@[i] + self.sizes@[i]),
        )
    }
}

impl Sounddat {
    /// The sizes and offsets are those of the sounds of `data`.
    #[verifier::type_invariant]
    spec fn wf(&self) -> bool {
        let n = self.sizes@.len();
        &&& holds(self.data@, n)
        &&& self.offsets@.len() == n
        &&& forall|i: int|
            0 <= i < n ==> (#[trigger] self.sizes@[i]) == sound_size(self.data@, n, i as nat)
        &&& forall|i: int|
            0 <= i < n ==> (#[trigger] self.offsets@[i]) == sound_offset(self.data@, n, i as nat)
    }

    /// Load the sound bank from the bytes of the file. All of it is kept in memory.
    ///
    /// # Errors
    /// If the number of sounds can't be detected (the file contains unexpected data) the
    /// function will return `None`.
    pub fn load(bytes: &[u8]) -> (sounddat: Option<Sounddat>)
        ensures
            match sounddat {
                Some(sounddat) => decode(bytes@) == Some(sounddat@) && holds(
                    bytes@,
                    sounddat@.len(),
                ),
                None => decode(bytes@) is None,
            },
            sounddat is Some <==> exists|n: nat| holds(bytes@, n),
    {
        let total_bytes: usize = bytes.len();
        let mut accumulator: usize = 0;
        let mut sounds: usize = 0;
        let mut data_bytes: usize = total_bytes;

        loop
            invariant_except_break
                total_bytes == bytes@.len(),
                accumulator == tail_sum(bytes@, sounds as nat),
                data_bytes == total_bytes - ENTRY_SIZE * sounds,
                accumulator <= data_bytes,
                sounds >= 1 ==> accumulator < data_bytes,
                forall|j: nat|
                    1 <= j <= sounds ==> tail_sum(bytes@, j) + ENTRY_SIZE * j < bytes@.len(),
            ensures
                holds(bytes@, sounds as nat),
                total_bytes == bytes@.len(),
                data_bytes == total_bytes - ENTRY_SIZE * sounds,
            decreases data_bytes,
        {
            if data_bytes < ENTRY_SIZE {
                proof {
                    lemma_undershoot_fails(bytes@, sounds as nat);
                }
                return None;
            }
            let offset: usize = total_bytes - ENTRY_SIZE * (sounds + 1);
            let entry: usize = read_size(bytes, offset) as usize;
            data_bytes -= ENTRY_SIZE;
            sounds += 1;
            if accumulator > data_bytes || entry > data_bytes - accumulator {
                proof {
                    lemma_overshoot_fails(bytes@, sounds as nat);
                }
                return None;
            }
            accumulator += entry;
            if accumulator == data_bytes {
                break ;
            }
        }

        let mut data: Vec<u8> = Vec::new();
        data.extend_from_slice(bytes);
        assert(data@ =~= bytes@);
        let mut sizes: Vec<usize> = Vec::new();
        let mut offsets: Vec<usize> = Vec::new();
        let mut offset: usize = 0;
        let mut i: usize = 0;
        while i < sounds
            invariant
                i <= sounds,
                holds(bytes@, sounds as nat),
                total_bytes == bytes@.len(),
                sizes@.len() == i,
                offsets@.len() == i,
                offset == sound_offset(bytes@, sounds as nat, i as nat),
                forall|k: int|
                    0 <= k < i ==> (#[trigger] sizes@[k]) == sound_size(
                        bytes@,
                        sounds as nat,
                        k as nat,
                    ),
                forall|k: int|
                    0 <= k < i ==> (#[trigger] offsets@[k]) == sound_offset(
                        bytes@,
                        sounds as nat,
                        k as nat,
                    ),
            decreases sounds - i,
        {
            proof {
                lemma_sound_in_bounds(bytes@, sounds as nat, i as nat);
            }
            let size: usize = read_size(bytes, total_bytes - ENTRY_SIZE * (sounds - i)) as usize;
            sizes.push(size);
            offsets.push(offset);
            offset += size;
            i += 1;
        }
        proof {
            lemma_count_found(bytes@, sounds as nat);
        }
        let sounddat = Sounddat { data, sizes, offsets };
        assert(sounddat@ =~= decode(bytes@).unwrap());
        Some(sounddat)
    }

    /// The number of sounds in the file.
    pub fn sounds(&self) -> (count: usize)
        ensures
            count == self@.len(),
    {
        self.sizes.len()
    }

    /// The `sound`'s data (`sound` is 0-based). The data is to be interpreted as described by the
    /// module's documentation on the sound format.
    pub fn sound_data(&self, sound: usize) -> (data: &[u8])
        requires
            sound < self@.len(),
        ensures
            data@ == self@[sound as int],
    {
        proof {
            use_type_invariant(self);
            lemma_sound_in_bounds(self.data@, self.sizes@.len(), sound as nat);
            assert(self.data@.len() == self.data.len());
        }
        let offset: usize = self.offsets[sound];
        slice_subrange(self.data.as_slice(), offset, offset + self.sizes[sound])
    }

    /// Convert the structure into a vector of buffers containing the pieces of data.
    pub fn into_vecs(self) -> (vecs: Vec<Vec<u8>>)
        ensures
            vecs@.len() == self@.len(),
            forall|i: int| 0 <= i < vecs@.len() ==> (#[trigger] vecs@[i])@ == self@[i],
    {
        proof {
            use_type_invariant(&self);
        }
        let ghost sounds = self@;
        let ghost data = self.data@;
        let ghost n = self.sizes@.len();
        let mut vecs: Vec<Vec<u8>> = Vec::new();
        let mut rest: Vec<u8> = self.data;
        let sizes: Vec<usize> = self.sizes;
        let mut i: usize = 0;
        while i < sizes.len()
            invariant
                i <= sizes@.len(),
                n == sizes@.len(),
                sounds.len() == n,
                holds(data, n),
                forall|k: int|
                    0 <= k < n ==> (#[trigger] sizes@[k]) == sound_size(data, n, k as nat),
                forall|k: int| 0 <= k < n ==> (#[trigger] sounds[k]) == sound(data, n, k as nat),
                rest@ == data.subrange(sound_offset(data, n, i as nat) as int, data.len() as int),
                vecs@.len() == i,
                forall|k: int| 0 <= k < i ==> (#[trigger] vecs@[k])@ == sounds[k],
            decreases sizes@.len() - i,
        {
            proof {
                lemma_sound_in_bounds(data, n, i as nat);
            }
            let size: usize = sizes[i];
            let mut chunk: Vec<u8> = rest;
            rest = chunk.split_off(size);
            assert(chunk@ =~= sound(data, n, i as nat));
            assert(rest@ =~= data.subrange(
                sound_offset(data, n, (i + 1) as nat) as int,
                data.len() as int,
            ));
            vecs.push(chunk);
            i += 1;
        }
        vecs
    }
}

} // verus!
