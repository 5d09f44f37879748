//! Sounds as streams of samples.
//!
//! A sound of the sound bank is a sequence of unsigned 8-bit samples of a
//! single channel at 22 050 Hz. A [`RodioSource`] walks through the samples
//! of a [`Sound`] and hands them out as unsigned 16-bit samples, for mixers
//! that take no 8-bit ones.

use std::sync::Arc;
use vstd::prelude::*;

verus! {

/// The number of channels of a sound.
pub const CHANNELS: u16 = 1;

/// The number of samples in a second of a sound.
pub const SAMPLE_RATE: u32 = 22_050;

/// The 16-bit sample that stands for the 8-bit sample `sample`: the sample
/// moved to the upper byte.
pub open spec fn widen(sample: u8) -> u16 {
    (sample * 256) as u16
}

/// A sound whose samples can be played several times at once.
pub struct Sound {
    data: Arc<Vec<u8>>,
}

impl View for Sound {
    type V = Seq<u8>;

    closed spec fn view(&self) -> Seq<u8> {
        self.data@
    }
}

/// Another handle on the samples that `data` points to: `Arc::clone`,
/// which copies the pointer and leaves the samples where they are.
#[verifier::external_body]
fn share(data: &Arc<Vec<u8>>) -> (shared: Arc<Vec<u8>>)
    ensures
        shared == *data,
{
    Arc::clone(data)
}

impl Sound {
    /// A sound of the samples `data`.
    pub fn new(data: Vec<u8>) -> (sound: Sound)
        ensures
            sound@ == data@,
    {
        Sound { data: Arc::new(data) }
    }

    /// Produce a source that plays samples from this Sound object.
    ///
    /// The source is cheap to create (it only references the data, doesn't own it, there are
    /// no copies created).
    pub fn as_source(&self) -> (source: RodioSource)
        ensures
            source.samples() == self@,
            source.position() == 0,
    {
        RodioSource::new(share(&self.data))
    }
}

/// A walk through the samples of a sound.
pub struct RodioSource {
    data: Arc<Vec<u8>>,
    position: usize,
}

impl RodioSource {
    /// The samples of the sound.
    pub closed spec fn samples(&self) -> Seq<u8> {
        self.data@
    }

    /// The number of samples that have been handed out.
    pub closed spec fn position(&self) -> nat {
        self.position as nat
    }

    /// No more samples are handed out than the sound has.
    #[verifier::type_invariant]
    spec fn wf(&self) -> bool {
        self.position <= self.data@.len()
    }

    /// A walk through `data` that starts at its first sample.
    pub fn new(data: Arc<Vec<u8>>) -> (source: RodioSource)
        ensures
            source.samples() == data@,
            source.position() == 0,
    {
        RodioSource { data, position: 0 }
    }

    /// The next sample of the sound, widened to 16 bits, or `None` when all samples have
    /// been handed out.
    pub fn next(&mut self) -> (sample: Option<u16>)
        ensures
            final(self).samples() == old(self).samples(),
            old(self).position() <= old(self).samples().len(),
            match sample {
                Some(sample) => {
                    &&& old(self).position() < old(self).samples().len()
                    &&& sample == widen(old(self).samples()[old(self).position() as int])
                    &&& final(self).position() == old(self).position() + 1
                },
                None => {
                    &&& old(self).position() == old(self).samples().len()
                    &&& final(self).position() == old(self).position()
                },
            },
    {
        proof {
            use_type_invariant(&*self);
        }
        if self.position < self.data.len() {
            // Since the samples we have are u8 and we need to produce u16 we just multiply.
            let byte: u8 = self.data[self.position];
            assert((byte as u16) << 8 == (byte as u16) * 256) by (bit_vector);
            let sample = Some((byte as u16) << 8);
            self.position += 1;
            sample
        } else {
            None
        }
    }

    /// The number of samples that are left.
    pub fn current_frame_len(&self) -> (len: Option<usize>)
        ensures
            len == Some((self.samples().len() - self.position()) as usize),
            self.position() <= self.samples().len(),
    {
        proof {
            use_type_invariant(self);
        }
        Some(self.data.len() - self.position)
    }

    /// The number of channels: one.
    pub fn channels(&self) -> (channels: u16)
        ensures
            channels == CHANNELS,
    {
        CHANNELS
    }

    /// The sample rate that the game and its data files use.
    pub fn sample_rate(&self) -> (rate: u32)
        ensures
            rate == SAMPLE_RATE,
    {
        SAMPLE_RATE
    }
}

} // verus!
