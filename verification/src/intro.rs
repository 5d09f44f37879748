//! The intro: three videos, shown one after the other.
//!
//! Showing a video takes a window, a clock and files, none of which this
//! crate has. This module holds what is decided on the way: which video is
//! next, when a frame of it is due and when the main menu takes over. The
//! program does what an [`IntroStep`] asks for and reports back what came of
//! it.
//!
//! A video can have a sound, stored in a file of its own: a little-endian
//! 32-bit unsigned size, followed by that many bytes of samples.

use crate::sounddat::{le32, read_size, ENTRY_SIZE};
use vstd::prelude::*;
use vstd::slice::slice_subrange;

verus! {

/// The number of videos of the intro.
pub const VIDEOS: u8 = 3;

/// The state of the intro, as mathematical values.
pub struct IntroState {
    /// Whether the video `current_intro` has been opened.
    pub video_open: bool,
    /// The milliseconds since the frame on the screen was due.
    pub since_last_render: nat,
    /// The number of the video that is shown, or is to be shown next.
    pub current_intro: nat,
}

impl IntroState {
    /// The state at the start of the intro.
    pub open spec fn start() -> IntroState {
        IntroState { video_open: false, since_last_render: 0, current_intro: 0 }
    }

    /// The state after the step to the next video: none is open yet.
    pub open spec fn after_next(self) -> IntroState {
        IntroState {
            video_open: false,
            since_last_render: 0,
            current_intro: self.current_intro + 1,
        }
    }

    /// The state in which an update goes on once the button has been looked
    /// at: a pressed button ends the current video.
    pub open spec fn after_button(self, button_pressed: bool) -> IntroState {
        if button_pressed {
            self.after_next()
        } else {
            self
        }
    }

    /// What is to be done in the state.
    pub open spec fn step(self) -> IntroStep {
        if self.video_open {
            IntroStep::Play
        } else if self.current_intro < VIDEOS {
            IntroStep::OpenVideo(self.current_intro as u8)
        } else {
            IntroStep::MainMenu
        }
    }

    /// Whether a frame of a video that shows a frame every `ms_per_frame`
    /// milliseconds is due.
    pub open spec fn frame_due(self, ms_per_frame: u32) -> bool {
        self.since_last_render >= ms_per_frame
    }
}

/// What the program is to do next.
#[derive(Clone, Copy, Debug, PartialEq, Eq, Structural)]
pub enum IntroStep {
    /// Open the video with this number, and its sound, and go on playing.
    OpenVideo(u8),
    /// Go on playing the video that is open.
    Play,
    /// The intro is over: show the main menu.
    MainMenu,
}

/// The state of the intro.
pub struct Intro {
    video_open: bool,
    since_last_render: u32,
    current_intro: u8,
}

impl View for Intro {
    type V = IntroState;

    closed spec fn view(&self) -> IntroState {
        IntroState {
            video_open: self.video_open,
            since_last_render: self.since_last_render as nat,
            current_intro: self.current_intro as nat,
        }
    }
}

impl Intro {
    /// The intro before its first video.
    pub fn new() -> (intro: Intro)
        ensures
            intro@ == IntroState::start(),
    {
        Intro { video_open: false, since_last_render: 0, current_intro: 0 }
    }

    /// The number of the video that is shown, or is to be shown next.
    pub fn current_intro(&self) -> (number: u8)
        ensures
            number == self@.current_intro,
    {
        self.current_intro
    }

    /// The milliseconds since the frame on the screen was due.
    pub fn since_last_render(&self) -> (milliseconds: u32)
        ensures
            milliseconds == self@.since_last_render,
    {
        self.since_last_render
    }

    /// Goes to the next video.
    pub fn next(&mut self)
        requires
            old(self)@.current_intro < u8::MAX,
        ensures
            final(self)@ == old(self)@.after_next(),
    {
        self.since_last_render = 0;
        self.video_open = false;
        self.current_intro += 1;
    }

    /// Starts an update: a pressed button ends the current video. Tells what is to be done
    /// next, and takes the video that is to be opened as open from then on.
    pub fn begin_update(&mut self, button_pressed: bool) -> (step: IntroStep)
        requires
            button_pressed ==> old(self)@.current_intro < u8::MAX,
        ensures
            step == old(self)@.after_button(button_pressed).step(),
            final(self)@ == (IntroState {
                video_open: step != IntroStep::MainMenu,
                ..old(self)@.after_button(button_pressed)
            }),
    {
        if button_pressed {
            self.next();
        }
        if self.video_open {
            IntroStep::Play
        } else if self.current_intro < VIDEOS {
            self.video_open = true;
            IntroStep::OpenVideo(self.current_intro)
        } else {
            IntroStep::MainMenu
        }
    }

    /// Lets `ticks` milliseconds pass. Tells whether a frame of the video, which shows a
    /// frame every `ms_per_frame` milliseconds, is due.
    pub fn add_ticks(&mut self, ticks: u32, ms_per_frame: u32) -> (due: bool)
        requires
            old(self)@.since_last_render + ticks <= u32::MAX,
        ensures
            final(self)@ == (IntroState {
                since_last_render: old(self)@.since_last_render + (ticks as nat),
                ..old(self)@
            }),
            due == final(self)@.frame_due(ms_per_frame),
    {
        self.since_last_render += ticks;
        self.since_last_render >= ms_per_frame
    }

    /// Takes note of a frame that was read because it was due. If the video `ended` with
    /// it, the next video is up. Tells whether a further frame is due.
    pub fn frame_read(&mut self, ended: bool, ms_per_frame: u32) -> (due: bool)
        requires
            ended ==> old(self)@.current_intro < u8::MAX,
            !ended ==> old(self)@.frame_due(ms_per_frame),
        ensures
            final(self)@ == if ended {
                old(self)@.after_next()
            } else {
                IntroState {
                    since_last_render: (old(self)@.since_last_render - ms_per_frame) as nat,
                    ..old(self)@
                }
            },
            due == (!ended && final(self)@.frame_due(ms_per_frame)),
    {
        if ended {
            self.next();
            false
        } else {
            self.since_last_render -= ms_per_frame;
            self.since_last_render >= ms_per_frame
        }
    }
}

/// The samples that the sound file `bytes` holds, if it is one: a size and
/// that many bytes.
pub open spec fn decode_sound(bytes: Seq<u8>) -> Option<Seq<u8>> {
    if bytes.len() >= ENTRY_SIZE && le32(bytes, 0) == bytes.len() - ENTRY_SIZE {
        Some(bytes.subrange(ENTRY_SIZE as int, bytes.len() as int))
    } else {
        None
    }
}

/// The samples of the sound of a video, from the bytes of its file. This function will
/// return None if the file does not start with the number of bytes that follow.
pub fn load_sound(bytes: &[u8]) -> (samples: Option<Vec<u8>>)
    ensures
        match samples {
            Some(samples) => decode_sound(bytes@) == Some(samples@),
            None => decode_sound(bytes@) is None,
        },
        samples is Some <==> bytes@.len() >= ENTRY_SIZE && le32(bytes@, 0) == bytes@.len()
            - ENTRY_SIZE,
{
    if bytes.len() < ENTRY_SIZE {
        return None;
    }
    let expected_len: usize = read_size(bytes, 0) as usize;
    if bytes.len() - ENTRY_SIZE != expected_len {
        return None;
    }
    let mut samples: Vec<u8> = Vec::new();
    samples.extend_from_slice(slice_subrange(bytes, ENTRY_SIZE, bytes.len()));
    assert(samples@ =~= bytes@.subrange(ENTRY_SIZE as int, bytes@.len() as int));
    Some(samples)
}

} // verus!
