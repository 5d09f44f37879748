//! The input of one frame.
//!
//! The window system hands over the events that came in since the last
//! frame. [`InputProcessor::process_frame_events`] goes through them in
//! order and tells what the frame has to react to: where the mouse is, which
//! key and which mouse button went down last, or that the game is to end.
//!
//! [`frame_state`] is the plainer view that the game loop takes: whether
//! the game goes on, whether any key went down and where the mouse is.

use vstd::prelude::*;

verus! {

/// The number of screen pixels that show one pixel of the game, in each
/// direction.
pub const SCREEN_SCALE: usize = 2;

/// A position of the mouse, in pixels of the game.
#[derive(Copy, Clone, Debug, PartialEq, Eq, Structural)]
pub struct MousePosition {
    pub x: usize,
    pub y: usize,
}

impl MousePosition {
    /// The position in column `x` and row `y`.
    pub fn new(x: usize, y: usize) -> (position: MousePosition)
        ensures
            position.x == x,
            position.y == y,
    {
        MousePosition { x, y }
    }
}

/// An event of the window system, as far as the game looks at it. Keys and
/// mouse buttons are given by the numbers that the window system has for
/// them, positions in pixels of the screen.
#[derive(Copy, Clone)]
pub enum FrameEvent {
    /// The user asked for the game to end.
    Quit,
    /// A key went down. Not every key has a number.
    KeyDown { scancode: Option<i32> },
    /// A mouse button went down.
    MouseButtonDown { button: u8 },
    /// The mouse moved to a position of the screen.
    MouseMotion { x: usize, y: usize },
    /// Any other event.
    Other,
}

/// What a frame has to react to.
#[derive(Copy, Clone)]
pub struct Input {
    pub mouse_position: MousePosition,
    pub key_pressed: Option<i32>,
    pub mouse_button_pressed: Option<u8>,
}

/// What the events of a frame come to.
#[derive(Copy, Clone)]
pub enum InputProcessorResult {
    /// The game is to end.
    Quit,
    /// The game goes on with this input.
    Input(Input),
}

/// The input after `event`, where it was `input` before: the last key, the
/// last button and the last position of the mouse count. Two pixels of the
/// screen show one pixel of the game, so positions are halved.
pub open spec fn after_event(input: Input, event: FrameEvent) -> Input {
    match event {
        FrameEvent::KeyDown { scancode } => Input { key_pressed: scancode, ..input },
        FrameEvent::MouseButtonDown { button } => Input {
            mouse_button_pressed: Some(button),
            ..input
        },
        FrameEvent::MouseMotion { x, y } => Input {
            mouse_position: MousePosition { x: x / SCREEN_SCALE, y: y / SCREEN_SCALE },
            ..input
        },
        _ => input,
    }
}

/// The position of the first request to end the game among `events`, or
/// their number if there is none: the events before it are looked at, the
/// others are not.
pub open spec fn events_seen(events: Seq<FrameEvent>) -> nat
    decreases events.len(),
{
    if events.len() == 0 || events[0] is Quit {
        0
    } else {
        1 + events_seen(events.drop_first())
    }
}

/// The input after the first `count` of `events`, where it was `input`
/// before.
pub open spec fn after_events(input: Input, events: Seq<FrameEvent>, count: nat) -> Input
    decreases count,
{
    if count == 0 {
        input
    } else {
        after_event(after_events(input, events, (count - 1) as nat), events[count - 1])
    }
}

/// The input at the start of a frame: the mouse where it was, no key and
/// no button.
pub open spec fn frame_start(mouse_position: MousePosition) -> Input {
    Input { mouse_position, key_pressed: None, mouse_button_pressed: None }
}

/// There is no request to end the game before position `events_seen`, and
/// there is one at that position unless it is the end of the events.
pub proof fn lemma_events_seen(events: Seq<FrameEvent>)
    ensures
        events_seen(events) <= events.len(),
        forall|i: int| 0 <= i < events_seen(events) ==> !(#[trigger] events[i] is Quit),
        events_seen(events) < events.len() ==> events[events_seen(events) as int] is Quit,
    decreases events.len(),
{
    if events.len() > 0 && !(events[0] is Quit) {
        let rest = events.drop_first();
        lemma_events_seen(rest);
        assert forall|i: int| 0 <= i < events_seen(events) implies !(#[trigger] events[i]
            is Quit) by {
            if i > 0 {
                assert(events[i] == rest[i - 1]);
            }
        }
        if events_seen(events) < events.len() {
            assert(events[events_seen(events) as int] == rest[events_seen(rest) as int]);
        }
    }
}

/// The number of events seen is the only position with no request to end
/// the game before it and with one at it, or the end of the events.
pub proof fn lemma_events_seen_is(events: Seq<FrameEvent>, count: nat)
    requires
        count <= events.len(),
        forall|i: int| 0 <= i < count ==> !(#[trigger] events[i] is Quit),
        count < events.len() ==> events[count as int] is Quit,
    ensures
        events_seen(events) == count,
{
    lemma_events_seen(events);
    let seen = events_seen(events);
    if seen < count {
        assert(!(events[seen as int] is Quit));
    } else if count < seen {
        assert(!(events[count as int] is Quit));
    }
}

/// Keeps the position of the mouse from frame to frame.
pub struct InputProcessor {
    mouse_position: MousePosition,
}

impl InputProcessor {
    /// Where the mouse was when the last frame ended.
    pub closed spec fn mouse_position(&self) -> MousePosition {
        self.mouse_position
    }

    /// A processor that takes the mouse to be in the upper left corner.
    pub fn new() -> (processor: InputProcessor)
        ensures
            processor.mouse_position() == (MousePosition { x: 0, y: 0 }),
    {
        InputProcessor { mouse_position: MousePosition::new(0, 0) }
    }

    /// Goes through the events of a frame, up to the first request to end the game. Tells
    /// the input that they come to, and keeps the position of the mouse for the next frame.
    pub fn process_frame_events(&mut self, events: &[FrameEvent]) -> (result:
        InputProcessorResult)
        ensures
            ({
                let seen = events_seen(events@);
                let input = after_events(frame_start(old(self).mouse_position()), events@, seen);
                &&& final(self).mouse_position() == input.mouse_position
                &&& result == if seen < events@.len() {
                    InputProcessorResult::Quit
                } else {
                    InputProcessorResult::Input(input)
                }
            }),
    {
        let ghost start = frame_start(self.mouse_position);
        let mut key_pressed: Option<i32> = None;
        let mut mouse_button_pressed: Option<u8> = None;
        let mut i: usize = 0;
        while i < events.len()
            invariant
                i <= events@.len(),
                start == frame_start(old(self).mouse_position()),
                forall|k: int| 0 <= k < i ==> !(#[trigger] events@[k] is Quit),
                after_events(start, events@, i as nat) == (Input {
                    mouse_position: self.mouse_position,
                    key_pressed,
                    mouse_button_pressed,
                }),
            decreases events@.len() - i,
        {
            match events[i] {
                FrameEvent::Quit => {
                    proof {
                        lemma_events_seen_is(events@, i as nat);
                    }
                    return InputProcessorResult::Quit;
                },
                FrameEvent::KeyDown { scancode } => {
                    key_pressed = scancode;
                },
                FrameEvent::MouseButtonDown { button } => {
                    mouse_button_pressed = Some(button);
                },
                FrameEvent::MouseMotion { x, y } => {
                    // We currently have to divide the coordinates by two, because we
                    // show every pixel of the game as two by two pixels of the screen.
                    self.mouse_position = MousePosition::new(x / SCREEN_SCALE, y / SCREEN_SCALE);
                },
                FrameEvent::Other => (),
            }
            i += 1;
        }
        proof {
            lemma_events_seen_is(events@, events@.len());
        }
        InputProcessorResult::Input(
            Input { mouse_position: self.mouse_position, key_pressed, mouse_button_pressed },
        )
    }
}

/// What the game loop knows at a point of a frame.
#[derive(Copy, Clone, Debug, PartialEq, Eq, Structural)]
pub struct FrameState {
    /// Whether the game goes on after the frame.
    pub running: bool,
    /// Whether a key went down in the frame.
    pub button_pressed: bool,
    /// Where the mouse is.
    pub mouse_position: MousePosition,
}

/// The state after `event`, where it was `state` before. A request to end
/// the game does not end the frame: the events after it count as well.
pub open spec fn state_after_event(state: FrameState, event: FrameEvent) -> FrameState {
    match event {
        FrameEvent::Quit => FrameState { running: false, ..state },
        FrameEvent::KeyDown { .. } => FrameState { button_pressed: true, ..state },
        FrameEvent::MouseMotion { x, y } => FrameState {
            mouse_position: MousePosition { x: x / SCREEN_SCALE, y: y / SCREEN_SCALE },
            ..state
        },
        _ => state,
    }
}

/// The state after the first `count` of `events`, where it was `state`
/// before.
pub open spec fn state_after_events(
    state: FrameState,
    events: Seq<FrameEvent>,
    count: nat,
) -> FrameState
    decreases count,
{
    if count == 0 {
        state
    } else {
        state_after_event(
            state_after_events(state, events, (count - 1) as nat),
            events[count - 1],
        )
    }
}

/// The state at the start of a frame: the game goes on, no key has gone
/// down and the mouse is where it was.
pub open spec fn frame_state_at_start(mouse_position: MousePosition) -> FrameState {
    FrameState { running: true, button_pressed: false, mouse_position }
}

/// What the events of a frame come to for the game loop, with the mouse at `mouse_position`
/// before them.
pub fn frame_state(mouse_position: MousePosition, events: &[FrameEvent]) -> (state: FrameState)
    ensures
        state == state_after_events(
            frame_state_at_start(mouse_position),
            events@,
            events@.len(),
        ),
{
    let mut state = FrameState { running: true, button_pressed: false, mouse_position };
    let mut i: usize = 0;
    while i < events.len()
        invariant
            i <= events@.len(),
            state == state_after_events(frame_state_at_start(mouse_position), events@, i as nat),
        decreases events@.len() - i,
    {
        match events[i] {
            FrameEvent::Quit => {
                state.running = false;
            },
            FrameEvent::KeyDown { .. } => {
                state.button_pressed = true;
            },
            FrameEvent::MouseMotion { x, y } => {
                state.mouse_position = MousePosition::new(x / SCREEN_SCALE, y / SCREEN_SCALE);
            },
            _ => (),
        }
        i += 1;
    }
    state
}

} // verus!
