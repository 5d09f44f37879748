use openpol::input::{
    frame_state, FrameEvent, FrameState, InputProcessor, InputProcessorResult, MousePosition,
};

#[test]
fn test_mouse_position_new_works() {
    let position = MousePosition::new(3, 4);
    assert_eq!((position.x, position.y), (3, 4));
}

#[test]
fn test_frame_without_events() {
    let mut processor = InputProcessor::new();
    match processor.process_frame_events(&[]) {
        InputProcessorResult::Input(input) => {
            assert_eq!((input.mouse_position.x, input.mouse_position.y), (0, 0));
            assert_eq!(input.key_pressed, None);
            assert_eq!(input.mouse_button_pressed, None);
        }
        InputProcessorResult::Quit => panic!("nothing asked for the end"),
    }
}

#[test]
fn test_last_event_of_a_kind_counts() {
    let mut processor = InputProcessor::new();
    let events = [
        FrameEvent::MouseMotion { x: 10, y: 21 },
        FrameEvent::KeyDown { scancode: Some(4) },
        FrameEvent::Other,
        FrameEvent::MouseButtonDown { button: 1 },
        FrameEvent::MouseMotion { x: 101, y: 0 },
        FrameEvent::KeyDown { scancode: None },
        FrameEvent::MouseButtonDown { button: 3 },
    ];
    match processor.process_frame_events(&events) {
        InputProcessorResult::Input(input) => {
            assert_eq!((input.mouse_position.x, input.mouse_position.y), (50, 0));
            assert_eq!(input.key_pressed, None);
            assert_eq!(input.mouse_button_pressed, Some(3));
        }
        InputProcessorResult::Quit => panic!("nothing asked for the end"),
    }
}

#[test]
fn test_mouse_position_is_kept_between_frames() {
    let mut processor = InputProcessor::new();
    processor.process_frame_events(&[FrameEvent::MouseMotion { x: 640, y: 399 }]);
    match processor.process_frame_events(&[FrameEvent::KeyDown { scancode: Some(40) }]) {
        InputProcessorResult::Input(input) => {
            assert_eq!((input.mouse_position.x, input.mouse_position.y), (320, 199));
            assert_eq!(input.key_pressed, Some(40));
            assert_eq!(input.mouse_button_pressed, None);
        }
        InputProcessorResult::Quit => panic!("nothing asked for the end"),
    }
}

#[test]
fn test_quit_ends_the_frame() {
    let mut processor = InputProcessor::new();
    let events = [
        FrameEvent::MouseMotion { x: 8, y: 6 },
        FrameEvent::Quit,
        FrameEvent::MouseMotion { x: 80, y: 60 },
    ];
    assert!(matches!(processor.process_frame_events(&events), InputProcessorResult::Quit));
    // The motion before the request was seen, the one after it was not.
    match processor.process_frame_events(&[]) {
        InputProcessorResult::Input(input) => {
            assert_eq!((input.mouse_position.x, input.mouse_position.y), (4, 3));
        }
        InputProcessorResult::Quit => panic!("nothing asked for the end"),
    }
}

#[test]
fn test_frame_state_without_events() {
    let state = frame_state(MousePosition::new(5, 6), &[]);
    assert_eq!(
        state,
        FrameState {
            running: true,
            button_pressed: false,
            mouse_position: MousePosition::new(5, 6),
        }
    );
}

#[test]
fn test_frame_state_takes_every_event() {
    let events = [
        FrameEvent::MouseMotion { x: 8, y: 6 },
        FrameEvent::Quit,
        FrameEvent::MouseButtonDown { button: 1 },
        FrameEvent::MouseMotion { x: 81, y: 61 },
        FrameEvent::KeyDown { scancode: None },
        FrameEvent::Other,
    ];
    let state = frame_state(MousePosition::new(0, 0), &events);
    assert_eq!(
        state,
        FrameState {
            running: false,
            button_pressed: true,
            mouse_position: MousePosition::new(40, 30),
        }
    );
}

#[test]
fn test_frame_state_of_mouse_buttons_alone() {
    let events = [FrameEvent::MouseButtonDown { button: 1 }, FrameEvent::Other];
    let state = frame_state(MousePosition::new(7, 7), &events);
    assert!(state.running);
    assert!(!state.button_pressed);
    assert_eq!(state.mouse_position, MousePosition::new(7, 7));
}
