use openpol::intro::{load_sound, Intro, IntroStep};

#[test]
fn test_intro_shows_three_videos() {
    let mut intro = Intro::new();
    assert_eq!(intro.current_intro(), 0);
    assert_eq!(intro.begin_update(false), IntroStep::OpenVideo(0));
    assert_eq!(intro.begin_update(false), IntroStep::Play);
    assert_eq!(intro.begin_update(true), IntroStep::OpenVideo(1));
    assert_eq!(intro.begin_update(false), IntroStep::Play);
    assert_eq!(intro.begin_update(true), IntroStep::OpenVideo(2));
    assert_eq!(intro.begin_update(true), IntroStep::MainMenu);
    assert_eq!(intro.current_intro(), 3);
    assert_eq!(intro.begin_update(false), IntroStep::MainMenu);
}

#[test]
fn test_intro_frames_are_due_when_their_time_has_come() {
    let mut intro = Intro::new();
    assert_eq!(intro.begin_update(false), IntroStep::OpenVideo(0));
    assert!(!intro.add_ticks(30, 70));
    assert!(!intro.add_ticks(39, 70));
    assert!(intro.add_ticks(1, 70));
    assert_eq!(intro.since_last_render(), 70);
    assert!(!intro.frame_read(false, 70));
    assert_eq!(intro.since_last_render(), 0);
    // Three frames have become due at once.
    assert!(intro.add_ticks(215, 70));
    assert!(intro.frame_read(false, 70));
    assert!(intro.frame_read(false, 70));
    assert!(!intro.frame_read(false, 70));
    assert_eq!(intro.since_last_render(), 5);
    assert_eq!(intro.current_intro(), 0);
}

#[test]
fn test_intro_goes_on_when_a_video_ends() {
    let mut intro = Intro::new();
    assert_eq!(intro.begin_update(false), IntroStep::OpenVideo(0));
    assert!(intro.add_ticks(200, 70));
    assert!(!intro.frame_read(true, 70));
    assert_eq!(intro.current_intro(), 1);
    assert_eq!(intro.since_last_render(), 0);
    assert_eq!(intro.begin_update(false), IntroStep::OpenVideo(1));
}

#[test]
fn test_intro_next_works() {
    let mut intro = Intro::new();
    intro.begin_update(false);
    intro.add_ticks(12, 70);
    intro.next();
    assert_eq!(intro.current_intro(), 1);
    assert_eq!(intro.since_last_render(), 0);
    assert_eq!(intro.begin_update(false), IntroStep::OpenVideo(1));
}

#[test]
fn test_load_sound_works() {
    assert_eq!(load_sound(&[3, 0, 0, 0, 7, 8, 9]), Some(vec![7, 8, 9]));
    assert_eq!(load_sound(&[0, 0, 0, 0]), Some(Vec::new()));
    let mut long = vec![0, 1, 0, 0];
    long.resize(4 + 256, 5);
    assert_eq!(load_sound(&long), Some(vec![5; 256]));
}

#[test]
fn test_sound_of_another_size_is_an_error() {
    assert_eq!(load_sound(&[]), None);
    assert_eq!(load_sound(&[0, 0, 0]), None);
    assert_eq!(load_sound(&[3, 0, 0, 0, 7, 8]), None);
    assert_eq!(load_sound(&[3, 0, 0, 0, 7, 8, 9, 10]), None);
    assert_eq!(load_sound(&[3, 0, 0, 1, 7, 8, 9]), None);
}
