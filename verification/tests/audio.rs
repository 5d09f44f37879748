use openpol::audio::{RodioSource, Sound, CHANNELS, SAMPLE_RATE};
use std::sync::Arc;

#[test]
fn test_source_widens_the_samples() {
    let sound = Sound::new(vec![0, 1, 128, 255]);
    let mut source = sound.as_source();
    assert_eq!(source.current_frame_len(), Some(4));
    assert_eq!(source.next(), Some(0));
    assert_eq!(source.next(), Some(256));
    assert_eq!(source.current_frame_len(), Some(2));
    assert_eq!(source.next(), Some(32_768));
    assert_eq!(source.next(), Some(65_280));
    assert_eq!(source.next(), None);
    assert_eq!(source.next(), None);
    assert_eq!(source.current_frame_len(), Some(0));
}

#[test]
fn test_sources_of_one_sound_play_apart() {
    let sound = Sound::new(vec![1, 2, 3]);
    let mut first = sound.as_source();
    assert_eq!(first.next(), Some(256));
    assert_eq!(first.next(), Some(512));
    let mut second = sound.as_source();
    assert_eq!(second.next(), Some(256));
    assert_eq!(first.next(), Some(768));
    assert_eq!(first.next(), None);
    assert_eq!(second.next(), Some(512));
}

#[test]
fn test_source_of_shared_samples() {
    let samples = Arc::new(vec![9]);
    let mut source = RodioSource::new(samples.clone());
    assert_eq!(source.next(), Some(9 * 256));
    assert_eq!(source.next(), None);
    assert_eq!(*samples, vec![9]);
}

#[test]
fn test_source_format() {
    let source = Sound::new(Vec::new()).as_source();
    assert_eq!(source.channels(), 1);
    assert_eq!(source.sample_rate(), 22_050);
    assert_eq!(CHANNELS, 1);
    assert_eq!(SAMPLE_RATE, 22_050);
    assert_eq!(source.current_frame_len(), Some(0));
}
