use std::time::Duration;

use nkdhr_ui::animation::{ManualClock, Timeline};
use nkdhr_ui::tree::UiError;

#[test]
fn manual_clock_makes_timeline_sampling_deterministic() {
    let mut clock = ManualClock::new();
    let timeline = Timeline::new(clock.current(), Duration::from_millis(200)).unwrap();
    clock.advance(Duration::from_millis(50));
    assert!(!timeline.is_finished(clock.current()));
    clock.advance(Duration::from_millis(150));
    assert!(timeline.is_finished(clock.current()));
    assert_eq!(timeline.started(), Duration::ZERO);
    assert_eq!(timeline.duration(), Duration::from_millis(200));
}

#[test]
fn zero_length_timelines_are_rejected() {
    assert!(matches!(
        Timeline::new(Duration::from_secs(1), Duration::ZERO),
        Err(UiError::InvalidAnimationDuration)
    ));
}

#[test]
fn manual_clock_saturates_and_can_be_set() {
    let mut clock = ManualClock::new();
    clock.set(Duration::MAX);
    clock.advance(Duration::from_millis(1));
    assert_eq!(clock.current(), Duration::MAX);
    clock.set(Duration::from_millis(5));
    assert_eq!(clock.current(), Duration::from_millis(5));
    let timeline = Timeline::new(Duration::from_millis(10), Duration::from_millis(1)).unwrap();
    assert!(!timeline.is_finished(Duration::from_millis(5)));
}
