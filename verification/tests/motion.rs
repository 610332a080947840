use std::time::Duration;

use nkdhr_ui::motion::{
    feature_allowed, motion_policy, reduced_transition_duration, MotionDurations, MotionError,
    MotionFamily, MotionFeature, MotionMode, MotionPolicySource, MotionPropertyDomain,
    MotionTiming, RunIdAllocator,
};
use nkdhr_ui::motion_consumers::{
    MotionCurveConsumer, MotionCurveConsumerDomain, MotionCurveConsumerSet, MotionCurveEditorError,
};

#[test]
fn default_durations_are_the_approved_table_and_valid() {
    let durations = MotionDurations::default();
    assert_eq!(durations.reduced_transition, Duration::from_millis(100));
    assert_eq!(durations.get(MotionFamily::Press), Duration::from_millis(70));
    assert_eq!(durations.get(MotionFamily::Wallpaper), Duration::from_millis(800));
    assert_eq!(durations.get(MotionFamily::TooltipExit), Duration::from_millis(110));
    assert!(durations.is_valid());
}

#[test]
fn a_duration_over_one_minute_invalidates_the_table() {
    let mut durations = MotionDurations::default();
    durations.overscroll = Duration::from_secs(60);
    assert!(durations.is_valid());
    durations.overscroll = Duration::from_millis(60_001);
    assert!(!durations.is_valid());
    let mut reduced = MotionDurations::default();
    reduced.reduced_transition = Duration::from_secs(61);
    assert!(!reduced.is_valid());
}

#[test]
fn accessibility_modes_remove_spatial_motion_authority() {
    assert_eq!(
        motion_policy(MotionMode::Off, MotionPropertyDomain::NonSpatial),
        (MotionTiming::Immediate, MotionPolicySource::OffPolicy)
    );
    assert_eq!(
        motion_policy(MotionMode::Reduced, MotionPropertyDomain::Spatial),
        (MotionTiming::Immediate, MotionPolicySource::ReducedPolicy)
    );
    assert_eq!(
        motion_policy(MotionMode::Reduced, MotionPropertyDomain::NonSpatial),
        (MotionTiming::Reduced, MotionPolicySource::ReducedPolicy)
    );
    assert_eq!(
        motion_policy(MotionMode::Expressive, MotionPropertyDomain::Spatial),
        (MotionTiming::Authored, MotionPolicySource::AuthoredStyle)
    );
    assert!(feature_allowed(MotionMode::Off, MotionFeature::DirectManipulation));
    assert!(!feature_allowed(MotionMode::Reduced, MotionFeature::Trail));
    assert!(feature_allowed(MotionMode::Standard, MotionFeature::IdleFluid));
}

#[test]
fn reduced_transition_is_capped_at_one_hundred_milliseconds() {
    assert_eq!(reduced_transition_duration(40), Duration::from_millis(40));
    assert_eq!(reduced_transition_duration(400), Duration::from_millis(100));
}

#[test]
fn run_ids_are_never_zero_and_wrap_to_one() {
    let mut ids = RunIdAllocator::new();
    assert_eq!(ids.allocate().get(), 1);
    assert_eq!(ids.allocate().get(), 2);
    assert_eq!(MotionError::InvalidCurve.message(), "motion curve must be finite with x coordinates in 0..=1");
}

#[test]
fn consumer_ids_use_lowercase_identifier_characters() {
    assert!(MotionCurveConsumer::new("panel.offset_x-2", MotionCurveConsumerDomain::Spatial).is_ok());
    for bad in ["", "Panel", "a b", "é"] {
        assert!(matches!(
            MotionCurveConsumer::new(bad, MotionCurveConsumerDomain::Opacity),
            Err(MotionCurveEditorError::InvalidConsumerId)
        ));
    }
    assert!(MotionCurveConsumer::new(&"a".repeat(128), MotionCurveConsumerDomain::Color).is_ok());
    assert!(MotionCurveConsumer::new(&"a".repeat(129), MotionCurveConsumerDomain::Color).is_err());
}

#[test]
fn consumer_sets_sort_by_id_and_intersect_capabilities() {
    let make = |id: &str, domain| MotionCurveConsumer::new(id, domain).unwrap();
    let set = MotionCurveConsumerSet::new(vec![
        make("shape", MotionCurveConsumerDomain::Shape),
        make("position", MotionCurveConsumerDomain::Spatial),
    ])
    .unwrap();
    let ids: Vec<&str> = set.consumers().iter().map(|consumer| consumer.id()).collect();
    assert_eq!(ids, vec!["position", "shape"]);
    assert!(set.allows_overshoot() && set.allows_reverse());

    let mixed = MotionCurveConsumerSet::new(vec![
        make("position", MotionCurveConsumerDomain::Spatial),
        make("fade", MotionCurveConsumerDomain::Opacity),
    ])
    .unwrap();
    assert!(!mixed.allows_overshoot() && !mixed.allows_reverse());
    assert_eq!(mixed.consumers()[0].domain(), MotionCurveConsumerDomain::Opacity);

    let duplicate = MotionCurveConsumerSet::new(vec![
        make("same", MotionCurveConsumerDomain::Spatial),
        make("same", MotionCurveConsumerDomain::Shape),
    ]);
    assert!(matches!(duplicate, Err(MotionCurveEditorError::DuplicateConsumer)));

    let conservative = MotionCurveConsumerSet::conservative();
    assert!(conservative.consumers().is_empty() && !conservative.allows_overshoot());
    let empty = MotionCurveConsumerSet::new(Vec::new()).unwrap();
    assert!(!empty.allows_overshoot() && !empty.allows_reverse());
}

#[test]
fn too_many_consumers_are_rejected() {
    let consumers: Vec<MotionCurveConsumer> = (0..257)
        .map(|n| MotionCurveConsumer::new(&format!("c{n}"), MotionCurveConsumerDomain::Spatial).unwrap())
        .collect();
    assert!(matches!(
        MotionCurveConsumerSet::new(consumers),
        Err(MotionCurveEditorError::TooManyConsumers)
    ));
}
