use nkdhr_ui::host::HostPasses;
use nkdhr_ui::tree::Invalidation;

#[test]
fn host_reuses_complete_frames_and_resizes_at_one_boundary() {
    let mut passes = HostPasses::new();
    assert!(passes.needs_layout(Invalidation::none()));
    passes.laid_out();
    assert!(passes.needs_paint(Invalidation::none()));
    passes.painted();
    assert_eq!(passes.commit, 1);
    assert!(!passes.needs_layout(Invalidation::none()));
    assert!(!passes.needs_paint(Invalidation::none()));
    assert!(passes.needs_paint(Invalidation::paint()));
    assert!(passes.needs_layout(Invalidation::layout()));
    passes.invalidate_all();
    assert!(passes.needs_layout(Invalidation::none()));
    assert_eq!(passes.commit, 1);
}

#[test]
fn commit_numbers_wrap_past_the_largest_to_one() {
    let mut passes = HostPasses { layout_pending: false, paint_pending: true, commit: u64::MAX };
    passes.painted();
    assert_eq!(passes.commit, 1);
    assert!(!passes.paint_pending);
}
