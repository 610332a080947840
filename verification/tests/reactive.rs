use nkdhr_ui::reactive::{Reactive, RootReactivity};
use nkdhr_ui::tree::{Arena, Invalidation, WidgetId};

fn widgets(count: u8) -> Vec<WidgetId> {
    let mut arena: Arena<u8> = Arena::new();
    (0..count).map(|n| arena.allocate(n).unwrap()).collect()
}

#[test]
fn root_tracks_mounted_widgets_and_drains_in_order() {
    let ids = widgets(2);
    let mut root = RootReactivity::new(0);
    assert_eq!(root.id(), 1);
    root.insert(ids[0]);
    root.insert(ids[0]);
    assert!(root.is_alive(ids[0]));
    assert!(!root.is_alive(ids[1]));
    root.enqueue(ids[0], Invalidation::paint());
    root.enqueue(ids[1], Invalidation::layout());
    assert_eq!(root.drain(), vec![(ids[0], Invalidation::paint()), (ids[1], Invalidation::layout())]);
    assert!(root.drain().is_empty());
    root.remove(ids[0]);
    assert!(!root.is_alive(ids[0]));
}

#[test]
fn writes_queue_invalidation_only_for_mounted_watchers() {
    let ids = widgets(3);
    let mut roots = vec![RootReactivity::new(7)];
    roots[0].insert(ids[0]);
    roots[0].insert(ids[1]);
    let mut value = Reactive::new(1u32);
    value.watch(7, ids[0], Invalidation::paint());
    value.watch(7, ids[0], Invalidation::semantics());
    value.watch(7, ids[2], Invalidation::layout());
    value.watch(9, ids[1], Invalidation::paint());
    value.set(2, &mut roots);
    assert_eq!(value.get(), 2);
    let queued = roots[0].drain();
    assert_eq!(queued, vec![(ids[0], Invalidation::paint() | Invalidation::semantics())]);
    value.update(|current| current + 40, &mut roots);
    assert_eq!(value.get(), 42);
    assert_eq!(roots[0].drain().len(), 1);
}

#[test]
fn set_if_changed_skips_equal_values() {
    let ids = widgets(1);
    let mut roots = vec![RootReactivity::new(3)];
    roots[0].insert(ids[0]);
    let mut value = Reactive::new(String::from("a"));
    value.watch(3, ids[0], Invalidation::paint());
    assert!(!value.set_if_changed(String::from("a"), &mut roots));
    assert!(roots[0].drain().is_empty());
    assert!(value.set_if_changed(String::from("b"), &mut roots));
    assert_eq!(roots[0].drain(), vec![(ids[0], Invalidation::paint())]);
    value.unsubscribe(3, ids[0]);
    value.set(String::from("c"), &mut roots);
    assert!(roots[0].drain().is_empty());
}
