use nkdhr_ui::tree::{check_sibling_keys, next_focus, Arena, Invalidation, UiError, WidgetId, WidgetKey};

#[test]
fn invalidation_union_brings_paint_with_layout() {
    let union = Invalidation::none() | Invalidation::layout();
    assert!(union.contains(Invalidation::layout()));
    assert!(union.contains(Invalidation::paint()));
    assert!(!union.contains(Invalidation::semantics()));
    assert!(Invalidation::none().is_empty());
    assert!(!Invalidation::semantics().is_empty());
}

#[test]
fn invalidation_union_keeps_both_sides() {
    let union = Invalidation::paint().union(Invalidation::semantics());
    assert!(union.contains(Invalidation::paint()));
    assert!(union.contains(Invalidation::semantics()));
    assert!(!union.contains(Invalidation::layout()));
    assert!(Invalidation::all().contains(union));
}

#[test]
fn invalidation_remove_clears_only_the_given_passes() {
    let mut mask = Invalidation::all();
    mask.remove(Invalidation::layout());
    assert!(!mask.contains(Invalidation::layout()));
    assert!(mask.contains(Invalidation::paint()));
    assert!(mask.contains(Invalidation::semantics()));
    assert_eq!(Invalidation::layout().expanded(), Invalidation::layout() | Invalidation::paint());
}

fn live(arena: &Arena<&'static str>, id: WidgetId) -> Option<&'static str> {
    arena.get(id).copied()
}

#[test]
fn released_ids_never_reach_the_next_widget_in_their_slot() {
    let mut arena: Arena<&'static str> = Arena::new();
    let first = arena.allocate("first").unwrap();
    assert_eq!((first.index(), first.generation()), (0, 1));
    assert_eq!(live(&arena, first), Some("first"));
    assert_eq!(arena.take(first).unwrap(), "first");
    arena.release(first);
    assert_eq!(live(&arena, first), None);
    let second = arena.allocate("second").unwrap();
    assert_eq!(second.index(), first.index());
    assert_eq!(second.generation(), 2);
    assert_eq!(live(&arena, first), None);
    assert_eq!(live(&arena, second), Some("second"));
}

#[test]
fn taking_a_missing_widget_is_an_error_and_restore_puts_it_back() {
    let mut arena: Arena<u32> = Arena::new();
    let id = arena.allocate(7).unwrap();
    let node = arena.take(id).unwrap();
    assert!(matches!(arena.take(id), Err(UiError::MissingWidget(missing)) if missing == id));
    arena.restore(id, node + 1);
    assert_eq!(arena.get(id), Some(&8));
    let other = arena.allocate(9).unwrap();
    assert_eq!(other.index(), 1);
    assert_eq!(arena.get(other), Some(&9));
}

#[test]
fn focus_cycles_forward_and_backward_with_wrapping() {
    let mut arena: Arena<u8> = Arena::new();
    let order: Vec<WidgetId> = (0..3).map(|n| arena.allocate(n).unwrap()).collect();
    assert_eq!(next_focus(&order, None, false), Some(order[0]));
    assert_eq!(next_focus(&order, None, true), Some(order[2]));
    assert_eq!(next_focus(&order, Some(order[0]), false), Some(order[1]));
    assert_eq!(next_focus(&order, Some(order[2]), false), Some(order[0]));
    assert_eq!(next_focus(&order, Some(order[0]), true), Some(order[2]));
    assert_eq!(next_focus(&order, Some(order[2]), true), Some(order[1]));
    assert_eq!(next_focus(&Vec::new(), Some(order[1]), false), None);
}

#[test]
fn duplicate_sibling_keys_report_the_first_repeat() {
    assert!(check_sibling_keys(&[Some(WidgetKey(1)), None, Some(WidgetKey(2)), None]).is_ok());
    let result = check_sibling_keys(&[Some(WidgetKey(4)), Some(WidgetKey(5)), Some(WidgetKey(5)), Some(WidgetKey(4))]);
    assert!(matches!(result, Err(UiError::DuplicateKey(key)) if key == WidgetKey(5)));
    assert_eq!(WidgetKey::from(3), WidgetKey(3));
}

#[test]
fn the_full_mask_contains_every_mask() {
    let masks = [
        Invalidation::none(),
        Invalidation::layout(),
        Invalidation::paint(),
        Invalidation::semantics(),
        Invalidation::all(),
        Invalidation::layout().union(Invalidation::semantics()),
    ];
    for mask in masks {
        assert!(Invalidation::all().contains(mask));
        assert!(mask.contains(Invalidation::none()));
        assert!(mask.contains(mask));
        assert!(mask.bit_mask() < 8);
    }
    assert!(!Invalidation::layout().contains(Invalidation::paint()));
}
