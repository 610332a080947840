use std::time::Duration;

use nkdhr_ui::motion_consumers::MotionCurveEditorError;
use nkdhr_ui::motion_editor::{
    key_command, next_cycle_index, validate_duration, AnchorSelection, EditHistory, KeyCommand,
    MotionEditorEditId, MotionEditorKey, MotionEditorModifiers, TransactionSlot,
};

#[test]
fn history_is_bounded_and_one_transaction_produces_one_undo_step() {
    assert!(matches!(EditHistory::<u32>::new(0), Err(MotionCurveEditorError::InvalidConfig)));
    assert!(EditHistory::<u32>::new(513).is_err());
    let mut history = EditHistory::new(2).unwrap();
    history.record(1);
    history.record(2);
    history.record(3);
    let (state, changed) = history.undo(4);
    assert_eq!((state, changed), (3, true));
    let (state, changed) = history.undo(state);
    assert_eq!((state, changed), (2, true));
    let (state, changed) = history.undo(state);
    assert_eq!((state, changed), (2, false));
    let (state, changed) = history.redo(state);
    assert_eq!((state, changed), (3, true));
    let (state, changed) = history.redo(state);
    assert_eq!((state, changed), (4, true));
    assert!(!history.can_redo());
    history.record(state);
    assert!(history.can_undo());
    history.clear();
    assert!(!history.can_undo());
}

#[test]
fn transactions_reject_wrong_ids_without_closing() {
    let mut slot = TransactionSlot::new();
    assert!(matches!(slot.take(MotionEditorEditId(1)), Err(MotionCurveEditorError::NoInteraction)));
    slot.begin(MotionEditorEditId(1), "start").unwrap();
    assert!(matches!(slot.begin(MotionEditorEditId(2), "other"), Err(MotionCurveEditorError::InteractionBusy)));
    assert!(matches!(slot.take(MotionEditorEditId(2)), Err(MotionCurveEditorError::WrongInteraction)));
    assert!(slot.is_active());
    assert_eq!(slot.take(MotionEditorEditId(1)).unwrap(), "start");
    assert!(!slot.is_active());
}

#[test]
fn selection_keeps_a_primary_anchor_and_skips_endpoints() {
    let mut selection = AnchorSelection::new();
    assert!(selection.select_all_editable(5));
    assert_eq!(selection.primary(), Some(3));
    assert!(!selection.contains(0) && selection.contains(1) && !selection.contains(4));
    assert!(!selection.select_all_editable(5));
    assert_eq!(selection.select(2, false, true, 5).unwrap(), true);
    assert!(!selection.contains(2));
    assert_eq!(selection.primary(), Some(3));
    assert_eq!(selection.select(3, false, true, 5).unwrap(), true);
    assert_eq!(selection.primary(), Some(1));
    assert!(matches!(selection.select(9, false, false, 5), Err(MotionCurveEditorError::MissingAnchor(9))));
    assert_eq!(selection.select(4, true, false, 5).unwrap(), true);
    assert_eq!(selection.primary(), Some(4));
    selection.reconcile(3);
    assert!(!selection.contains(4));
    assert_eq!(selection.primary(), Some(1));
    assert!(selection.clear());
    assert_eq!(selection.primary(), None);
    assert!(!selection.clear());
}

#[test]
fn tab_cycles_through_anchors_with_wrapping() {
    assert_eq!(next_cycle_index(None, 4, false), 0);
    assert_eq!(next_cycle_index(None, 4, true), 3);
    assert_eq!(next_cycle_index(Some(3), 4, false), 0);
    assert_eq!(next_cycle_index(Some(0), 4, true), 3);
    assert_eq!(next_cycle_index(Some(2), 4, true), 1);
}

#[test]
fn keyboard_uses_standard_vim_directions_and_clipboard_protocol() {
    let none = MotionEditorModifiers::default();
    let shift = MotionEditorModifiers { shift: true, ..none };
    let control = MotionEditorModifiers { control: true, ..none };
    assert_eq!(
        key_command(MotionEditorKey::Character('h'), none, false),
        KeyCommand::Nudge { time: -1, progress: 0, coarse: false }
    );
    assert_eq!(
        key_command(MotionEditorKey::Character('K'), shift, false),
        KeyCommand::Nudge { time: 0, progress: 1, coarse: true }
    );
    assert_eq!(
        key_command(MotionEditorKey::ArrowDown, none, false),
        KeyCommand::Nudge { time: 0, progress: -1, coarse: false }
    );
    assert_eq!(key_command(MotionEditorKey::Character('c'), control, false), KeyCommand::Copy);
    assert_eq!(key_command(MotionEditorKey::Character('Z'), MotionEditorModifiers { shift: true, ..control }, false), KeyCommand::Redo);
    assert_eq!(key_command(MotionEditorKey::Character('z'), control, false), KeyCommand::Undo);
    assert_eq!(key_command(MotionEditorKey::Escape, none, true), KeyCommand::CancelActive);
    assert_eq!(key_command(MotionEditorKey::Escape, none, false), KeyCommand::ClearSelection);
    assert_eq!(key_command(MotionEditorKey::Space, none, true), KeyCommand::Busy);
    assert_eq!(key_command(MotionEditorKey::Tab, shift, false), KeyCommand::CycleSelection { backwards: true });
    assert_eq!(key_command(MotionEditorKey::Enter, none, false), KeyCommand::Ignore);
}

#[test]
fn durations_must_be_positive_and_at_most_a_minute() {
    assert!(validate_duration(Duration::from_millis(400)).is_ok());
    assert!(validate_duration(Duration::from_secs(60)).is_ok());
    assert!(matches!(validate_duration(Duration::ZERO), Err(MotionCurveEditorError::InvalidDuration)));
    assert!(validate_duration(Duration::from_millis(60_001)).is_err());
}
