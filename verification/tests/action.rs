use std::sync::{Arc, Mutex};

use nkdhr_ui::action::binding::{
    compile_bindings, BindingAvailability, BindingDocument, BindingEntry, CompiledBinding,
};
use nkdhr_ui::action::catalog::{ActionEnvironment, ActionInvocation, ValidatedActionInvocation};
use nkdhr_ui::action::default_bindings::default_compositor_bindings;
use nkdhr_ui::action::defaults::built_in_compositor_catalog;
use nkdhr_ui::action::diagnostic::BindingDiagnosticCode;
use nkdhr_ui::action::dispatch::{
    feedback_of, ActionAdapter, ActionDispatcher, ActionFeedbackKind, ActionPhase, ActionRegistry,
    DispatchError, TerminalReason,
};
use nkdhr_ui::action::values::ActionId;
use nkdhr_ui::action::runtime::BindingRuntime;
use nkdhr_ui::action::trigger::{
    BindingContext, CompiledTrigger, DeviceClass, GestureActivation, GestureKind, GestureOrigin,
    KeyPhase, Modifier, ModifierSet, RuntimeTrigger, Trigger,
};
use nkdhr_ui::action::values::ActionValue;

fn full_environment() -> ActionEnvironment {
    ActionEnvironment::new()
        .with_device(DeviceClass::Keyboard)
        .with_device(DeviceClass::Mouse)
        .with_device(DeviceClass::Touchpad)
        .with_capability("tty-vt")
}

fn key_binding(
    id: &str,
    context: BindingContext,
    key: &str,
    modifiers: &[Modifier],
    action: &str,
    argument: Option<(&str, ActionValue)>,
) -> BindingEntry {
    let mut invocation = ActionInvocation::new(action);
    if let Some((name, value)) = argument {
        invocation = invocation.with_argument(name, value);
    }
    BindingEntry {
        id: id.to_owned(),
        context,
        trigger: Trigger::Key {
            key: key.to_owned(),
            modifiers: modifiers.to_vec(),
            phase: KeyPhase::Press,
        },
        invocation,
    }
}

fn find_binding<'a>(bindings: &'a [CompiledBinding], id: &str) -> &'a CompiledBinding {
    bindings.iter().find(|binding| binding.id == id).unwrap()
}

#[test]
fn defaults_compile_and_normalize_modifier_and_key_order() {
    let runtime = BindingRuntime::new(
        built_in_compositor_catalog(),
        full_environment(),
        default_compositor_bindings("Escape", "Tab", "o"),
    )
    .unwrap();
    let snapshot = runtime.snapshot();
    assert!(snapshot.diagnostics().is_empty());
    let binding = find_binding(snapshot.bindings(), "window-move-left");
    assert!(matches!(
        &binding.trigger,
        CompiledTrigger::Key { key, modifiers, .. }
            if key == "left"
                && modifiers.ordered() == vec![Modifier::Shift, Modifier::Logo]
    ));
    let workspace = find_binding(snapshot.bindings(), "workspace-switch-10");
    assert!(matches!(
        &workspace.trigger,
        CompiledTrigger::Key { key, modifiers, .. }
            if key == "0" && modifiers.ordered() == vec![Modifier::Logo]
    ));
    assert_eq!(workspace.invocation.integer("workspace"), Some(10));
    let mark = find_binding(snapshot.bindings(), "mark-jump-1");
    assert!(matches!(
        &mark.trigger,
        CompiledTrigger::Key { modifiers, .. }
            if modifiers.ordered() == vec![Modifier::Alt, Modifier::Logo]
    ));
}

#[test]
fn conflicting_contexts_reject_without_replacing_last_good() {
    let initial = default_compositor_bindings("Escape", "Tab", "o");
    let mut runtime =
        BindingRuntime::new(built_in_compositor_catalog(), full_environment(), initial.clone())
            .unwrap();
    let generation = runtime.snapshot().generation();
    let mut invalid = initial;
    invalid.bindings.push(key_binding(
        "duplicate-close",
        BindingContext::Global,
        "Escape",
        &[Modifier::Logo],
        "canvas.overview.toggle",
        None,
    ));
    let publication = runtime.publish(invalid);
    assert!(!publication.accepted);
    assert_eq!(publication.effective.generation(), generation);
    assert!(publication
        .diagnostics
        .iter()
        .any(|diagnostic| diagnostic.code == BindingDiagnosticCode::Conflict));
}

#[test]
fn invalid_arguments_and_unknown_actions_are_structured_errors() {
    let catalog = built_in_compositor_catalog();
    let mut document = BindingDocument::new(vec![key_binding(
        "bad-mark",
        BindingContext::Canvas,
        "1",
        &[Modifier::Logo],
        "canvas.mark.jump",
        Some(("index", ActionValue::Integer(99))),
    )]);
    document.bindings.push(key_binding(
        "unknown",
        BindingContext::Canvas,
        "x",
        &[Modifier::Logo],
        "canvas.unknown",
        None,
    ));
    let diagnostics = compile_bindings(&catalog, &full_environment(), &document).unwrap_err();
    assert!(diagnostics
        .iter()
        .any(|diagnostic| diagnostic.code == BindingDiagnosticCode::InvalidArgument));
    assert!(diagnostics
        .iter()
        .any(|diagnostic| diagnostic.code == BindingDiagnosticCode::UnknownAction));
}

#[test]
fn client_two_finger_and_non_edge_touch_bindings_are_rejected() {
    let catalog = built_in_compositor_catalog();
    for (id, device, origin) in [
        ("client-scroll", DeviceClass::Touchpad, GestureOrigin::Anywhere),
        ("client-touch", DeviceClass::Touchscreen, GestureOrigin::Window),
    ] {
        let document = BindingDocument::new(vec![BindingEntry {
            id: id.to_owned(),
            context: BindingContext::Canvas,
            trigger: Trigger::Gesture {
                gesture: GestureKind::Swipe,
                device,
                fingers: 2,
                origin,
                direction: None,
                activation: GestureActivation::Begin,
            },
            invocation: ActionInvocation::new("canvas.viewport.pan"),
        }]);
        let diagnostics = compile_bindings(&catalog, &full_environment(), &document).unwrap_err();
        assert!(diagnostics.iter().any(|diagnostic| {
            diagnostic.code == BindingDiagnosticCode::ReservedClientGesture
        }));
    }
}

#[test]
fn unsupported_devices_remain_visible_but_not_effective() {
    let environment = ActionEnvironment::new()
        .with_device(DeviceClass::Keyboard)
        .with_device(DeviceClass::Mouse);
    let runtime = BindingRuntime::new(
        built_in_compositor_catalog(),
        environment,
        default_compositor_bindings("Escape", "Tab", "o"),
    )
    .unwrap();
    let snapshot = runtime.snapshot();
    assert_eq!(
        snapshot
            .bindings()
            .iter()
            .filter(|binding| binding.availability == BindingAvailability::UnsupportedDevice)
            .count(),
        2
    );
    assert_eq!(
        snapshot
            .diagnostics()
            .iter()
            .filter(|diagnostic| diagnostic.code == BindingDiagnosticCode::UnsupportedDevice)
            .count(),
        2
    );
}

#[test]
fn remapping_a_phase_two_shortcut_requires_only_a_new_document() {
    let mut document = default_compositor_bindings("Escape", "Tab", "o");
    let close = document
        .bindings
        .iter_mut()
        .find(|binding| binding.id == "window-close")
        .unwrap();
    close.trigger = Trigger::Key {
        key: "w".to_owned(),
        modifiers: vec![Modifier::Control, Modifier::Logo],
        phase: KeyPhase::Press,
    };
    let runtime =
        BindingRuntime::new(built_in_compositor_catalog(), full_environment(), document).unwrap();
    let snapshot = runtime.snapshot();
    assert!(snapshot
        .find(
            BindingContext::Window,
            &RuntimeTrigger::key(
                "w",
                ModifierSet::new(&[Modifier::Logo, Modifier::Control]),
                KeyPhase::Press,
            ),
        )
        .is_some_and(|binding| binding.invocation.action.as_str() == "canvas.window.close"));
    assert!(snapshot
        .find(
            BindingContext::Window,
            &RuntimeTrigger::key("Escape", ModifierSet::new(&[Modifier::Logo]), KeyPhase::Press),
        )
        .is_none());
}

#[test]
fn malformed_json_preserves_the_exact_effective_generation() {
    let mut runtime = BindingRuntime::new(
        built_in_compositor_catalog(),
        full_environment(),
        default_compositor_bindings("Escape", "Tab", "o"),
    )
    .unwrap();
    let before = runtime.snapshot();
    let source = "{ not-json";
    let decoded = serde_json::from_str::<serde_json::Value>(source)
        .map(|_| BindingDocument::new(Vec::new()))
        .map_err(|error| error.to_string());
    let publication = runtime.publish_decoded(source.len(), decoded);
    assert!(!publication.accepted);
    assert_eq!(publication.effective.generation(), before.generation());
    assert_eq!(publication.effective.bindings(), before.bindings());
    assert_eq!(publication.diagnostics[0].code, BindingDiagnosticCode::InvalidDocument);
}

#[test]
fn gesture_conflicts_compare_device_fingers_origin_and_context() {
    let catalog = built_in_compositor_catalog();
    let gesture = |id: &str,
                   context: BindingContext,
                   device: DeviceClass,
                   fingers: u8,
                   origin: GestureOrigin| BindingEntry {
        id: id.to_owned(),
        context,
        trigger: Trigger::Gesture {
            gesture: GestureKind::Swipe,
            device,
            fingers,
            origin,
            direction: None,
            activation: GestureActivation::Begin,
        },
        invocation: ActionInvocation::new("canvas.viewport.pan"),
    };
    let non_conflicting = BindingDocument::new(vec![
        gesture(
            "empty-three",
            BindingContext::EmptyCanvas,
            DeviceClass::Touchpad,
            3,
            GestureOrigin::EmptyCanvas,
        ),
        gesture("window-three", BindingContext::Window, DeviceClass::Touchpad, 3, GestureOrigin::Window),
        gesture(
            "empty-four",
            BindingContext::EmptyCanvas,
            DeviceClass::Touchpad,
            4,
            GestureOrigin::EmptyCanvas,
        ),
        gesture(
            "touchscreen-three",
            BindingContext::EmptyCanvas,
            DeviceClass::Touchscreen,
            3,
            GestureOrigin::EmptyCanvas,
        ),
    ]);
    let environment = full_environment().with_device(DeviceClass::Touchscreen);
    assert!(compile_bindings(&catalog, &environment, &non_conflicting).is_ok());

    let conflicting = BindingDocument::new(vec![
        gesture("global-three", BindingContext::Canvas, DeviceClass::Touchpad, 3, GestureOrigin::Anywhere),
        gesture("window-three", BindingContext::Window, DeviceClass::Touchpad, 3, GestureOrigin::Window),
    ]);
    let diagnostics = compile_bindings(&catalog, &environment, &conflicting).unwrap_err();
    assert!(diagnostics
        .iter()
        .any(|diagnostic| diagnostic.code == BindingDiagnosticCode::Conflict));
}

#[derive(Default)]
struct DispatchProbe {
    phases: Mutex<Vec<&'static str>>,
}

struct RecordPhases;

impl ActionAdapter<DispatchProbe, ()> for RecordPhases {
    fn call(
        &self,
        probe: &mut DispatchProbe,
        _invocation: &ValidatedActionInvocation,
        phase: ActionPhase<()>,
    ) -> Result<Option<String>, String> {
        probe.phases.lock().unwrap().push(match phase {
            ActionPhase::Begin(()) => "begin",
            ActionPhase::Update(()) => "update",
            ActionPhase::End => "end",
            ActionPhase::Cancel(_) => "cancel",
            ActionPhase::Invoke(()) => "invoke",
        });
        Ok(None)
    }
}

#[test]
fn continuous_dispatch_has_exactly_one_terminal_phase() {
    let catalog = built_in_compositor_catalog();
    let invocation = catalog
        .validate_invocation(&ActionInvocation::new("canvas.viewport.pan"))
        .unwrap();
    let mut registry = ActionRegistry::<RecordPhases>::new(catalog);
    registry.register_adapter("canvas.viewport.pan", RecordPhases).unwrap();
    let mut dispatcher = ActionDispatcher::new(Arc::new(registry));
    let mut probe = DispatchProbe::default();
    let (id, _) = dispatcher.begin(&mut probe, invocation, ()).unwrap();
    dispatcher.update(&mut probe, id, ()).unwrap();
    dispatcher
        .cancel::<DispatchProbe, ()>(&mut probe, TerminalReason::ConfigurationChanged)
        .unwrap();
    assert!(dispatcher
        .cancel::<DispatchProbe, ()>(&mut probe, TerminalReason::DeviceRemoved)
        .unwrap()
        .is_none());
    assert_eq!(*probe.phases.lock().unwrap(), vec!["begin", "update", "cancel"]);
}

struct Refuse;

impl ActionAdapter<DispatchProbe, ()> for Refuse {
    fn call(
        &self,
        probe: &mut DispatchProbe,
        _invocation: &ValidatedActionInvocation,
        phase: ActionPhase<()>,
    ) -> Result<Option<String>, String> {
        probe.phases.lock().unwrap().push(match phase {
            ActionPhase::Begin(()) => "begin",
            ActionPhase::Update(()) => "update",
            ActionPhase::End => "end",
            ActionPhase::Cancel(_) => "cancel",
            ActionPhase::Invoke(()) => "invoke",
        });
        Err(String::from("refused"))
    }
}

#[test]
fn adapter_answers_become_feedback_or_adapter_errors() {
    let action = ActionId::new("canvas.window.close").unwrap();
    let ok = feedback_of(&action, ActionFeedbackKind::Invoked, Ok(Some(String::from("done")))).unwrap();
    assert_eq!(ok.action, action);
    assert_eq!(ok.kind, ActionFeedbackKind::Invoked);
    assert_eq!(ok.message.as_deref(), Some("done"));
    let err = feedback_of(&action, ActionFeedbackKind::Began, Err(String::from("no"))).unwrap_err();
    assert_eq!(err, DispatchError::Adapter { action: action.clone(), message: String::from("no") });
}

#[test]
fn refused_begin_leaves_no_interaction_and_missing_adapter_calls_nothing() {
    let catalog = built_in_compositor_catalog();
    let invocation = catalog
        .validate_invocation(&ActionInvocation::new("canvas.viewport.pan"))
        .unwrap();
    let mut registry = ActionRegistry::<Refuse>::new(catalog.clone());
    registry.register_adapter("canvas.viewport.pan", Refuse).unwrap();
    let mut dispatcher = ActionDispatcher::new(Arc::new(registry));
    let mut probe = DispatchProbe::default();
    let error = dispatcher.begin(&mut probe, invocation, ()).unwrap_err();
    assert!(matches!(error, DispatchError::Adapter { .. }));
    assert!(dispatcher.active_id().is_none());
    assert_eq!(*probe.phases.lock().unwrap(), vec!["begin"]);

    let bare = ActionDispatcher::new(Arc::new(ActionRegistry::<Refuse>::new(catalog.clone())));
    let mut bare = bare;
    let invocation = catalog
        .validate_invocation(&ActionInvocation::new("canvas.viewport.pan"))
        .unwrap();
    let mut probe = DispatchProbe::default();
    let error = bare.begin(&mut probe, invocation, ()).unwrap_err();
    assert!(matches!(error, DispatchError::MissingAdapter(_)));
    assert!(probe.phases.lock().unwrap().is_empty());
}

#[test]
fn modifier_set_rebuilt_from_its_modifiers_is_itself() {
    let set = ModifierSet::new(&[Modifier::Logo, Modifier::Control, Modifier::Logo]);
    assert_eq!(set.bits(), 9);
    assert_eq!(set.ordered(), vec![Modifier::Control, Modifier::Logo]);
    assert_eq!(ModifierSet::new(&set.ordered()), set);
}

#[test]
fn default_ids_are_distinct_and_only_the_chosen_keys_differ() {
    let first = default_compositor_bindings("q", "Tab", "o");
    let second = default_compositor_bindings("w", "grave", "space");
    let mut ids: Vec<&str> = first.bindings.iter().map(|entry| entry.id.as_str()).collect();
    ids.sort();
    ids.dedup();
    assert_eq!(ids.len(), 88);
    for (index, (a, b)) in first.bindings.iter().zip(second.bindings.iter()).enumerate() {
        assert_eq!(a.id, b.id);
        if index != 0 && index != 2 && index != 3 {
            assert_eq!(a.trigger, b.trigger);
        } else {
            assert_ne!(a.trigger, b.trigger);
        }
    }
}

#[test]
fn adding_devices_in_either_order_gives_the_same_support() {
    let one = ActionEnvironment::new().with_device(DeviceClass::Mouse).with_device(DeviceClass::Keyboard);
    let other = ActionEnvironment::new().with_device(DeviceClass::Keyboard).with_device(DeviceClass::Mouse);
    let copy = one.clone();
    for device in [DeviceClass::Keyboard, DeviceClass::Mouse, DeviceClass::Touchpad, DeviceClass::Touchscreen] {
        assert_eq!(one.devices.contains(&device), other.devices.contains(&device));
        assert_eq!(copy.devices.contains(&device), one.devices.contains(&device));
    }
}

#[test]
fn unsupported_versions_name_the_version_found() {
    let catalog = built_in_compositor_catalog();
    let document = BindingDocument { version: 7, bindings: Vec::new() };
    let diagnostics = compile_bindings(&catalog, &full_environment(), &document).unwrap_err();
    assert_eq!(diagnostics[0].code, BindingDiagnosticCode::UnsupportedVersion);
    assert_eq!(diagnostics[0].message, "binding schema version 7 is unsupported; expected 1");
}

#[test]
fn a_decoded_publication_becomes_the_source_that_environment_changes_recompile() {
    let mut runtime = BindingRuntime::new(
        built_in_compositor_catalog(),
        full_environment(),
        default_compositor_bindings("Escape", "Tab", "o"),
    )
    .unwrap();
    let document = BindingDocument::new(vec![key_binding(
        "close",
        BindingContext::Window,
        "q",
        &[Modifier::Logo],
        "canvas.window.close",
        None,
    )]);
    let publication = runtime.publish_decoded(10, Ok(document));
    assert!(publication.accepted);
    assert_eq!(publication.effective.bindings().len(), 1);
    let recompiled = runtime.set_environment(ActionEnvironment::new().with_device(DeviceClass::Keyboard));
    assert!(recompiled.accepted);
    assert_eq!(recompiled.effective.bindings().len(), 1);
    assert_eq!(recompiled.effective.bindings()[0].id, "close");
    let oversized = runtime.publish_decoded(2_000_000, Ok(BindingDocument::new(Vec::new())));
    assert!(!oversized.accepted);
    assert_eq!(oversized.diagnostics[0].message, "binding document exceeds 1048576 bytes");
}

#[test]
fn diagnostics_quote_names_as_debug_does() {
    let catalog = built_in_compositor_catalog();
    let document = BindingDocument::new(vec![
        key_binding("dup", BindingContext::Window, "q", &[Modifier::Logo], "canvas.window.close", None),
        key_binding("dup", BindingContext::Window, "w", &[Modifier::Logo], "canvas.window.close", None),
        key_binding("odd", BindingContext::Window, "e", &[Modifier::Logo], "canvas.no-such", None),
        key_binding("Bad", BindingContext::Window, "r", &[Modifier::Logo], "canvas.window.close", None),
    ]);
    let diagnostics = compile_bindings(&catalog, &full_environment(), &document).unwrap_err();
    let messages: Vec<&str> = diagnostics.iter().map(|d| d.message.as_str()).collect();
    assert!(messages.contains(&"duplicate binding id \"dup\""));
    assert!(messages.contains(&"unknown action \"canvas.no-such\""));
    assert!(messages.contains(
        &"binding identifier \"Bad\" must use lowercase ASCII segments separated by '.' or '-'"
    ));
}
