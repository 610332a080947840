//! The canonical default binding document.

use vstd::prelude::*;

use crate::action::binding::{BindingDocument, BindingEntry, EntryV, BINDING_SCHEMA_VERSION};
use crate::action::catalog::ActionInvocation;
use crate::action::trigger::{
    BindingContext, ButtonCode, DeviceClass, GestureActivation, GestureKind, GestureOrigin,
    KeyPhase, Modifier, Trigger, TriggerV,
};
use crate::action::values::{ActionValue, ValueV};
use crate::strings::{decimal_chars, decimal_text, digit_char};

verus! {

/// The eight directional keys: id suffix, key name and direction value.
pub open spec fn directional_key_table() -> Seq<(Seq<char>, Seq<char>, Seq<char>)> {
    seq![
        ("left"@, "Left"@, "left"@),
        ("right"@, "Right"@, "right"@),
        ("up"@, "Up"@, "up"@),
        ("down"@, "Down"@, "down"@),
        ("h"@, "h"@, "left"@),
        ("j"@, "j"@, "down"@),
        ("k"@, "k"@, "up"@),
        ("l"@, "l"@, "right"@),
    ]
}

/// An entry bound to a key press.
pub open spec fn is_key_entry(
    e: EntryV,
    id: Seq<char>,
    context: BindingContext,
    key: Seq<char>,
    modifiers: Seq<Modifier>,
    action: Seq<char>,
) -> bool {
    &&& e.id == id
    &&& e.context == context
    &&& e.trigger == (TriggerV::Key { key, modifiers, phase: KeyPhase::Press })
    &&& e.action == action
}

/// The invocation arguments of an entry: none, or exactly one.
pub open spec fn has_arguments(e: EntryV, argument: Option<(Seq<char>, ValueV)>) -> bool {
    match argument {
        None => e.arg_keys.len() == 0 && e.arg_values.len() == 0,
        Some((name, value)) => {
            &&& e.arg_keys == seq![name]
            &&& e.arg_values.len() == 1
            &&& e.arg_values[0]@ == value
        },
    }
}

/// A press of a pointer button, with no arguments.
pub open spec fn is_button_entry(
    e: EntryV,
    id: Seq<char>,
    context: BindingContext,
    button: ButtonCode,
    modifiers: Seq<Modifier>,
    origin: GestureOrigin,
    action: Seq<char>,
) -> bool {
    &&& e.id == id
    &&& e.context == context
    &&& e.trigger == (TriggerV::Button {
        button,
        modifiers,
        device: DeviceClass::AnyPointer,
        origin,
        phase: KeyPhase::Press,
    })
    &&& e.action == action
    &&& has_arguments(e, None)
}

/// The start of a touchpad gesture anywhere on the canvas, with no arguments.
pub open spec fn is_gesture_entry(
    e: EntryV,
    id: Seq<char>,
    gesture: GestureKind,
    fingers: u8,
    action: Seq<char>,
) -> bool {
    &&& e.id == id
    &&& e.context == BindingContext::Canvas
    &&& e.trigger == (TriggerV::Gesture {
        gesture,
        device: DeviceClass::Touchpad,
        fingers,
        origin: GestureOrigin::Anywhere,
        direction: None,
        activation: GestureActivation::Begin,
    })
    &&& e.action == action
    &&& has_arguments(e, None)
}

/// Directional entry `w` (pan, move, resize) for directional key `d`.
pub open spec fn directional_entry(e: EntryV, d: int, w: int) -> bool {
    let (suffix, key, direction) = directional_key_table()[d];
    &&& has_arguments(e, Some(("direction"@, ValueV::Text(direction))))
    &&& if w == 0 {
        is_key_entry(
            e,
            "viewport-pan-"@ + suffix,
            BindingContext::Canvas,
            key,
            seq![Modifier::Logo],
            "canvas.viewport.pan-step"@,
        )
    } else if w == 1 {
        is_key_entry(
            e,
            "window-move-"@ + suffix,
            BindingContext::Window,
            key,
            seq![Modifier::Logo, Modifier::Shift],
            "canvas.window.move-step"@,
        )
    } else {
        is_key_entry(
            e,
            "window-resize-"@ + suffix,
            BindingContext::Window,
            key,
            seq![Modifier::Logo, Modifier::Control],
            "canvas.window.resize-step"@,
        )
    }
}

/// The workspace that digit key `n` selects: digits 1 to 9 themselves, 0 the tenth.
pub open spec fn workspace_of_digit(n: int) -> int {
    if n == 0 {
        10
    } else {
        n
    }
}

/// Digit entry `w` (workspace switch, mark jump, mark set) for digit `n`.
pub open spec fn digit_entry(e: EntryV, n: int, w: int) -> bool {
    let digit = decimal_chars(n as nat);
    let workspace = workspace_of_digit(n);
    if w == 0 {
        &&& is_key_entry(
            e,
            "workspace-switch-"@ + decimal_chars(workspace as nat),
            BindingContext::Canvas,
            digit,
            seq![Modifier::Logo],
            "canvas.workspace.switch"@,
        )
        &&& has_arguments(e, Some(("workspace"@, ValueV::Integer(workspace as i64))))
    } else if w == 1 {
        &&& is_key_entry(
            e,
            "mark-jump-"@ + digit,
            BindingContext::Canvas,
            digit,
            seq![Modifier::Alt, Modifier::Logo],
            "canvas.mark.jump"@,
        )
        &&& has_arguments(e, Some(("index"@, ValueV::Integer(n as i64))))
    } else {
        &&& is_key_entry(
            e,
            "mark-set-"@ + digit,
            BindingContext::Canvas,
            digit,
            seq![Modifier::Alt, Modifier::Logo, Modifier::Shift],
            "canvas.mark.set"@,
        )
        &&& has_arguments(e, Some(("index"@, ValueV::Integer(n as i64))))
    }
}

/// Virtual-terminal entry `w` (control-alt function key, dedicated key) for terminal `v`.
pub open spec fn vt_entry(e: EntryV, v: int, w: int) -> bool {
    let number = decimal_chars(v as nat);
    &&& has_arguments(e, Some(("vt"@, ValueV::Integer(v as i64))))
    &&& if w == 0 {
        is_key_entry(
            e,
            "vt-chord-"@ + number,
            BindingContext::Global,
            "F"@ + number,
            seq![Modifier::Control, Modifier::Alt],
            "session.vt.switch"@,
        )
    } else {
        is_key_entry(
            e,
            "vt-dedicated-"@ + number,
            BindingContext::Global,
            "XF86Switch_VT_"@ + number,
            seq![],
            "session.vt.switch"@,
        )
    }
}

/// Entry `i` of the default document, for the given close, cycle and overview keys.
pub open spec fn default_entry(
    e: EntryV,
    i: int,
    close_key: Seq<char>,
    cycle_key: Seq<char>,
    overview_key: Seq<char>,
) -> bool {
    if i == 0 {
        is_key_entry(
            e,
            "overview-toggle"@,
            BindingContext::Canvas,
            overview_key,
            seq![Modifier::Logo],
            "canvas.overview.toggle"@,
        ) && has_arguments(e, None)
    } else if i == 1 {
        is_key_entry(
            e,
            "overview-exit"@,
            BindingContext::Overview,
            "Escape"@,
            seq![],
            "canvas.overview.exit"@,
        ) && has_arguments(e, None)
    } else if i == 2 {
        is_key_entry(
            e,
            "window-close"@,
            BindingContext::Window,
            close_key,
            seq![Modifier::Logo],
            "canvas.window.close"@,
        ) && has_arguments(e, None)
    } else if i == 3 {
        is_key_entry(
            e,
            "window-cycle-focus"@,
            BindingContext::Canvas,
            cycle_key,
            seq![Modifier::Alt],
            "canvas.window.cycle-focus"@,
        ) && has_arguments(e, None)
    } else if 4 <= i < 28 {
        directional_entry(e, (i - 4) / 3, (i - 4) % 3)
    } else if 28 <= i < 58 {
        digit_entry(e, (i - 28) / 3, (i - 28) % 3)
    } else if 58 <= i < 82 {
        vt_entry(e, (i - 58) / 2 + 1, (i - 58) % 2)
    } else if i == 82 {
        is_button_entry(
            e,
            "pointer-window-move"@,
            BindingContext::Window,
            ButtonCode::Primary,
            seq![Modifier::Logo],
            GestureOrigin::Window,
            "canvas.window.move"@,
        )
    } else if i == 83 {
        is_button_entry(
            e,
            "pointer-window-resize"@,
            BindingContext::Window,
            ButtonCode::Secondary,
            seq![Modifier::Logo],
            GestureOrigin::Window,
            "canvas.window.resize"@,
        )
    } else if i == 84 {
        is_button_entry(
            e,
            "pointer-frame-move"@,
            BindingContext::WindowFrame,
            ButtonCode::Primary,
            seq![],
            GestureOrigin::WindowFrame,
            "canvas.window.move"@,
        )
    } else if i == 85 {
        is_button_entry(
            e,
            "pointer-empty-pan"@,
            BindingContext::EmptyCanvas,
            ButtonCode::Primary,
            seq![],
            GestureOrigin::EmptyCanvas,
            "canvas.viewport.pan"@,
        )
    } else if i == 86 {
        is_gesture_entry(
            e,
            "touchpad-three-finger-pan"@,
            GestureKind::Swipe,
            3,
            "canvas.viewport.pan"@,
        )
    } else {
        is_gesture_entry(
            e,
            "touchpad-three-finger-pinch"@,
            GestureKind::Pinch,
            3,
            "canvas.viewport.pinch"@,
        )
    }
}

/// Two default documents differ only in the caller's three keys: every
/// entry but the overview toggle (0), window close (2) and focus cycling (3)
/// is described the same whatever keys are chosen, and those three carry
/// exactly the chosen keys.
pub proof fn law_defaults_differ_only_in_chosen_keys(
    e: EntryV,
    i: int,
    close_key: Seq<char>,
    cycle_key: Seq<char>,
    overview_key: Seq<char>,
    other_close: Seq<char>,
    other_cycle: Seq<char>,
    other_overview: Seq<char>,
)
    requires
        0 <= i < default_entry_count(),
    ensures
        i != 0 && i != 2 && i != 3 ==> (default_entry(e, i, close_key, cycle_key, overview_key)
            == default_entry(e, i, other_close, other_cycle, other_overview)),
        i == 0 && default_entry(e, i, close_key, cycle_key, overview_key) ==> e.trigger == (
        TriggerV::Key { key: overview_key, modifiers: seq![Modifier::Logo], phase: KeyPhase::Press }),
        i == 2 && default_entry(e, i, close_key, cycle_key, overview_key) ==> e.trigger == (
        TriggerV::Key { key: close_key, modifiers: seq![Modifier::Logo], phase: KeyPhase::Press }),
        i == 3 && default_entry(e, i, close_key, cycle_key, overview_key) ==> e.trigger == (
        TriggerV::Key { key: cycle_key, modifiers: seq![Modifier::Alt], phase: KeyPhase::Press }),
{
}

/// The id prefix of entry family `f`; single entries are their own family.
pub open spec fn family_prefix(f: int) -> Seq<char> {
    if f == 0 {
        "overview-toggle"@
    } else if f == 1 {
        "overview-exit"@
    } else if f == 2 {
        "window-close"@
    } else if f == 3 {
        "window-cycle-focus"@
    } else if f == 4 {
        "viewport-pan-"@
    } else if f == 5 {
        "window-move-"@
    } else if f == 6 {
        "window-resize-"@
    } else if f == 7 {
        "workspace-switch-"@
    } else if f == 8 {
        "mark-jump-"@
    } else if f == 9 {
        "mark-set-"@
    } else if f == 10 {
        "vt-chord-"@
    } else if f == 11 {
        "vt-dedicated-"@
    } else if f == 12 {
        "pointer-window-move"@
    } else if f == 13 {
        "pointer-window-resize"@
    } else if f == 14 {
        "pointer-frame-move"@
    } else if f == 15 {
        "pointer-empty-pan"@
    } else if f == 16 {
        "touchpad-three-finger-pan"@
    } else {
        "touchpad-three-finger-pinch"@
    }
}

/// The id suffix of member `m` of family `f`.
pub open spec fn family_suffix(f: int, m: int) -> Seq<char> {
    if 4 <= f <= 6 {
        directional_key_table()[m].0
    } else if f == 7 {
        decimal_chars(workspace_of_digit(m) as nat)
    } else if 8 <= f <= 11 {
        decimal_chars(m as nat)
    } else {
        Seq::empty()
    }
}

/// The family and member of entry `i` of the default document.
pub open spec fn entry_family(i: int) -> (int, int) {
    if i < 4 {
        (i, 0)
    } else if i < 28 {
        (4 + (i - 4) % 3, (i - 4) / 3)
    } else if i < 58 {
        (7 + (i - 28) % 3, (i - 28) / 3)
    } else if i < 82 {
        (10 + (i - 58) % 2, (i - 58) / 2 + 1)
    } else {
        (12 + i - 82, 0)
    }
}

/// The id of entry `i` of the default document.
pub open spec fn default_id(i: int) -> Seq<char> {
    family_prefix(entry_family(i).0) + family_suffix(entry_family(i).0, entry_family(i).1)
}

proof fn reveal_family_prefixes()
    ensures
        family_prefix(0) == seq!['o', 'v', 'e', 'r', 'v', 'i', 'e', 'w', '-', 't', 'o', 'g', 'g', 'l', 'e'],
        family_prefix(1) == seq!['o', 'v', 'e', 'r', 'v', 'i', 'e', 'w', '-', 'e', 'x', 'i', 't'],
        family_prefix(2) == seq!['w', 'i', 'n', 'd', 'o', 'w', '-', 'c', 'l', 'o', 's', 'e'],
        family_prefix(3) == seq!['w', 'i', 'n', 'd', 'o', 'w', '-', 'c', 'y', 'c', 'l', 'e', '-', 'f', 'o', 'c', 'u', 's'],
        family_prefix(4) == seq!['v', 'i', 'e', 'w', 'p', 'o', 'r', 't', '-', 'p', 'a', 'n', '-'],
        family_prefix(5) == seq!['w', 'i', 'n', 'd', 'o', 'w', '-', 'm', 'o', 'v', 'e', '-'],
        family_prefix(6) == seq!['w', 'i', 'n', 'd', 'o', 'w', '-', 'r', 'e', 's', 'i', 'z', 'e', '-'],
        family_prefix(7) == seq!['w', 'o', 'r', 'k', 's', 'p', 'a', 'c', 'e', '-', 's', 'w', 'i', 't', 'c', 'h', '-'],
        family_prefix(8) == seq!['m', 'a', 'r', 'k', '-', 'j', 'u', 'm', 'p', '-'],
        family_prefix(9) == seq!['m', 'a', 'r', 'k', '-', 's', 'e', 't', '-'],
        family_prefix(10) == seq!['v', 't', '-', 'c', 'h', 'o', 'r', 'd', '-'],
        family_prefix(11) == seq!['v', 't', '-', 'd', 'e', 'd', 'i', 'c', 'a', 't', 'e', 'd', '-'],
        family_prefix(12) == seq!['p', 'o', 'i', 'n', 't', 'e', 'r', '-', 'w', 'i', 'n', 'd', 'o', 'w', '-', 'm', 'o', 'v', 'e'],
        family_prefix(13) == seq!['p', 'o', 'i', 'n', 't', 'e', 'r', '-', 'w', 'i', 'n', 'd', 'o', 'w', '-', 'r', 'e', 's', 'i', 'z', 'e'],
        family_prefix(14) == seq!['p', 'o', 'i', 'n', 't', 'e', 'r', '-', 'f', 'r', 'a', 'm', 'e', '-', 'm', 'o', 'v', 'e'],
        family_prefix(15) == seq!['p', 'o', 'i', 'n', 't', 'e', 'r', '-', 'e', 'm', 'p', 't', 'y', '-', 'p', 'a', 'n'],
        family_prefix(16) == seq!['t', 'o', 'u', 'c', 'h', 'p', 'a', 'd', '-', 't', 'h', 'r', 'e', 'e', '-', 'f', 'i', 'n', 'g', 'e', 'r', '-', 'p', 'a', 'n'],
        family_prefix(17) == seq!['t', 'o', 'u', 'c', 'h', 'p', 'a', 'd', '-', 't', 'h', 'r', 'e', 'e', '-', 'f', 'i', 'n', 'g', 'e', 'r', '-', 'p', 'i', 'n', 'c', 'h'],
{
    reveal_strlit("overview-toggle");
    reveal_strlit("overview-exit");
    reveal_strlit("window-close");
    reveal_strlit("window-cycle-focus");
    reveal_strlit("viewport-pan-");
    reveal_strlit("window-move-");
    reveal_strlit("window-resize-");
    reveal_strlit("workspace-switch-");
    reveal_strlit("mark-jump-");
    reveal_strlit("mark-set-");
    reveal_strlit("vt-chord-");
    reveal_strlit("vt-dedicated-");
    reveal_strlit("pointer-window-move");
    reveal_strlit("pointer-window-resize");
    reveal_strlit("pointer-frame-move");
    reveal_strlit("pointer-empty-pan");
    reveal_strlit("touchpad-three-finger-pan");
    reveal_strlit("touchpad-three-finger-pinch");
}

/// A position inside both prefixes where two families' prefixes differ.
spec fn clash_position(f1: int, f2: int) -> int {
    let a = family_prefix(f1);
    let b = family_prefix(f2);
    if a[0] != b[0] {
        0
    } else if a[1] != b[1] {
        1
    } else if a[3] != b[3] {
        3
    } else if a[5] != b[5] {
        5
    } else if a[7] != b[7] {
        7
    } else if a[8] != b[8] {
        8
    } else if a[9] != b[9] {
        9
    } else if a[15] != b[15] {
        15
    } else {
        23
    }
}

#[verifier::rlimit(50)]
proof fn lemma_prefixes_clash(f1: int, f2: int)
    requires
        0 <= f1 < 18,
        0 <= f2 < 18,
        f1 != f2,
    ensures
        0 <= clash_position(f1, f2) < family_prefix(f1).len(),
        clash_position(f1, f2) < family_prefix(f2).len(),
        family_prefix(f1)[clash_position(f1, f2)] != family_prefix(f2)[clash_position(f1, f2)],
{
    reveal_family_prefixes();
}

proof fn lemma_small_decimal(n: nat)
    requires
        n < 13,
    ensures
        n < 10 ==> decimal_chars(n) == seq![digit_char(n)],
        10 <= n ==> decimal_chars(n) == seq!['1', digit_char((n - 10) as nat)],
{
    if n >= 10 {
        assert(n / 10 == 1 && n % 10 == n - 10);
        assert(decimal_chars(1) == seq!['1']);
        assert(decimal_chars(n) =~= seq!['1', digit_char((n - 10) as nat)]);
    }
}

proof fn lemma_suffixes_differ(f: int, m1: int, m2: int)
    requires
        0 <= f < 18,
        m1 != m2,
        4 <= f <= 6 ==> 0 <= m1 < 8 && 0 <= m2 < 8,
        7 <= f <= 9 ==> 0 <= m1 < 10 && 0 <= m2 < 10,
        10 <= f <= 11 ==> 1 <= m1 < 13 && 1 <= m2 < 13,
        f < 4 || f >= 12 ==> false,
    ensures
        family_suffix(f, m1) != family_suffix(f, m2),
{
    if 4 <= f <= 6 {
        reveal_strlit("left");
        reveal_strlit("right");
        reveal_strlit("up");
        reveal_strlit("down");
        reveal_strlit("h");
        reveal_strlit("j");
        reveal_strlit("k");
        reveal_strlit("l");
        let a = family_suffix(f, m1);
        let b = family_suffix(f, m2);
        if a == b {
            assert(a.len() == b.len());
            assert(a[0] == b[0]);
        }
    } else {
        let x: nat = if f == 7 { workspace_of_digit(m1) as nat } else { m1 as nat };
        let y: nat = if f == 7 { workspace_of_digit(m2) as nat } else { m2 as nat };
        assert(x != y);
        lemma_small_decimal(x);
        lemma_small_decimal(y);
        let a = decimal_chars(x);
        let b = decimal_chars(y);
        if a == b {
            assert(a.len() == b.len());
            assert(a[0] == b[0]);
            assert(a[a.len() - 1] == b[b.len() - 1]);
        }
    }
}

/// Every default entry carries the id that `default_id` gives its position.
pub proof fn lemma_default_entry_id(
    e: EntryV,
    i: int,
    close_key: Seq<char>,
    cycle_key: Seq<char>,
    overview_key: Seq<char>,
)
    requires
        0 <= i < default_entry_count(),
        default_entry(e, i, close_key, cycle_key, overview_key),
    ensures
        e.id == default_id(i),
{
    let (f, m) = entry_family(i);
    assert(family_suffix(f, m).len() == 0 ==> family_prefix(f) + family_suffix(f, m) =~= family_prefix(f));
    if 4 <= i < 28 {
        assert(f == 4 + (i - 4) % 3 && m == (i - 4) / 3);
    } else if 28 <= i < 58 {
        assert(f == 7 + (i - 28) % 3 && m == (i - 28) / 3);
    } else if 58 <= i < 82 {
        assert(f == 10 + (i - 58) % 2 && m == (i - 58) / 2 + 1);
    }
}

/// The entries of the default document have pairwise distinct ids, in every
/// document whatever keys were chosen.
pub proof fn law_default_ids_distinct(
    e1: EntryV,
    i: int,
    e2: EntryV,
    j: int,
    close_key: Seq<char>,
    cycle_key: Seq<char>,
    overview_key: Seq<char>,
)
    requires
        0 <= i < default_entry_count(),
        0 <= j < default_entry_count(),
        i != j,
        default_entry(e1, i, close_key, cycle_key, overview_key),
        default_entry(e2, j, close_key, cycle_key, overview_key),
    ensures
        e1.id != e2.id,
{
    lemma_default_entry_id(e1, i, close_key, cycle_key, overview_key);
    lemma_default_entry_id(e2, j, close_key, cycle_key, overview_key);
    let (f1, m1) = entry_family(i);
    let (f2, m2) = entry_family(j);
    let a = default_id(i);
    let b = default_id(j);
    if f1 != f2 {
        lemma_prefixes_clash(f1, f2);
        let k = clash_position(f1, f2);
        if a == b {
            assert(a[k] == family_prefix(f1)[k]);
            assert(b[k] == family_prefix(f2)[k]);
        }
    } else {
        assert(m1 != m2);
        lemma_suffixes_differ(f1, m1, m2);
        let p = family_prefix(f1);
        if a == b {
            assert(a.skip(p.len() as int) =~= family_suffix(f1, m1));
            assert(b.skip(p.len() as int) =~= family_suffix(f1, m2));
        }
    }
}

/// The number of entries in the default document.
pub open spec fn default_entry_count() -> nat {
    88
}

fn key_binding(
    id: String,
    context: BindingContext,
    key: String,
    modifiers: Vec<Modifier>,
    action: &str,
    argument: Option<(&str, ActionValue)>,
) -> (e: BindingEntry)
    ensures
        is_key_entry(e@, id@, context, key@, modifiers@, action@),
        has_arguments(
            e@,
            match argument {
                None => None,
                Some((name, value)) => Some((name@, value@)),
            },
        ),
{
    let mut invocation = ActionInvocation::new(action);
    match argument {
        Some((name, value)) => {
            invocation = invocation.with_argument(name, value);
        },
        None => {},
    }
    BindingEntry {
        id,
        context,
        trigger: Trigger::Key { key, modifiers, phase: KeyPhase::Press },
        invocation,
    }
}

fn continuous_button_binding(
    id: &str,
    context: BindingContext,
    button: ButtonCode,
    modifiers: Vec<Modifier>,
    origin: GestureOrigin,
    action: &str,
) -> (e: BindingEntry)
    ensures
        is_button_entry(e@, id@, context, button, modifiers@, origin, action@),
{
    let invocation = ActionInvocation::new(action);
    BindingEntry {
        id: String::from_str(id),
        context,
        trigger: Trigger::Button {
            button,
            modifiers,
            device: DeviceClass::AnyPointer,
            origin,
            phase: KeyPhase::Press,
        },
        invocation,
    }
}

fn continuous_gesture_binding(id: &str, gesture: GestureKind, fingers: u8, action: &str) -> (e:
    BindingEntry)
    ensures
        is_gesture_entry(e@, id@, gesture, fingers, action@),
{
    let invocation = ActionInvocation::new(action);
    BindingEntry {
        id: String::from_str(id),
        context: BindingContext::Canvas,
        trigger: Trigger::Gesture {
            gesture,
            device: DeviceClass::Touchpad,
            fingers,
            origin: GestureOrigin::Anywhere,
            direction: None,
            activation: GestureActivation::Begin,
        },
        invocation,
    }
}

/// `prefix` followed by `suffix`.
fn joined(prefix: &str, suffix: &str) -> (r: String)
    ensures
        r@ == prefix@ + suffix@,
{
    let mut r = String::from_str(prefix);
    r.append(suffix);
    r
}

/// `prefix` followed by the decimal text of `n`.
fn numbered(prefix: &str, n: u64) -> (r: String)
    ensures
        r@ == prefix@ + decimal_chars(n as nat),
{
    let digits = decimal_text(n);
    joined(prefix, digits.as_str())
}

fn directional_key(d: usize) -> (r: (&'static str, &'static str, &'static str))
    requires
        d < 8,
    ensures
        (r.0@, r.1@, r.2@) == directional_key_table()[d as int],
{
    if d == 0 {
        ("left", "Left", "left")
    } else if d == 1 {
        ("right", "Right", "right")
    } else if d == 2 {
        ("up", "Up", "up")
    } else if d == 3 {
        ("down", "Down", "down")
    } else if d == 4 {
        ("h", "h", "left")
    } else if d == 5 {
        ("j", "j", "down")
    } else if d == 6 {
        ("k", "k", "up")
    } else {
        ("l", "l", "right")
    }
}

fn direction_value(direction: &str) -> (r: Option<(&'static str, ActionValue)>)
    ensures
        r matches Some((name, value)) && name@ == "direction"@ && value@ == ValueV::Text(direction@),
{
    Some(("direction", ActionValue::String(String::from_str(direction))))
}

fn integer_value(name: &'static str, value: u64) -> (r: Option<(&'static str, ActionValue)>)
    requires
        value <= 12,
    ensures
        r matches Some((n, v)) && n@ == name@ && v@ == ValueV::Integer(value as i64),
{
    Some((name, ActionValue::Integer(value as i64)))
}

/// The eight directional keys: id suffix, key name and direction value.
pub fn directional_keys() -> (r: Vec<(&'static str, &'static str, &'static str)>)
    ensures
        r@.len() == 8,
        forall|d: int| 0 <= d < 8 ==> (r@[d].0@, r@[d].1@, r@[d].2@) == #[trigger] directional_key_table()[d],
{
    let mut r: Vec<(&'static str, &'static str, &'static str)> = Vec::new();
    let mut d: usize = 0;
    while d < 8
        invariant
            d <= 8,
            r@.len() == d,
            forall|j: int| 0 <= j < d ==> (r@[j].0@, r@[j].1@, r@[j].2@) == #[trigger] directional_key_table()[j],
        decreases 8 - d,
    {
        r.push(directional_key(d));
        d = d + 1;
    }
    r
}

/// Appends the pan, move and resize bindings of the eight directional keys.
fn push_directional(bindings: &mut Vec<BindingEntry>)
    requires
        old(bindings)@.len() == 4,
    ensures
        final(bindings)@.len() == 28,
        forall|i: int| 0 <= i < 4 ==> #[trigger] final(bindings)@[i] == old(bindings)@[i],
        forall|i: int|
            4 <= i < 28 ==> directional_entry(#[trigger] final(bindings)@[i]@, (i - 4) / 3, (i - 4) % 3),
{
    let ghost start = bindings@;
    let mut d: usize = 0;
    while d < 8
        invariant
            d <= 8,
            bindings@.len() == 4 + 3 * d,
            forall|i: int| 0 <= i < 4 ==> #[trigger] bindings@[i] == start[i],
            forall|i: int|
                4 <= i < bindings@.len() ==> directional_entry(
                    #[trigger] bindings@[i]@,
                    (i - 4) / 3,
                    (i - 4) % 3,
                ),
        decreases 8 - d,
    {
        let (suffix, key, direction) = directional_key(d);
        let logo = vec![Modifier::Logo];
        assert(logo@ == seq![Modifier::Logo]);
        let pan = key_binding(
            joined("viewport-pan-", suffix),
            BindingContext::Canvas,
            String::from_str(key),
            logo,
            "canvas.viewport.pan-step",
            direction_value(direction),
        );
        let moved = key_binding(
            joined("window-move-", suffix),
            BindingContext::Window,
            String::from_str(key),
            vec![Modifier::Logo, Modifier::Shift],
            "canvas.window.move-step",
            direction_value(direction),
        );
        let resized = key_binding(
            joined("window-resize-", suffix),
            BindingContext::Window,
            String::from_str(key),
            vec![Modifier::Logo, Modifier::Control],
            "canvas.window.resize-step",
            direction_value(direction),
        );
        let ghost base = 4 + 3 * d;
        bindings.push(pan);
        bindings.push(moved);
        bindings.push(resized);
        proof {
            assert((base - 4) / 3 == d && (base - 4) % 3 == 0);
            assert((base + 1 - 4) / 3 == d && (base + 1 - 4) % 3 == 1);
            assert((base + 2 - 4) / 3 == d && (base + 2 - 4) % 3 == 2);
            assert(directional_entry(bindings@[base]@, d as int, 0));
            assert(directional_entry(bindings@[base + 1]@, d as int, 1));
            assert(directional_entry(bindings@[base + 2]@, d as int, 2));
        }
        d = d + 1;
    }
}

/// Appends the workspace-switch, mark-jump and mark-set bindings of the ten digit keys.
fn push_digits(bindings: &mut Vec<BindingEntry>)
    requires
        old(bindings)@.len() == 28,
    ensures
        final(bindings)@.len() == 58,
        forall|i: int| 0 <= i < 28 ==> #[trigger] final(bindings)@[i] == old(bindings)@[i],
        forall|i: int| 28 <= i < 58 ==> digit_entry(#[trigger] final(bindings)@[i]@, (i - 28) / 3, (i - 28) % 3),
{
    let ghost start = bindings@;
    let mut n: u64 = 0;
    while n < 10
        invariant
            n <= 10,
            bindings@.len() == 28 + 3 * n,
            forall|i: int| 0 <= i < 28 ==> #[trigger] bindings@[i] == start[i],
            forall|i: int|
                28 <= i < bindings@.len() ==> digit_entry(#[trigger] bindings@[i]@, (i - 28) / 3, (i - 28) % 3),
        decreases 10 - n,
    {
        let workspace: u64 = if n == 0 {
            10
        } else {
            n
        };
        let logo = vec![Modifier::Logo];
        assert(logo@ == seq![Modifier::Logo]);
        let switch = key_binding(
            numbered("workspace-switch-", workspace),
            BindingContext::Canvas,
            decimal_text(n),
            logo,
            "canvas.workspace.switch",
            integer_value("workspace", workspace),
        );
        let jump = key_binding(
            numbered("mark-jump-", n),
            BindingContext::Canvas,
            decimal_text(n),
            vec![Modifier::Alt, Modifier::Logo],
            "canvas.mark.jump",
            integer_value("index", n),
        );
        let set = key_binding(
            numbered("mark-set-", n),
            BindingContext::Canvas,
            decimal_text(n),
            vec![Modifier::Alt, Modifier::Logo, Modifier::Shift],
            "canvas.mark.set",
            integer_value("index", n),
        );
        let ghost base = 28 + 3 * n;
        bindings.push(switch);
        bindings.push(jump);
        bindings.push(set);
        proof {
            assert((base - 28) / 3 == n && (base - 28) % 3 == 0);
            assert((base + 1 - 28) / 3 == n && (base + 1 - 28) % 3 == 1);
            assert((base + 2 - 28) / 3 == n && (base + 2 - 28) % 3 == 2);
            assert(digit_entry(bindings@[base]@, n as int, 0));
            assert(digit_entry(bindings@[base + 1]@, n as int, 1));
            assert(digit_entry(bindings@[base + 2]@, n as int, 2));
        }
        n = n + 1;
    }
}

/// Appends the two virtual-terminal bindings of terminals 1 to 12.
fn push_virtual_terminals(bindings: &mut Vec<BindingEntry>)
    requires
        old(bindings)@.len() == 58,
    ensures
        final(bindings)@.len() == 82,
        forall|i: int| 0 <= i < 58 ==> #[trigger] final(bindings)@[i] == old(bindings)@[i],
        forall|i: int| 58 <= i < 82 ==> vt_entry(#[trigger] final(bindings)@[i]@, (i - 58) / 2 + 1, (i - 58) % 2),
{
    let ghost start = bindings@;
    let mut v: u64 = 1;
    while v <= 12
        invariant
            1 <= v <= 13,
            bindings@.len() == 58 + 2 * (v - 1),
            forall|i: int| 0 <= i < 58 ==> #[trigger] bindings@[i] == start[i],
            forall|i: int|
                58 <= i < bindings@.len() ==> vt_entry(#[trigger] bindings@[i]@, (i - 58) / 2 + 1, (i - 58) % 2),
        decreases 13 - v,
    {
        let chord = key_binding(
            numbered("vt-chord-", v),
            BindingContext::Global,
            numbered("F", v),
            vec![Modifier::Control, Modifier::Alt],
            "session.vt.switch",
            integer_value("vt", v),
        );
        let none: Vec<Modifier> = Vec::new();
        let dedicated = key_binding(
            numbered("vt-dedicated-", v),
            BindingContext::Global,
            numbered("XF86Switch_VT_", v),
            none,
            "session.vt.switch",
            integer_value("vt", v),
        );
        let ghost base = 58 + 2 * (v - 1);
        bindings.push(chord);
        bindings.push(dedicated);
        proof {
            assert((base - 58) / 2 + 1 == v && (base - 58) % 2 == 0);
            assert((base + 1 - 58) / 2 + 1 == v && (base + 1 - 58) % 2 == 1);
            assert(vt_entry(bindings@[base]@, v as int, 0));
            assert(vt_entry(bindings@[base + 1]@, v as int, 1));
        }
        v = v + 1;
    }
}

/// The canonical default bindings; only the close, cycle-focus and overview
/// keys are chosen by the caller.
pub fn default_compositor_bindings(close_key: &str, cycle_key: &str, overview_key: &str) -> (r:
    BindingDocument)
    ensures
        r.version == BINDING_SCHEMA_VERSION,
        r.bindings@.len() == default_entry_count(),
        forall|i: int|
            0 <= i < default_entry_count() ==> default_entry(
                #[trigger] r.bindings@[i]@,
                i,
                close_key@,
                cycle_key@,
                overview_key@,
            ),
{
    let mut bindings: Vec<BindingEntry> = Vec::new();
    let logo = vec![Modifier::Logo];
    assert(logo@ == seq![Modifier::Logo]);
    bindings.push(
        key_binding(
            String::from_str("overview-toggle"),
            BindingContext::Canvas,
            String::from_str(overview_key),
            logo,
            "canvas.overview.toggle",
            None,
        ),
    );
    bindings.push(
        key_binding(
            String::from_str("overview-exit"),
            BindingContext::Overview,
            String::from_str("Escape"),
            Vec::new(),
            "canvas.overview.exit",
            None,
        ),
    );
    let logo = vec![Modifier::Logo];
    assert(logo@ == seq![Modifier::Logo]);
    bindings.push(
        key_binding(
            String::from_str("window-close"),
            BindingContext::Window,
            String::from_str(close_key),
            logo,
            "canvas.window.close",
            None,
        ),
    );
    let alt = vec![Modifier::Alt];
    assert(alt@ == seq![Modifier::Alt]);
    bindings.push(
        key_binding(
            String::from_str("window-cycle-focus"),
            BindingContext::Canvas,
            String::from_str(cycle_key),
            alt,
            "canvas.window.cycle-focus",
            None,
        ),
    );
    push_directional(&mut bindings);
    push_digits(&mut bindings);
    push_virtual_terminals(&mut bindings);
    let logo = vec![Modifier::Logo];
    assert(logo@ == seq![Modifier::Logo]);
    bindings.push(
        continuous_button_binding(
            "pointer-window-move",
            BindingContext::Window,
            ButtonCode::Primary,
            logo,
            GestureOrigin::Window,
            "canvas.window.move",
        ),
    );
    let logo = vec![Modifier::Logo];
    assert(logo@ == seq![Modifier::Logo]);
    bindings.push(
        continuous_button_binding(
            "pointer-window-resize",
            BindingContext::Window,
            ButtonCode::Secondary,
            logo,
            GestureOrigin::Window,
            "canvas.window.resize",
        ),
    );
    bindings.push(
        continuous_button_binding(
            "pointer-frame-move",
            BindingContext::WindowFrame,
            ButtonCode::Primary,
            Vec::new(),
            GestureOrigin::WindowFrame,
            "canvas.window.move",
        ),
    );
    bindings.push(
        continuous_button_binding(
            "pointer-empty-pan",
            BindingContext::EmptyCanvas,
            ButtonCode::Primary,
            Vec::new(),
            GestureOrigin::EmptyCanvas,
            "canvas.viewport.pan",
        ),
    );
    bindings.push(
        continuous_gesture_binding(
            "touchpad-three-finger-pan",
            GestureKind::Swipe,
            3,
            "canvas.viewport.pan",
        ),
    );
    bindings.push(
        continuous_gesture_binding(
            "touchpad-three-finger-pinch",
            GestureKind::Pinch,
            3,
            "canvas.viewport.pinch",
        ),
    );
    let r = BindingDocument::new(bindings);
    proof {
        assert forall|i: int| 0 <= i < default_entry_count() implies default_entry(
            #[trigger] r.bindings@[i]@,
            i,
            close_key@,
            cycle_key@,
            overview_key@,
        ) by {
            if 4 <= i < 28 {
                assert(directional_entry(r.bindings@[i]@, (i - 4) / 3, (i - 4) % 3));
            } else if 28 <= i < 58 {
                assert(digit_entry(r.bindings@[i]@, (i - 28) / 3, (i - 28) % 3));
            } else if 58 <= i < 82 {
                assert(vt_entry(r.bindings@[i]@, (i - 58) / 2 + 1, (i - 58) % 2));
            }
        }
    }
    r
}

} // verus!
