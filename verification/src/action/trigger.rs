//! Trigger grammar, canonical compiled triggers and their overlap rules.

use vstd::prelude::*;
use vstd::utf8::encode_utf8;

use crate::action::diagnostic::{BindingDiagnostic, BindingDiagnosticCode, BindingSeverity};
use crate::action::ident::{normalize_key, normalized_key, MAX_IDENTIFIER_BYTES};
use crate::action::values::ActionKind;
use crate::strings::{byte_len, trim_text, trimmed};

verus! {

#[derive(Debug, Clone, Copy, PartialEq, Eq, Structural, Hash)]
pub enum Modifier {
    Control,
    Alt,
    Shift,
    Logo,
}

pub open spec fn modifier_bit(m: Modifier) -> u8 {
    match m {
        Modifier::Control => 1,
        Modifier::Alt => 2,
        Modifier::Shift => 4,
        Modifier::Logo => 8,
    }
}

/// The bit set of a list of modifiers; order and repetition are irrelevant.
pub open spec fn mask_of(mods: Seq<Modifier>) -> u8
    decreases mods.len(),
{
    if mods.len() == 0 {
        0
    } else {
        mask_of(mods.drop_last()) | modifier_bit(mods.last())
    }
}

proof fn lemma_bit_or(v: u8, b: u8, c: u8)
    requires
        v < 16,
        b == 1 || b == 2 || b == 4 || b == 8,
        c == 1 || c == 2 || c == 4 || c == 8,
    ensures
        (v | b) < 16,
        ((v | b) & c != 0) == ((v & c != 0) || b == c),
{
    assert(v < 16 && (b == 1 || b == 2 || b == 4 || b == 8) && (c == 1 || c == 2 || c == 4 || c
        == 8) ==> (v | b) < 16 && (((v | b) & c != 0) == ((v & c != 0) || b == c))) by (bit_vector);
}

pub proof fn lemma_mask_of(mods: Seq<Modifier>, m: Modifier)
    ensures
        mask_of(mods) < 16,
        (mask_of(mods) & modifier_bit(m) != 0) == mods.contains(m),
    decreases mods.len(),
{
    if mods.len() == 0 {
        assert((0u8 & modifier_bit(m)) == 0) by (bit_vector);
    } else {
        let init = mods.drop_last();
        lemma_mask_of(init, m);
        lemma_bit_or(mask_of(init), modifier_bit(mods.last()), modifier_bit(m));
        if mods.contains(m) && mods.last() != m {
            let i = choose|i: int| 0 <= i < mods.len() && mods[i] == m;
            assert(init[i] == m);
        }
        if init.contains(m) {
            let i = choose|i: int| 0 <= i < init.len() && init[i] == m;
            assert(mods[i] == m);
        }
    }
}

/// Modifier order and repetition in a document are irrelevant: lists with
/// the same modifiers give the same set.
pub proof fn law_modifier_order_irrelevant(a: Seq<Modifier>, b: Seq<Modifier>)
    requires
        forall|m: Modifier| a.contains(m) == b.contains(m),
    ensures
        mask_of(a) == mask_of(b),
{
    lemma_mask_of(a, Modifier::Control);
    lemma_mask_of(a, Modifier::Alt);
    lemma_mask_of(a, Modifier::Shift);
    lemma_mask_of(a, Modifier::Logo);
    lemma_mask_of(b, Modifier::Control);
    lemma_mask_of(b, Modifier::Alt);
    lemma_mask_of(b, Modifier::Shift);
    lemma_mask_of(b, Modifier::Logo);
    let x = mask_of(a);
    let y = mask_of(b);
    assert(x < 16 && y < 16 && ((x & 1 != 0) == (y & 1 != 0)) && ((x & 2 != 0) == (y & 2 != 0)) && ((x
        & 4 != 0) == (y & 4 != 0)) && ((x & 8 != 0) == (y & 8 != 0)) ==> x == y) by (bit_vector);
}

/// Canonical modifier bit set. Ordering in source documents is irrelevant.
#[derive(Debug, Clone, Copy, Default, PartialEq, Eq, Structural, Hash)]
pub struct ModifierSet(u8);

impl ModifierSet {
    /// Only the four modifier bits can be set.
    #[verifier::type_invariant]
    closed spec fn only_modifier_bits(self) -> bool {
        self.0 < 16
    }

    /// The set's bit mask: Control 1, Alt 2, Shift 4, Logo 8.
    pub closed spec fn mask(self) -> u8 {
        self.0
    }

    pub open spec fn has(self, m: Modifier) -> bool {
        self.mask() & modifier_bit(m) != 0
    }

    /// The set whose mask is `mask`.
    pub closed spec fn from_mask(mask: u8) -> ModifierSet {
        ModifierSet(mask)
    }

    pub proof fn lemma_from_mask(mask: u8)
        ensures
            #[trigger] Self::from_mask(mask).mask() == mask,
    {
    }

    /// Two sets with the same mask are the same set.
    pub proof fn lemma_mask_determines(a: ModifierSet, b: ModifierSet)
        ensures
            a.mask() == b.mask() ==> a == b,
    {
    }

    /// Rebuilding a set from its ordered modifiers gives the same set back.
    pub proof fn law_ordered_round_trip(s: ModifierSet)
        requires
            s.mask() < 16,
        ensures
            mask_of(ordered_modifiers(s)) == s.mask(),
            forall|t: ModifierSet| t.mask() == mask_of(ordered_modifiers(s)) ==> t == s,
    {
        lemma_ordered_mask(s);
    }

    pub fn bits(self) -> (r: u8)
        ensures
            r == self.mask(),
            r < 16,
    {
        proof {
            use_type_invariant(&self);
        }
        self.0
    }

    pub fn new(modifiers: &[Modifier]) -> (r: Self)
        ensures
            r.mask() == mask_of(modifiers@),
            r.mask() < 16,
            forall|m: Modifier| #[trigger] r.has(m) == modifiers@.contains(m),
    {
        let mut value: u8 = 0;
        let mut i: usize = 0;
        while i < modifiers.len()
            invariant
                i <= modifiers@.len(),
                value == mask_of(modifiers@.take(i as int)),
                value < 16,
            decreases modifiers@.len() - i,
        {
            let bit: u8 = match modifiers[i] {
                Modifier::Control => 1,
                Modifier::Alt => 2,
                Modifier::Shift => 4,
                Modifier::Logo => 8,
            };
            proof {
                assert(modifiers@.take(i + 1).drop_last() =~= modifiers@.take(i as int));
                lemma_bit_or(value, bit, 1);
            }
            value = value | bit;
            i = i + 1;
        }
        proof {
            assert(modifiers@.take(modifiers@.len() as int) =~= modifiers@);
            assert forall|m: Modifier| #[trigger] ModifierSet(value).has(m) == modifiers@.contains(m) by {
                lemma_mask_of(modifiers@, m);
            }
        }
        ModifierSet(value)
    }

    fn bit(modifier: Modifier) -> (b: u8)
        ensures
            b == modifier_bit(modifier),
    {
        match modifier {
            Modifier::Control => 1,
            Modifier::Alt => 2,
            Modifier::Shift => 4,
            Modifier::Logo => 8,
        }
    }

    pub fn contains(self, modifier: Modifier) -> (r: bool)
        ensures
            r == self.has(modifier),
    {
        self.0 & Self::bit(modifier) != 0
    }

    /// The contained modifiers in canonical order: Control, Alt, Shift, Logo.
    pub fn ordered(self) -> (r: Vec<Modifier>)
        ensures
            r@ == ordered_modifiers(self),
            mask_of(r@) == self.mask(),
    {
        proof {
            use_type_invariant(&self);
            lemma_ordered_mask(self);
        }
        let mut r = Vec::new();
        if self.contains(Modifier::Control) {
            r.push(Modifier::Control);
        }
        if self.contains(Modifier::Alt) {
            r.push(Modifier::Alt);
        }
        if self.contains(Modifier::Shift) {
            r.push(Modifier::Shift);
        }
        if self.contains(Modifier::Logo) {
            r.push(Modifier::Logo);
        }
        assert(r@ =~= ordered_modifiers(self));
        r
    }
}

pub open spec fn keep(b: bool, m: Modifier) -> Seq<Modifier> {
    if b {
        seq![m]
    } else {
        Seq::empty()
    }
}

pub open spec fn ordered_modifiers(s: ModifierSet) -> Seq<Modifier> {
    keep(s.has(Modifier::Control), Modifier::Control) + keep(s.has(Modifier::Alt), Modifier::Alt)
        + keep(s.has(Modifier::Shift), Modifier::Shift) + keep(s.has(Modifier::Logo), Modifier::Logo)
}

proof fn lemma_ordered_mask(s: ModifierSet)
    requires
        s.mask() < 16,
    ensures
        mask_of(ordered_modifiers(s)) == s.mask(),
{
    let o = ordered_modifiers(s);
    lemma_mask_of(o, Modifier::Control);
    lemma_mask_of(o, Modifier::Alt);
    lemma_mask_of(o, Modifier::Shift);
    lemma_mask_of(o, Modifier::Logo);
    assert(o.contains(Modifier::Control) == s.has(Modifier::Control)) by {
        if s.has(Modifier::Control) { assert(o[0] == Modifier::Control); }
    }
    assert(o.contains(Modifier::Alt) == s.has(Modifier::Alt)) by {
        if s.has(Modifier::Alt) { assert(o[o.len() - 1 - (keep(s.has(Modifier::Shift), Modifier::Shift).len() + keep(s.has(Modifier::Logo), Modifier::Logo).len())] == Modifier::Alt); }
    }
    assert(o.contains(Modifier::Shift) == s.has(Modifier::Shift)) by {
        if s.has(Modifier::Shift) { assert(o[o.len() - 1 - keep(s.has(Modifier::Logo), Modifier::Logo).len()] == Modifier::Shift); }
    }
    assert(o.contains(Modifier::Logo) == s.has(Modifier::Logo)) by {
        if s.has(Modifier::Logo) { assert(o[o.len() - 1] == Modifier::Logo); }
    }
    let x = mask_of(o);
    let y = s.mask();
    assert(x < 16 && y < 16 && ((x & 1 != 0) == (y & 1 != 0)) && ((x & 2 != 0) == (y & 2 != 0)) && ((x
        & 4 != 0) == (y & 4 != 0)) && ((x & 8 != 0) == (y & 8 != 0)) ==> x == y) by (bit_vector);
}

#[derive(Debug, Clone, Copy, PartialEq, Eq, Structural, Hash)]
pub enum DeviceClass {
    Keyboard,
    Mouse,
    Touchpad,
    Touchscreen,
    AnyPointer,
}

pub open spec fn is_pointer(d: DeviceClass) -> bool {
    d == DeviceClass::Mouse || d == DeviceClass::Touchpad
}

/// Same device, or the any-pointer class against a mouse or touchpad.
pub open spec fn device_overlaps(a: DeviceClass, b: DeviceClass) -> bool {
    a == b || (a == DeviceClass::AnyPointer && is_pointer(b)) || (b == DeviceClass::AnyPointer
        && is_pointer(a))
}

impl DeviceClass {
    pub fn overlaps(self, other: Self) -> (r: bool)
        ensures
            r == device_overlaps(self, other),
    {
        self == other || (self == DeviceClass::AnyPointer && (other == DeviceClass::Mouse || other
            == DeviceClass::Touchpad)) || (other == DeviceClass::AnyPointer && (self
            == DeviceClass::Mouse || self == DeviceClass::Touchpad))
    }
}

#[derive(Debug, Clone, Copy, PartialEq, Eq, Structural, Hash)]
pub enum BindingContext {
    Global,
    Canvas,
    Window,
    WindowFrame,
    EmptyCanvas,
    Overview,
}

/// Global and Canvas overlap everything; Window pairs with WindowFrame and
/// Overview with EmptyCanvas.
pub open spec fn context_overlaps(a: BindingContext, b: BindingContext) -> bool {
    ||| a == b
    ||| a == BindingContext::Global || b == BindingContext::Global
    ||| a == BindingContext::Canvas || b == BindingContext::Canvas
    ||| (a == BindingContext::Window && b == BindingContext::WindowFrame)
    ||| (a == BindingContext::WindowFrame && b == BindingContext::Window)
    ||| (a == BindingContext::Overview && b == BindingContext::EmptyCanvas)
    ||| (a == BindingContext::EmptyCanvas && b == BindingContext::Overview)
}

impl BindingContext {
    pub fn overlaps(self, other: Self) -> (r: bool)
        ensures
            r == context_overlaps(self, other),
    {
        self == other || self == BindingContext::Global || other == BindingContext::Global || self
            == BindingContext::Canvas || other == BindingContext::Canvas || (self
            == BindingContext::Window && other == BindingContext::WindowFrame) || (self
            == BindingContext::WindowFrame && other == BindingContext::Window) || (self
            == BindingContext::Overview && other == BindingContext::EmptyCanvas) || (self
            == BindingContext::EmptyCanvas && other == BindingContext::Overview)
    }
}

#[derive(Debug, Clone, Copy, PartialEq, Eq, Structural, Hash)]
pub enum KeyPhase {
    Press,
    Release,
}

#[derive(Debug, Clone, Copy, PartialEq, Eq, Structural, Hash)]
pub enum ButtonCode {
    Primary,
    Secondary,
    Middle,
    Back,
    Forward,
}

#[derive(Debug, Clone, Copy, PartialEq, Eq, Structural, Hash)]
pub enum GestureKind {
    Swipe,
    Pinch,
    Hold,
    Touch,
}

#[derive(Debug, Clone, Copy, PartialEq, Eq, Structural, Hash)]
pub enum GestureDirection {
    Left,
    Right,
    Up,
    Down,
}

#[derive(Debug, Clone, Copy, PartialEq, Eq, Structural, Hash)]
pub enum GestureActivation {
    Begin,
    End,
}

#[derive(Debug, Clone, Copy, PartialEq, Eq, Structural, Hash)]
pub enum GestureOrigin {
    Anywhere,
    Window,
    WindowFrame,
    EmptyCanvas,
    Edge,
}

/// Same origin, Anywhere against anything, or Window against WindowFrame.
pub open spec fn origin_overlaps(a: GestureOrigin, b: GestureOrigin) -> bool {
    ||| a == b
    ||| a == GestureOrigin::Anywhere || b == GestureOrigin::Anywhere
    ||| (a == GestureOrigin::Window && b == GestureOrigin::WindowFrame)
    ||| (a == GestureOrigin::WindowFrame && b == GestureOrigin::Window)
}

impl GestureOrigin {
    pub fn overlaps(self, other: Self) -> (r: bool)
        ensures
            r == origin_overlaps(self, other),
    {
        self == other || self == GestureOrigin::Anywhere || other == GestureOrigin::Anywhere || (self
            == GestureOrigin::Window && other == GestureOrigin::WindowFrame) || (self
            == GestureOrigin::WindowFrame && other == GestureOrigin::Window)
    }
}

/// The trigger grammar of the binding document.
#[derive(Debug, PartialEq, Eq)]
pub enum Trigger {
    Key { key: String, modifiers: Vec<Modifier>, phase: KeyPhase },
    Button {
        button: ButtonCode,
        modifiers: Vec<Modifier>,
        device: DeviceClass,
        origin: GestureOrigin,
        phase: KeyPhase,
    },
    Gesture {
        gesture: GestureKind,
        device: DeviceClass,
        fingers: u8,
        origin: GestureOrigin,
        direction: Option<GestureDirection>,
        activation: GestureActivation,
    },
}

impl Clone for Trigger {
    fn clone(&self) -> (r: Self)
        ensures
            r@ == self@,
    {
        match self {
            Trigger::Key { key, modifiers, phase } => Trigger::Key {
                key: key.clone(),
                modifiers: modifiers.clone(),
                phase: *phase,
            },
            Trigger::Button { button, modifiers, device, origin, phase } => Trigger::Button {
                button: *button,
                modifiers: modifiers.clone(),
                device: *device,
                origin: *origin,
                phase: *phase,
            },
            Trigger::Gesture { gesture, device, fingers, origin, direction, activation } =>
                Trigger::Gesture {
                gesture: *gesture,
                device: *device,
                fingers: *fingers,
                origin: *origin,
                direction: *direction,
                activation: *activation,
            },
        }
    }
}

/// The content of a [`Trigger`].
pub enum TriggerV {
    Key { key: Seq<char>, modifiers: Seq<Modifier>, phase: KeyPhase },
    Button {
        button: ButtonCode,
        modifiers: Seq<Modifier>,
        device: DeviceClass,
        origin: GestureOrigin,
        phase: KeyPhase,
    },
    Gesture {
        gesture: GestureKind,
        device: DeviceClass,
        fingers: u8,
        origin: GestureOrigin,
        direction: Option<GestureDirection>,
        activation: GestureActivation,
    },
}

impl View for Trigger {
    type V = TriggerV;

    open spec fn view(&self) -> TriggerV {
        match self {
            Trigger::Key { key, modifiers, phase } => TriggerV::Key {
                key: key@,
                modifiers: modifiers@,
                phase: *phase,
            },
            Trigger::Button { button, modifiers, device, origin, phase } => TriggerV::Button {
                button: *button,
                modifiers: modifiers@,
                device: *device,
                origin: *origin,
                phase: *phase,
            },
            Trigger::Gesture { gesture, device, fingers, origin, direction, activation } =>
                TriggerV::Gesture {
                gesture: *gesture,
                device: *device,
                fingers: *fingers,
                origin: *origin,
                direction: *direction,
                activation: *activation,
            },
        }
    }
}

/// A trigger after normalization: lowercase trimmed key, canonical modifiers.
#[derive(Debug, PartialEq, Eq)]
pub enum CompiledTrigger {
    Key { key: String, modifiers: ModifierSet, phase: KeyPhase },
    Button {
        button: ButtonCode,
        modifiers: ModifierSet,
        device: DeviceClass,
        origin: GestureOrigin,
        phase: KeyPhase,
    },
    Gesture {
        gesture: GestureKind,
        device: DeviceClass,
        fingers: u8,
        origin: GestureOrigin,
        direction: Option<GestureDirection>,
        activation: GestureActivation,
    },
}

/// The content of a compiled or runtime trigger.
pub enum CompiledV {
    Key { key: Seq<char>, modifiers: ModifierSet, phase: KeyPhase },
    Button {
        button: ButtonCode,
        modifiers: ModifierSet,
        device: DeviceClass,
        origin: GestureOrigin,
        phase: KeyPhase,
    },
    Gesture {
        gesture: GestureKind,
        device: DeviceClass,
        fingers: u8,
        origin: GestureOrigin,
        direction: Option<GestureDirection>,
        activation: GestureActivation,
    },
}

impl View for CompiledTrigger {
    type V = CompiledV;

    open spec fn view(&self) -> CompiledV {
        match self {
            CompiledTrigger::Key { key, modifiers, phase } => CompiledV::Key {
                key: key@,
                modifiers: *modifiers,
                phase: *phase,
            },
            CompiledTrigger::Button { button, modifiers, device, origin, phase } =>
                CompiledV::Button {
                button: *button,
                modifiers: *modifiers,
                device: *device,
                origin: *origin,
                phase: *phase,
            },
            CompiledTrigger::Gesture { gesture, device, fingers, origin, direction, activation } =>
                CompiledV::Gesture {
                gesture: *gesture,
                device: *device,
                fingers: *fingers,
                origin: *origin,
                direction: *direction,
                activation: *activation,
            },
        }
    }
}

impl Clone for CompiledTrigger {
    fn clone(&self) -> (r: Self)
        ensures
            r@ == self@,
    {
        match self {
            CompiledTrigger::Key { key, modifiers, phase } => CompiledTrigger::Key {
                key: key.clone(),
                modifiers: *modifiers,
                phase: *phase,
            },
            CompiledTrigger::Button { button, modifiers, device, origin, phase } =>
                CompiledTrigger::Button {
                button: *button,
                modifiers: *modifiers,
                device: *device,
                origin: *origin,
                phase: *phase,
            },
            CompiledTrigger::Gesture { gesture, device, fingers, origin, direction, activation } =>
                CompiledTrigger::Gesture {
                gesture: *gesture,
                device: *device,
                fingers: *fingers,
                origin: *origin,
                direction: *direction,
                activation: *activation,
            },
        }
    }
}

/// The device class a compiled trigger needs.
pub open spec fn trigger_device(t: CompiledV) -> DeviceClass {
    match t {
        CompiledV::Key { .. } => DeviceClass::Keyboard,
        CompiledV::Button { device, .. } => device,
        CompiledV::Gesture { device, .. } => device,
    }
}

/// Two compiled triggers can fire for the same input.
pub open spec fn triggers_conflict(
    a: CompiledV,
    b: CompiledV,
    a_kind: ActionKind,
    b_kind: ActionKind,
) -> bool {
    let continuous = a_kind == ActionKind::Continuous || b_kind == ActionKind::Continuous;
    match (a, b) {
        (
            CompiledV::Key { key, modifiers, phase },
            CompiledV::Key { key: k2, modifiers: m2, phase: p2 },
        ) => key == k2 && modifiers == m2 && phase == p2,
        (
            CompiledV::Button { button, modifiers, device, origin, phase },
            CompiledV::Button { button: b2, modifiers: m2, device: d2, origin: o2, phase: p2 },
        ) => button == b2 && modifiers == m2 && device_overlaps(device, d2) && origin_overlaps(
            origin,
            o2,
        ) && (phase == p2 || continuous),
        (
            CompiledV::Gesture { gesture, device, fingers, origin, direction, activation },
            CompiledV::Gesture {
                gesture: g2,
                device: d2,
                fingers: f2,
                origin: o2,
                direction: dir2,
                activation: a2,
            },
        ) => gesture == g2 && device_overlaps(device, d2) && fingers == f2 && origin_overlaps(
            origin,
            o2,
        ) && (direction is None || dir2 is None || direction == dir2) && (activation == a2
            || continuous),
        _ => false,
    }
}

/// A compiled trigger accepts a runtime input for an action of `kind`.
pub open spec fn trigger_matches(t: CompiledV, input: CompiledV, kind: ActionKind) -> bool {
    match (t, input) {
        (
            CompiledV::Key { key, modifiers, phase },
            CompiledV::Key { key: k2, modifiers: m2, phase: p2 },
        ) => key == k2 && modifiers == m2 && phase == p2,
        (
            CompiledV::Button { button, modifiers, device, origin, phase },
            CompiledV::Button { button: b2, modifiers: m2, device: d2, origin: o2, phase: p2 },
        ) => button == b2 && modifiers == m2 && device_overlaps(device, d2) && origin_overlaps(
            origin,
            o2,
        ) && (if kind == ActionKind::Continuous {
            p2 == KeyPhase::Press
        } else {
            phase == p2
        }),
        (
            CompiledV::Gesture { gesture, device, fingers, origin, direction, activation },
            CompiledV::Gesture {
                gesture: g2,
                device: d2,
                fingers: f2,
                origin: o2,
                direction: dir2,
                activation: a2,
            },
        ) => gesture == g2 && device_overlaps(device, d2) && fingers == f2 && origin_overlaps(
            origin,
            o2,
        ) && (match direction {
            None => true,
            Some(d) => dir2 == Some(d),
        }) && (if kind == ActionKind::Continuous {
            a2 == GestureActivation::Begin
        } else {
            activation == a2
        }),
        _ => false,
    }
}

fn same_direction(a: Option<GestureDirection>, b: Option<GestureDirection>) -> (r: bool)
    ensures
        r == (a == b),
{
    match (a, b) {
        (None, None) => true,
        (Some(x), Some(y)) => x == y,
        _ => false,
    }
}

impl CompiledTrigger {
    pub fn device(&self) -> (r: DeviceClass)
        ensures
            r == trigger_device(self@),
    {
        match self {
            CompiledTrigger::Key { .. } => DeviceClass::Keyboard,
            CompiledTrigger::Button { device, .. } => *device,
            CompiledTrigger::Gesture { device, .. } => *device,
        }
    }

    pub fn conflicts(&self, other: &Self, own_kind: ActionKind, other_kind: ActionKind) -> (r: bool)
        ensures
            r == triggers_conflict(self@, other@, own_kind, other_kind),
    {
        let continuous = own_kind == ActionKind::Continuous || other_kind == ActionKind::Continuous;
        match (self, other) {
            (
                CompiledTrigger::Key { key, modifiers, phase },
                CompiledTrigger::Key { key: k2, modifiers: m2, phase: p2 },
            ) => key.eq(k2) && *modifiers == *m2 && *phase == *p2,
            (
                CompiledTrigger::Button { button, modifiers, device, origin, phase },
                CompiledTrigger::Button {
                    button: b2,
                    modifiers: m2,
                    device: d2,
                    origin: o2,
                    phase: p2,
                },
            ) => *button == *b2 && *modifiers == *m2 && device.overlaps(*d2) && origin.overlaps(*o2)
                && (*phase == *p2 || continuous),
            (
                CompiledTrigger::Gesture { gesture, device, fingers, origin, direction, activation },
                CompiledTrigger::Gesture {
                    gesture: g2,
                    device: d2,
                    fingers: f2,
                    origin: o2,
                    direction: dir2,
                    activation: a2,
                },
            ) => *gesture == *g2 && device.overlaps(*d2) && *fingers == *f2 && origin.overlaps(*o2)
                && (direction.is_none() || dir2.is_none() || same_direction(*direction, *dir2)) && (
            *activation == *a2 || continuous),
            _ => false,
        }
    }

    pub fn matches(&self, runtime: &RuntimeTrigger, action_kind: ActionKind) -> (r: bool)
        ensures
            r == trigger_matches(self@, runtime@, action_kind),
    {
        match (self, runtime) {
            (
                CompiledTrigger::Key { key, modifiers, phase },
                RuntimeTrigger::Key { key: k2, modifiers: m2, phase: p2 },
            ) => key.eq(k2) && *modifiers == *m2 && *phase == *p2,
            (
                CompiledTrigger::Button { button, modifiers, device, origin, phase },
                RuntimeTrigger::Button { button: b2, modifiers: m2, device: d2, origin: o2, phase: p2 },
            ) => *button == *b2 && *modifiers == *m2 && device.overlaps(*d2) && origin.overlaps(*o2)
                && if action_kind == ActionKind::Continuous {
                *p2 == KeyPhase::Press
            } else {
                *phase == *p2
            },
            (
                CompiledTrigger::Gesture { gesture, device, fingers, origin, direction, activation },
                RuntimeTrigger::Gesture {
                    gesture: g2,
                    device: d2,
                    fingers: f2,
                    origin: o2,
                    direction: dir2,
                    activation: a2,
                },
            ) => *gesture == *g2 && device.overlaps(*d2) && *fingers == *f2 && origin.overlaps(*o2)
                && (match direction {
                None => true,
                Some(d) => same_direction(Some(*d), *dir2),
            }) && if action_kind == ActionKind::Continuous {
                *a2 == GestureActivation::Begin
            } else {
                *activation == *a2
            },
            _ => false,
        }
    }
}

/// One host-normalized input trigger used to query an effective binding snapshot.
#[derive(Debug, PartialEq, Eq)]
pub enum RuntimeTrigger {
    Key { key: String, modifiers: ModifierSet, phase: KeyPhase },
    Button {
        button: ButtonCode,
        modifiers: ModifierSet,
        device: DeviceClass,
        origin: GestureOrigin,
        phase: KeyPhase,
    },
    Gesture {
        gesture: GestureKind,
        device: DeviceClass,
        fingers: u8,
        origin: GestureOrigin,
        direction: Option<GestureDirection>,
        activation: GestureActivation,
    },
}

impl View for RuntimeTrigger {
    type V = CompiledV;

    open spec fn view(&self) -> CompiledV {
        match self {
            RuntimeTrigger::Key { key, modifiers, phase } => CompiledV::Key {
                key: key@,
                modifiers: *modifiers,
                phase: *phase,
            },
            RuntimeTrigger::Button { button, modifiers, device, origin, phase } =>
                CompiledV::Button {
                button: *button,
                modifiers: *modifiers,
                device: *device,
                origin: *origin,
                phase: *phase,
            },
            RuntimeTrigger::Gesture { gesture, device, fingers, origin, direction, activation } =>
                CompiledV::Gesture {
                gesture: *gesture,
                device: *device,
                fingers: *fingers,
                origin: *origin,
                direction: *direction,
                activation: *activation,
            },
        }
    }
}

impl RuntimeTrigger {
    /// A key input, with the key name normalized like a compiled key trigger.
    pub fn key(key: &str, modifiers: ModifierSet, phase: KeyPhase) -> (r: Self)
        ensures
            r@ == (CompiledV::Key { key: normalized_key(key@), modifiers, phase }),
    {
        RuntimeTrigger::Key { key: normalize_key(key), modifiers, phase }
    }
}

/// The error a trigger draws for an action of `kind`, if any.
pub open spec fn trigger_error(t: TriggerV, kind: ActionKind) -> Option<BindingDiagnosticCode> {
    match t {
        TriggerV::Key { key, .. } => if trimmed(key).len() == 0 || encode_utf8(key).len()
            > MAX_IDENTIFIER_BYTES {
            Some(BindingDiagnosticCode::IncompatibleTrigger)
        } else if kind == ActionKind::Continuous {
            Some(BindingDiagnosticCode::IncompatibleTrigger)
        } else {
            None
        },
        TriggerV::Button { device, phase, .. } => if !(is_pointer(device) || device
            == DeviceClass::AnyPointer) {
            Some(BindingDiagnosticCode::IncompatibleTrigger)
        } else if kind == ActionKind::Continuous && phase != KeyPhase::Press {
            Some(BindingDiagnosticCode::IncompatibleTrigger)
        } else {
            None
        },
        TriggerV::Gesture { device, fingers, origin, direction, activation, .. } => if fingers == 0
            || fingers > 10 {
            Some(BindingDiagnosticCode::IncompatibleTrigger)
        } else if !(device == DeviceClass::Touchpad || device == DeviceClass::Touchscreen) {
            Some(BindingDiagnosticCode::IncompatibleTrigger)
        } else if device == DeviceClass::Touchpad && fingers == 2 {
            Some(BindingDiagnosticCode::ReservedClientGesture)
        } else if device == DeviceClass::Touchscreen && !(origin == GestureOrigin::EmptyCanvas
            || origin == GestureOrigin::Edge) {
            Some(BindingDiagnosticCode::ReservedClientGesture)
        } else if kind == ActionKind::Continuous && direction is Some {
            Some(BindingDiagnosticCode::IncompatibleTrigger)
        } else if kind == ActionKind::Continuous && activation != GestureActivation::Begin {
            Some(BindingDiagnosticCode::IncompatibleTrigger)
        } else {
            None
        },
    }
}

/// The message of the diagnostic that `trigger_error` reports.
pub open spec fn trigger_error_message(t: TriggerV, kind: ActionKind) -> Seq<char> {
    match t {
        TriggerV::Key { key, .. } => if trimmed(key).len() == 0 || encode_utf8(key).len()
            > MAX_IDENTIFIER_BYTES {
            "key name must be non-empty and bounded"@
        } else {
            "continuous actions require a button or gesture trigger"@
        },
        TriggerV::Button { device, phase, .. } => if !(is_pointer(device) || device
            == DeviceClass::AnyPointer) {
            "button triggers require mouse, touchpad or any_pointer"@
        } else {
            "continuous button actions must begin on press"@
        },
        TriggerV::Gesture { device, fingers, origin, direction, activation, .. } => if fingers == 0
            || fingers > 10 {
            "gesture finger count must be between 1 and 10"@
        } else if !(device == DeviceClass::Touchpad || device == DeviceClass::Touchscreen) {
            "gesture triggers require touchpad or touchscreen"@
        } else if device == DeviceClass::Touchpad && fingers == 2 {
            "two-finger touchpad gestures are reserved for clients"@
        } else if device == DeviceClass::Touchscreen && !(origin == GestureOrigin::EmptyCanvas
            || origin == GestureOrigin::Edge) {
            "touchscreen gestures are client-owned unless they begin on empty canvas or an edge"@
        } else if kind == ActionKind::Continuous && direction is Some {
            "continuous gestures cannot wait for a terminal direction"@
        } else {
            "continuous gesture actions must begin at gesture begin"@
        },
    }
}

/// The compiled form of an acceptable trigger.
pub open spec fn compiled_trigger(t: TriggerV) -> CompiledV {
    match t {
        TriggerV::Key { key, modifiers, phase } => CompiledV::Key {
            key: normalized_key(key),
            modifiers: ModifierSet::from_mask(mask_of(modifiers)),
            phase,
        },
        TriggerV::Button { button, modifiers, device, origin, phase } => CompiledV::Button {
            button,
            modifiers: ModifierSet::from_mask(mask_of(modifiers)),
            device,
            origin,
            phase,
        },
        TriggerV::Gesture { gesture, device, fingers, origin, direction, activation } =>
            CompiledV::Gesture { gesture, device, fingers, origin, direction, activation },
    }
}

fn trigger_diagnostic(
    code: BindingDiagnosticCode,
    binding_id: &str,
    message: &str,
) -> (d: BindingDiagnostic)
    ensures
        d.severity == BindingSeverity::Error,
        d.code == code,
        d.binding_id matches Some(b) && b@ == binding_id@,
        d.related_binding_id is None,
        d.message@ == message@,
{
    BindingDiagnostic::error(code, Some(binding_id), message)
}

/// Validates a trigger against the kind of its action and compiles it.
pub fn compile_trigger(binding_id: &str, trigger: &Trigger, action_kind: ActionKind) -> (r: Result<
    CompiledTrigger,
    BindingDiagnostic,
>)
    ensures
        match r {
            Ok(c) => trigger_error(trigger@, action_kind) is None && c@ == compiled_trigger(trigger@),
            Err(d) => trigger_error(trigger@, action_kind) == Some(d.code) && d.severity
                == BindingSeverity::Error && (d.binding_id matches Some(b) && b@ == binding_id@)
                && d.related_binding_id is None && d.message@ == trigger_error_message(
                trigger@,
                action_kind,
            ),
        },
{
    match trigger {
        Trigger::Key { key, modifiers, phase } => {
            if trim_text(key.as_str()).is_empty() || byte_len(key.as_str()) > MAX_IDENTIFIER_BYTES {
                return Err(
                    trigger_diagnostic(
                        BindingDiagnosticCode::IncompatibleTrigger,
                        binding_id,
                        "key name must be non-empty and bounded",
                    ),
                );
            }
            if action_kind == ActionKind::Continuous {
                return Err(
                    trigger_diagnostic(
                        BindingDiagnosticCode::IncompatibleTrigger,
                        binding_id,
                        "continuous actions require a button or gesture trigger",
                    ),
                );
            }
            Ok(
                CompiledTrigger::Key {
                    key: normalize_key(key.as_str()),
                    modifiers: ModifierSet::new(modifiers.as_slice()),
                    phase: *phase,
                },
            )
        },
        Trigger::Button { button, modifiers, device, origin, phase } => {
            if !(*device == DeviceClass::Mouse || *device == DeviceClass::Touchpad || *device
                == DeviceClass::AnyPointer) {
                return Err(
                    trigger_diagnostic(
                        BindingDiagnosticCode::IncompatibleTrigger,
                        binding_id,
                        "button triggers require mouse, touchpad or any_pointer",
                    ),
                );
            }
            if action_kind == ActionKind::Continuous && *phase != KeyPhase::Press {
                return Err(
                    trigger_diagnostic(
                        BindingDiagnosticCode::IncompatibleTrigger,
                        binding_id,
                        "continuous button actions must begin on press",
                    ),
                );
            }
            Ok(
                CompiledTrigger::Button {
                    button: *button,
                    modifiers: ModifierSet::new(modifiers.as_slice()),
                    device: *device,
                    origin: *origin,
                    phase: *phase,
                },
            )
        },
        Trigger::Gesture { gesture, device, fingers, origin, direction, activation } => {
            if *fingers == 0 || *fingers > 10 {
                return Err(
                    trigger_diagnostic(
                        BindingDiagnosticCode::IncompatibleTrigger,
                        binding_id,
                        "gesture finger count must be between 1 and 10",
                    ),
                );
            }
            if !(*device == DeviceClass::Touchpad || *device == DeviceClass::Touchscreen) {
                return Err(
                    trigger_diagnostic(
                        BindingDiagnosticCode::IncompatibleTrigger,
                        binding_id,
                        "gesture triggers require touchpad or touchscreen",
                    ),
                );
            }
            if *device == DeviceClass::Touchpad && *fingers == 2 {
                return Err(
                    trigger_diagnostic(
                        BindingDiagnosticCode::ReservedClientGesture,
                        binding_id,
                        "two-finger touchpad gestures are reserved for clients",
                    ),
                );
            }
            if *device == DeviceClass::Touchscreen && !(*origin == GestureOrigin::EmptyCanvas
                || *origin == GestureOrigin::Edge) {
                return Err(
                    trigger_diagnostic(
                        BindingDiagnosticCode::ReservedClientGesture,
                        binding_id,
                        "touchscreen gestures are client-owned unless they begin on empty canvas or an edge",
                    ),
                );
            }
            if action_kind == ActionKind::Continuous && direction.is_some() {
                return Err(
                    trigger_diagnostic(
                        BindingDiagnosticCode::IncompatibleTrigger,
                        binding_id,
                        "continuous gestures cannot wait for a terminal direction",
                    ),
                );
            }
            if action_kind == ActionKind::Continuous && *activation != GestureActivation::Begin {
                return Err(
                    trigger_diagnostic(
                        BindingDiagnosticCode::IncompatibleTrigger,
                        binding_id,
                        "continuous gesture actions must begin at gesture begin",
                    ),
                );
            }
            Ok(
                CompiledTrigger::Gesture {
                    gesture: *gesture,
                    device: *device,
                    fingers: *fingers,
                    origin: *origin,
                    direction: *direction,
                    activation: *activation,
                },
            )
        },
    }
}

/// Key and button triggers fire on press unless they say otherwise.
pub fn press_phase() -> (r: KeyPhase)
    ensures
        r == KeyPhase::Press,
{
    KeyPhase::Press
}

/// Button triggers accept any pointer unless they name a device.
pub fn any_pointer() -> (r: DeviceClass)
    ensures
        r == DeviceClass::AnyPointer,
{
    DeviceClass::AnyPointer
}

/// Gestures start anywhere unless they name an origin.
pub fn anywhere_origin() -> (r: GestureOrigin)
    ensures
        r == GestureOrigin::Anywhere,
{
    GestureOrigin::Anywhere
}

/// Gestures fire when they end unless they say otherwise.
pub fn gesture_end() -> (r: GestureActivation)
    ensures
        r == GestureActivation::End,
{
    GestureActivation::End
}

} // verus!
