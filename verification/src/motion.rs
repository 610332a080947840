//! Motion policy: families and their durations, accessibility modes, and the
//! decisions the runtime makes before any curve is sampled.

use std::time::Duration;

use vstd::prelude::*;

use crate::animation::{duration_nanos, from_millis, nanos};

verus! {

#[derive(Debug, Clone, Copy, PartialEq, Eq, Structural, Hash)]
pub enum MotionMode {
    Off,
    Reduced,
    Standard,
    Expressive,
}

#[derive(Debug, Clone, Copy, PartialEq, Eq, Structural, Hash)]
pub enum MotionFamily {
    HoverIn,
    HoverOut,
    Press,
    Release,
    Focus,
    Toggle,
    SliderTrail,
    ListTransfer,
    TextInputFocus,
    Validation,
    ScrollbarShow,
    ScrollbarHide,
    Overscroll,
    TooltipEnter,
    TooltipExit,
    PopoverEnter,
    PopoverExit,
    PanelEnter,
    PanelExit,
    DrawerEnter,
    DrawerExit,
    Workspace,
    Wallpaper,
}

#[derive(Debug, Clone, Copy, PartialEq, Eq, Structural)]
pub enum MotionError {
    InvalidCurve,
    InvalidFluidTuning,
    InvalidSpeedMultiplier,
}

impl MotionError {
    pub fn message(&self) -> (r: &'static str)
        ensures
            r@ == match self {
                MotionError::InvalidCurve => "motion curve must be finite with x coordinates in 0..=1"@,
                MotionError::InvalidFluidTuning => "invalid fluid motion tuning"@,
                MotionError::InvalidSpeedMultiplier => "motion speed multiplier must be finite and positive"@,
            },
    {
        match self {
            MotionError::InvalidCurve => "motion curve must be finite with x coordinates in 0..=1",
            MotionError::InvalidFluidTuning => "invalid fluid motion tuning",
            MotionError::InvalidSpeedMultiplier => "motion speed multiplier must be finite and positive",
        }
    }
}

/// How long each motion family runs, plus the reduced-motion transition.
#[derive(Debug, Clone, Copy, PartialEq)]
pub struct MotionDurations {
    pub reduced_transition: Duration,
    pub hover_in: Duration,
    pub hover_out: Duration,
    pub press: Duration,
    pub release: Duration,
    pub focus: Duration,
    pub toggle: Duration,
    pub slider_trail: Duration,
    pub list_transfer: Duration,
    pub text_input_focus: Duration,
    pub validation: Duration,
    pub scrollbar_show: Duration,
    pub scrollbar_hide: Duration,
    pub overscroll: Duration,
    pub tooltip_enter: Duration,
    pub tooltip_exit: Duration,
    pub popover_enter: Duration,
    pub popover_exit: Duration,
    pub panel_enter: Duration,
    pub panel_exit: Duration,
    pub drawer_enter: Duration,
    pub drawer_exit: Duration,
    pub workspace: Duration,
    pub wallpaper: Duration,
}

/// The duration the table gives a family.
pub open spec fn family_duration(d: MotionDurations, family: MotionFamily) -> Duration {
    match family {
        MotionFamily::HoverIn => d.hover_in,
        MotionFamily::HoverOut => d.hover_out,
        MotionFamily::Press => d.press,
        MotionFamily::Release => d.release,
        MotionFamily::Focus => d.focus,
        MotionFamily::Toggle => d.toggle,
        MotionFamily::SliderTrail => d.slider_trail,
        MotionFamily::ListTransfer => d.list_transfer,
        MotionFamily::TextInputFocus => d.text_input_focus,
        MotionFamily::Validation => d.validation,
        MotionFamily::ScrollbarShow => d.scrollbar_show,
        MotionFamily::ScrollbarHide => d.scrollbar_hide,
        MotionFamily::Overscroll => d.overscroll,
        MotionFamily::TooltipEnter => d.tooltip_enter,
        MotionFamily::TooltipExit => d.tooltip_exit,
        MotionFamily::PopoverEnter => d.popover_enter,
        MotionFamily::PopoverExit => d.popover_exit,
        MotionFamily::PanelEnter => d.panel_enter,
        MotionFamily::PanelExit => d.panel_exit,
        MotionFamily::DrawerEnter => d.drawer_enter,
        MotionFamily::DrawerExit => d.drawer_exit,
        MotionFamily::Workspace => d.workspace,
        MotionFamily::Wallpaper => d.wallpaper,
    }
}

/// The position of a family in declaration order.
pub open spec fn family_index(family: MotionFamily) -> int {
    match family {
        MotionFamily::HoverIn => 0,
        MotionFamily::HoverOut => 1,
        MotionFamily::Press => 2,
        MotionFamily::Release => 3,
        MotionFamily::Focus => 4,
        MotionFamily::Toggle => 5,
        MotionFamily::SliderTrail => 6,
        MotionFamily::ListTransfer => 7,
        MotionFamily::TextInputFocus => 8,
        MotionFamily::Validation => 9,
        MotionFamily::ScrollbarShow => 10,
        MotionFamily::ScrollbarHide => 11,
        MotionFamily::Overscroll => 12,
        MotionFamily::TooltipEnter => 13,
        MotionFamily::TooltipExit => 14,
        MotionFamily::PopoverEnter => 15,
        MotionFamily::PopoverExit => 16,
        MotionFamily::PanelEnter => 17,
        MotionFamily::PanelExit => 18,
        MotionFamily::DrawerEnter => 19,
        MotionFamily::DrawerExit => 20,
        MotionFamily::Workspace => 21,
        MotionFamily::Wallpaper => 22,
    }
}

/// The default length of each family, in milliseconds.
pub open spec fn default_family_millis(family: MotionFamily) -> nat {
    match family {
        MotionFamily::HoverIn => 120,
        MotionFamily::HoverOut => 160,
        MotionFamily::Press => 70,
        MotionFamily::Release => 140,
        MotionFamily::Focus => 140,
        MotionFamily::Toggle => 220,
        MotionFamily::SliderTrail => 90,
        MotionFamily::ListTransfer => 180,
        MotionFamily::TextInputFocus => 160,
        MotionFamily::Validation => 220,
        MotionFamily::ScrollbarShow => 100,
        MotionFamily::ScrollbarHide => 220,
        MotionFamily::Overscroll => 260,
        MotionFamily::TooltipEnter => 140,
        MotionFamily::TooltipExit => 110,
        MotionFamily::PopoverEnter => 180,
        MotionFamily::PopoverExit => 150,
        MotionFamily::PanelEnter => 280,
        MotionFamily::PanelExit => 220,
        MotionFamily::DrawerEnter => 320,
        MotionFamily::DrawerExit => 240,
        MotionFamily::Workspace => 300,
        MotionFamily::Wallpaper => 800,
    }
}

/// The longest duration a table may hold: one minute.
pub open spec fn max_motion_nanos() -> nat {
    60_000_000_000
}

/// Every duration of the table, the reduced transition included, is at most a minute.
pub open spec fn durations_valid(d: MotionDurations) -> bool {
    &&& duration_nanos(d.reduced_transition) <= max_motion_nanos()
    &&& forall|family: MotionFamily| duration_nanos(#[trigger] family_duration(d, family)) <= max_motion_nanos()
}

impl Default for MotionDurations {
    fn default() -> (r: Self)
        ensures
            duration_nanos(r.reduced_transition) == 100 * 1000000,
            forall|family: MotionFamily| #[trigger] duration_nanos(family_duration(r, family))
                == default_family_millis(family) * 1000000,
    {
        let r = MotionDurations {
            reduced_transition: from_millis(100),
            hover_in: from_millis(120),
            hover_out: from_millis(160),
            press: from_millis(70),
            release: from_millis(140),
            focus: from_millis(140),
            toggle: from_millis(220),
            slider_trail: from_millis(90),
            list_transfer: from_millis(180),
            text_input_focus: from_millis(160),
            validation: from_millis(220),
            scrollbar_show: from_millis(100),
            scrollbar_hide: from_millis(220),
            overscroll: from_millis(260),
            tooltip_enter: from_millis(140),
            tooltip_exit: from_millis(110),
            popover_enter: from_millis(180),
            popover_exit: from_millis(150),
            panel_enter: from_millis(280),
            panel_exit: from_millis(220),
            drawer_enter: from_millis(320),
            drawer_exit: from_millis(240),
            workspace: from_millis(300),
            wallpaper: from_millis(800),
        };
        proof {
            assert forall|family: MotionFamily| #[trigger] duration_nanos(family_duration(r, family))
                == default_family_millis(family) * 1000000 by {
                match family {
                    _ => {},
                }
            }
        }
        r
    }
}

impl MotionDurations {
    /// The duration of one family.
    pub fn get(self, family: MotionFamily) -> (r: Duration)
        ensures
            r == family_duration(self, family),
    {
        match family {
            MotionFamily::HoverIn => self.hover_in,
            MotionFamily::HoverOut => self.hover_out,
            MotionFamily::Press => self.press,
            MotionFamily::Release => self.release,
            MotionFamily::Focus => self.focus,
            MotionFamily::Toggle => self.toggle,
            MotionFamily::SliderTrail => self.slider_trail,
            MotionFamily::ListTransfer => self.list_transfer,
            MotionFamily::TextInputFocus => self.text_input_focus,
            MotionFamily::Validation => self.validation,
            MotionFamily::ScrollbarShow => self.scrollbar_show,
            MotionFamily::ScrollbarHide => self.scrollbar_hide,
            MotionFamily::Overscroll => self.overscroll,
            MotionFamily::TooltipEnter => self.tooltip_enter,
            MotionFamily::TooltipExit => self.tooltip_exit,
            MotionFamily::PopoverEnter => self.popover_enter,
            MotionFamily::PopoverExit => self.popover_exit,
            MotionFamily::PanelEnter => self.panel_enter,
            MotionFamily::PanelExit => self.panel_exit,
            MotionFamily::DrawerEnter => self.drawer_enter,
            MotionFamily::DrawerExit => self.drawer_exit,
            MotionFamily::Workspace => self.workspace,
            MotionFamily::Wallpaper => self.wallpaper,
        }
    }

    /// Whether no duration of the table exceeds one minute.
    pub fn is_valid(self) -> (r: bool)
        ensures
            r == durations_valid(self),
    {
        let maximum: u128 = 60_000_000_000;
        let all = [
            self.hover_in,
            self.hover_out,
            self.press,
            self.release,
            self.focus,
            self.toggle,
            self.slider_trail,
            self.list_transfer,
            self.text_input_focus,
            self.validation,
            self.scrollbar_show,
            self.scrollbar_hide,
            self.overscroll,
            self.tooltip_enter,
            self.tooltip_exit,
            self.popover_enter,
            self.popover_exit,
            self.panel_enter,
            self.panel_exit,
            self.drawer_enter,
            self.drawer_exit,
            self.workspace,
            self.wallpaper,
        ];
        let ghost families = seq![
            MotionFamily::HoverIn,
            MotionFamily::HoverOut,
            MotionFamily::Press,
            MotionFamily::Release,
            MotionFamily::Focus,
            MotionFamily::Toggle,
            MotionFamily::SliderTrail,
            MotionFamily::ListTransfer,
            MotionFamily::TextInputFocus,
            MotionFamily::Validation,
            MotionFamily::ScrollbarShow,
            MotionFamily::ScrollbarHide,
            MotionFamily::Overscroll,
            MotionFamily::TooltipEnter,
            MotionFamily::TooltipExit,
            MotionFamily::PopoverEnter,
            MotionFamily::PopoverExit,
            MotionFamily::PanelEnter,
            MotionFamily::PanelExit,
            MotionFamily::DrawerEnter,
            MotionFamily::DrawerExit,
            MotionFamily::Workspace,
            MotionFamily::Wallpaper,
        ];
        proof {
            assert forall|j: int| 0 <= j < 23 implies all@[j] == family_duration(self, #[trigger] families[j]) by {}
            assert forall|family: MotionFamily| #[trigger] families[family_index(family)] == family by {}
        }
        if nanos(self.reduced_transition) > maximum {
            return false;
        }
        let mut i: usize = 0;
        while i < 23
            invariant
                i <= 23,
                maximum == 60_000_000_000,
                families.len() == 23,
                all@.len() == 23,
                forall|j: int| 0 <= j < 23 ==> all@[j] == family_duration(self, #[trigger] families[j]),
                forall|j: int| 0 <= j < i ==> duration_nanos(#[trigger] all@[j]) <= max_motion_nanos(),
            decreases 23 - i,
        {
            if nanos(all[i]) > maximum {
                proof {
                    assert(!(duration_nanos(family_duration(self, families[i as int])) <= max_motion_nanos()));
                }
                return false;
            }
            i = i + 1;
        }
        proof {
            assert forall|family: MotionFamily| duration_nanos(#[trigger] family_duration(self, family))
                <= max_motion_nanos() by {
                let j = family_index(family);
                assert(families[j] == family);
                assert(all@[j] == family_duration(self, families[j]));
            }
        }
        true
    }
}

/// Whether a property changes geometry in screen space or only communicates a
/// state change without motion through space.
#[derive(Debug, Clone, Copy, PartialEq, Eq, Structural, Hash)]
pub enum MotionPropertyDomain {
    NonSpatial,
    Spatial,
}

/// Features which accessibility policy may remove independently of authored
/// style. Direct manipulation is never disabled.
#[derive(Debug, Clone, Copy, PartialEq, Eq, Structural, Hash)]
pub enum MotionFeature {
    DirectManipulation,
    SpatialPath,
    FluidTopology,
    Trail,
    Oscillation,
    ProceduralVariation,
    Inertia,
    IdleFluid,
}

/// Which authority decided an executed motion.
#[derive(Debug, Clone, Copy, PartialEq, Eq, Structural, Hash)]
pub enum MotionPolicySource {
    AuthoredStyle,
    ReducedPolicy,
    OffPolicy,
}

/// How a resolved motion runs.
#[derive(Debug, Clone, Copy, PartialEq, Eq, Structural, Hash)]
pub enum MotionTiming {
    /// At once, with no duration.
    Immediate,
    /// Over the reduced transition, on the reduced curve.
    Reduced,
    /// As the authored style says, scaled by the speed multiplier.
    Authored,
}

/// Whether a mode allows a feature: direct manipulation always, everything
/// else only in the standard and expressive modes.
pub open spec fn feature_allowed_spec(mode: MotionMode, feature: MotionFeature) -> bool {
    feature == MotionFeature::DirectManipulation || mode == MotionMode::Standard || mode
        == MotionMode::Expressive
}

pub fn feature_allowed(mode: MotionMode, feature: MotionFeature) -> (r: bool)
    ensures
        r == feature_allowed_spec(mode, feature),
{
    if feature == MotionFeature::DirectManipulation {
        return true;
    }
    match mode {
        MotionMode::Standard | MotionMode::Expressive => true,
        _ => false,
    }
}

/// The policy decision for a property: off mode and spatial properties under
/// reduced motion run at once; other properties under reduced motion take the
/// reduced transition; only the standard and expressive modes run the
/// authored style.
pub open spec fn policy_spec(mode: MotionMode, domain: MotionPropertyDomain) -> (MotionTiming, MotionPolicySource) {
    match mode {
        MotionMode::Off => (MotionTiming::Immediate, MotionPolicySource::OffPolicy),
        MotionMode::Reduced => match domain {
            MotionPropertyDomain::Spatial => (MotionTiming::Immediate, MotionPolicySource::ReducedPolicy),
            MotionPropertyDomain::NonSpatial => (MotionTiming::Reduced, MotionPolicySource::ReducedPolicy),
        },
        _ => (MotionTiming::Authored, MotionPolicySource::AuthoredStyle),
    }
}

pub fn motion_policy(mode: MotionMode, domain: MotionPropertyDomain) -> (r: (MotionTiming, MotionPolicySource))
    ensures
        r == policy_spec(mode, domain),
{
    match (mode, domain) {
        (MotionMode::Off, _) => (MotionTiming::Immediate, MotionPolicySource::OffPolicy),
        (MotionMode::Reduced, MotionPropertyDomain::Spatial) => (
            MotionTiming::Immediate,
            MotionPolicySource::ReducedPolicy,
        ),
        (MotionMode::Reduced, MotionPropertyDomain::NonSpatial) => (
            MotionTiming::Reduced,
            MotionPolicySource::ReducedPolicy,
        ),
        _ => (MotionTiming::Authored, MotionPolicySource::AuthoredStyle),
    }
}

/// Final policy cannot be bypassed: an authored style runs only in the
/// standard and expressive modes, and spatial motion never runs over time
/// when motion is reduced or off.
pub proof fn law_policy_is_final(mode: MotionMode, domain: MotionPropertyDomain)
    ensures
        policy_spec(mode, domain).1 == MotionPolicySource::AuthoredStyle <==> (mode == MotionMode::Standard
            || mode == MotionMode::Expressive),
        (mode == MotionMode::Off || mode == MotionMode::Reduced) && domain == MotionPropertyDomain::Spatial
            ==> policy_spec(mode, domain).0 == MotionTiming::Immediate,
        mode == MotionMode::Off ==> policy_spec(mode, domain).0 == MotionTiming::Immediate,
{
}

/// The reduced transition, capped at 100 milliseconds.
pub fn reduced_transition_duration(millis: u64) -> (r: Duration)
    ensures
        duration_nanos(r) == if millis <= 100 {
            millis * 1000000
        } else {
            100000000
        },
{
    if millis <= 100 {
        from_millis(millis)
    } else {
        from_millis(100)
    }
}

/// The identity of one run of a scalar or selection motion.
#[derive(Debug, Clone, Copy, PartialEq, Eq, Structural, Hash)]
pub struct MotionRunId(u64);

impl MotionRunId {
    pub closed spec fn value(self) -> u64 {
        self.0
    }

    pub fn get(self) -> (r: u64)
        ensures
            r == self.value(),
    {
        self.0
    }
}

/// Hands out run identities: never zero, one more each time, wrapping back to one.
pub struct RunIdAllocator {
    next: u64,
}

impl RunIdAllocator {
    pub closed spec fn next_spec(&self) -> u64 {
        self.next
    }

    pub fn new() -> (r: Self)
        ensures
            r.next_spec() == 1,
    {
        RunIdAllocator { next: 1 }
    }

    pub fn allocate(&mut self) -> (id: MotionRunId)
        ensures
            id.value() == if old(self).next_spec() == 0 {
                1
            } else {
                old(self).next_spec()
            },
            id.value() >= 1,
            final(self).next_spec() == if old(self).next_spec() == u64::MAX {
                1
            } else {
                (old(self).next_spec() + 1) as u64
            },
    {
        let id = MotionRunId(if self.next == 0 {
            1
        } else {
            self.next
        });
        self.next = if self.next == u64::MAX {
            1
        } else {
            self.next + 1
        };
        id
    }
}

#[derive(Debug, Clone, Copy, PartialEq, Eq, Structural, Hash)]
pub enum MotionTerminalReason {
    Completed,
    Interrupted,
    Cancelled,
}

/// How a run ended.
#[derive(Debug, Clone, Copy, PartialEq, Eq, Structural)]
pub struct MotionTerminal {
    pub run_id: MotionRunId,
    pub reason: MotionTerminalReason,
}

/// What starting a run did: the run begun, the run it ended, and whether it
/// ended at once.
#[derive(Debug, Clone, Copy, PartialEq, Eq, Structural)]
pub struct MotionBeginOutcome {
    pub began: Option<MotionRunId>,
    pub previous_terminal: Option<MotionTerminal>,
    pub immediate_terminal: Option<MotionTerminal>,
}

impl Default for MotionBeginOutcome {
    fn default() -> (r: Self)
        ensures
            r == (MotionBeginOutcome { began: None, previous_terminal: None, immediate_terminal: None }),
    {
        MotionBeginOutcome { began: None, previous_terminal: None, immediate_terminal: None }
    }
}

} // verus!
