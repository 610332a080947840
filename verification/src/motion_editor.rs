//! Motion curve editor vocabulary and its bounded undo history.

use std::time::Duration;

use vstd::prelude::*;

use crate::animation::{duration_nanos, nanos};
use std::collections::BTreeSet;

use vstd::std_specs::btree::{axiom_increasing_seq_meaning, increasing_seq, spec_btree_keys_iter};
use vstd::std_specs::cmp::OrdSpec;
use vstd::std_specs::iter::IteratorSpec;

use crate::motion_consumers::MotionCurveEditorError;

verus! {

broadcast use {vstd::laws_cmp::group_laws_cmp, vstd::std_specs::btree::group_btree_axioms};


/// The longest undo history an editor may keep.
pub const MAX_HISTORY: usize = 512;

#[derive(Debug, Clone, Copy, PartialEq, Eq, Structural, Hash)]
pub enum MotionEditorTimeAxis {
    Normalized,
    RealTime,
}

/// How the editor labels the time axis.
#[derive(Debug, Clone, Copy, PartialEq)]
pub struct MotionEditorAxis {
    pub mode: MotionEditorTimeAxis,
    pub duration: Duration,
}

#[derive(Debug, Clone, Copy, PartialEq, Eq, Structural, Hash)]
pub enum MotionCurveSource {
    Inherited,
    Explicit,
}

#[derive(Debug, Clone, Copy, PartialEq, Eq, Structural, Hash)]
pub enum MotionTangentMode {
    Automatic,
    Continuous,
    Broken,
    Corner,
}

#[derive(Debug, Clone, Copy, PartialEq, Eq, Structural, Hash)]
pub enum MotionEditorTangentSide {
    Incoming,
    Outgoing,
}

/// Identity of one editing gesture or transaction.
#[derive(Debug, Clone, Copy, PartialEq, Eq, Structural, Hash)]
pub struct MotionEditorEditId(pub u64);

/// What a finished transaction changed.
#[derive(Debug, Clone, Copy, PartialEq, Eq, Structural)]
pub struct MotionEditorTransactionOutcome {
    pub document_changed: bool,
    pub transient_changed: bool,
}

impl Default for MotionEditorTransactionOutcome {
    fn default() -> (r: Self)
        ensures
            r == (MotionEditorTransactionOutcome { document_changed: false, transient_changed: false }),
    {
        MotionEditorTransactionOutcome { document_changed: false, transient_changed: false }
    }
}

#[derive(Debug, Clone, Copy, PartialEq, Eq, Structural, Hash)]
pub struct MotionEditorModifiers {
    pub shift: bool,
    pub control: bool,
    pub alt: bool,
    pub logo: bool,
}

impl Default for MotionEditorModifiers {
    fn default() -> (r: Self)
        ensures
            r == (MotionEditorModifiers { shift: false, control: false, alt: false, logo: false }),
    {
        MotionEditorModifiers { shift: false, control: false, alt: false, logo: false }
    }
}

#[derive(Debug, Clone, Copy, PartialEq, Eq, Structural, Hash)]
pub enum MotionEditorKey {
    Tab,
    Enter,
    Space,
    Escape,
    ArrowLeft,
    ArrowRight,
    ArrowUp,
    ArrowDown,
    Home,
    End,
    Backspace,
    Delete,
    Character(char),
}

#[derive(Debug, Clone, Copy, PartialEq, Eq, Structural, Hash)]
pub enum MotionEditorGesturePhase {
    Begin,
    Update,
    End,
    Cancel,
}

#[derive(Debug, Clone, Copy, PartialEq, Eq, Structural, Hash)]
pub enum MotionEditorTarget {
    Anchor(usize),
    IncomingHandle(usize),
    OutgoingHandle(usize),
    Curve,
    Playhead,
    Graph,
}

/// A clipboard request the host carries out for the editor.
#[derive(Debug, Clone)]
pub enum MotionEditorClipboardAction {
    WriteText(String),
    ReadText,
}

/// What one input did to the editor.
#[derive(Debug, Clone)]
pub struct MotionEditorInputOutcome {
    pub document_changed: bool,
    pub transient_changed: bool,
    pub preview_pending: bool,
    pub clipboard: Option<MotionEditorClipboardAction>,
}

impl Default for MotionEditorInputOutcome {
    fn default() -> (r: Self)
        ensures
            !r.document_changed && !r.transient_changed && !r.preview_pending && r.clipboard is None,
    {
        MotionEditorInputOutcome {
            document_changed: false,
            transient_changed: false,
            preview_pending: false,
            clipboard: None,
        }
    }
}

/// An editable duration: positive and at most one minute.
pub fn validate_duration(duration: Duration) -> (r: Result<(), MotionCurveEditorError>)
    ensures
        r is Ok <==> 0 < duration_nanos(duration) <= 60_000_000_000,
        r is Err ==> r matches Err(MotionCurveEditorError::InvalidDuration),
{
    let n = nanos(duration);
    if n == 0 || n > 60_000_000_000 {
        Err(MotionCurveEditorError::InvalidDuration)
    } else {
        Ok(())
    }
}

/// What a key press asks of the curve editor.
#[derive(Debug, Clone, Copy, PartialEq, Eq, Structural)]
pub enum KeyCommand {
    /// A gesture is in progress; only Escape may interrupt it.
    Busy,
    CancelActive,
    ClearSelection,
    SelectAll,
    Copy,
    Paste,
    Undo,
    Redo,
    DeleteSelection,
    TogglePlayback,
    ScrubToStart,
    ScrubToEnd,
    CycleSelection { backwards: bool },
    /// Moves the selection one step left/right (`time`) or down/up
    /// (`progress`), coarsely with Shift.
    Nudge { time: i8, progress: i8, coarse: bool },
    Ignore,
}

pub open spec fn is_char(key: MotionEditorKey, lower: char, upper: char) -> bool {
    key == MotionEditorKey::Character(lower) || key == MotionEditorKey::Character(upper)
}

/// The command of a key: Escape cancels the active gesture or clears the
/// selection; with Control or Logo, A, C, V, Z (Shift+Z redoes) and Y are
/// the editing shortcuts; otherwise the arrows and h/j/k/l nudge, and Delete,
/// Backspace, Space, Home, End and Tab keep their usual meaning.
pub open spec fn key_command_spec(key: MotionEditorKey, modifiers: MotionEditorModifiers, active: bool) -> KeyCommand {
    if key == MotionEditorKey::Escape {
        if active {
            KeyCommand::CancelActive
        } else {
            KeyCommand::ClearSelection
        }
    } else if active {
        KeyCommand::Busy
    } else if modifiers.control || modifiers.logo {
        if is_char(key, 'a', 'A') {
            KeyCommand::SelectAll
        } else if is_char(key, 'c', 'C') {
            KeyCommand::Copy
        } else if is_char(key, 'v', 'V') {
            KeyCommand::Paste
        } else if is_char(key, 'z', 'Z') {
            if modifiers.shift {
                KeyCommand::Redo
            } else {
                KeyCommand::Undo
            }
        } else if is_char(key, 'y', 'Y') {
            KeyCommand::Redo
        } else {
            KeyCommand::Ignore
        }
    } else if key == MotionEditorKey::Delete || key == MotionEditorKey::Backspace {
        KeyCommand::DeleteSelection
    } else if key == MotionEditorKey::Space {
        KeyCommand::TogglePlayback
    } else if key == MotionEditorKey::Home {
        KeyCommand::ScrubToStart
    } else if key == MotionEditorKey::End {
        KeyCommand::ScrubToEnd
    } else if key == MotionEditorKey::Tab {
        KeyCommand::CycleSelection { backwards: modifiers.shift }
    } else if key == MotionEditorKey::ArrowLeft || is_char(key, 'h', 'H') {
        KeyCommand::Nudge { time: -1i8, progress: 0i8, coarse: modifiers.shift }
    } else if key == MotionEditorKey::ArrowRight || is_char(key, 'l', 'L') {
        KeyCommand::Nudge { time: 1i8, progress: 0i8, coarse: modifiers.shift }
    } else if key == MotionEditorKey::ArrowUp || is_char(key, 'k', 'K') {
        KeyCommand::Nudge { time: 0i8, progress: 1i8, coarse: modifiers.shift }
    } else if key == MotionEditorKey::ArrowDown || is_char(key, 'j', 'J') {
        KeyCommand::Nudge { time: 0i8, progress: -1i8, coarse: modifiers.shift }
    } else {
        KeyCommand::Ignore
    }
}

/// With Control or Logo held and no gesture active, Y redoes just as Shift+Z
/// does; Undo comes only from Control or Logo with Z and without Shift, and
/// Redo only from those shortcuts, never while a gesture is active.
pub proof fn law_undo_and_redo_shortcuts(key: MotionEditorKey, modifiers: MotionEditorModifiers, active: bool)
    ensures
        (modifiers.control || modifiers.logo) ==> {
            let shifted = MotionEditorModifiers { shift: true, ..modifiers };
            &&& key_command_spec(MotionEditorKey::Character('y'), modifiers, false) == KeyCommand::Redo
            &&& key_command_spec(MotionEditorKey::Character('Y'), modifiers, false) == KeyCommand::Redo
            &&& key_command_spec(MotionEditorKey::Character('z'), shifted, false) == KeyCommand::Redo
            &&& key_command_spec(MotionEditorKey::Character('Z'), shifted, false) == KeyCommand::Redo
        },
        key_command_spec(key, modifiers, active) == KeyCommand::Undo ==> {
            &&& !active
            &&& modifiers.control || modifiers.logo
            &&& !modifiers.shift
            &&& key == MotionEditorKey::Character('z') || key == MotionEditorKey::Character('Z')
        },
        key_command_spec(key, modifiers, active) == KeyCommand::Redo ==> {
            &&& !active
            &&& modifiers.control || modifiers.logo
            &&& (key == MotionEditorKey::Character('y') || key == MotionEditorKey::Character('Y') || (
            modifiers.shift && (key == MotionEditorKey::Character('z') || key
                == MotionEditorKey::Character('Z'))))
        },
{
}

/// The command a key press asks for, given whether a gesture is active.
pub fn key_command(key: MotionEditorKey, modifiers: MotionEditorModifiers, active: bool) -> (r: KeyCommand)
    ensures
        r == key_command_spec(key, modifiers, active),
{
    if key == MotionEditorKey::Escape {
        return if active {
            KeyCommand::CancelActive
        } else {
            KeyCommand::ClearSelection
        };
    }
    if active {
        return KeyCommand::Busy;
    }
    if modifiers.control || modifiers.logo {
        return match key {
            MotionEditorKey::Character('a') | MotionEditorKey::Character('A') => KeyCommand::SelectAll,
            MotionEditorKey::Character('c') | MotionEditorKey::Character('C') => KeyCommand::Copy,
            MotionEditorKey::Character('v') | MotionEditorKey::Character('V') => KeyCommand::Paste,
            MotionEditorKey::Character('z') | MotionEditorKey::Character('Z') => if modifiers.shift {
                KeyCommand::Redo
            } else {
                KeyCommand::Undo
            },
            MotionEditorKey::Character('y') | MotionEditorKey::Character('Y') => KeyCommand::Redo,
            _ => KeyCommand::Ignore,
        };
    }
    match key {
        MotionEditorKey::Delete | MotionEditorKey::Backspace => KeyCommand::DeleteSelection,
        MotionEditorKey::Space => KeyCommand::TogglePlayback,
        MotionEditorKey::Home => KeyCommand::ScrubToStart,
        MotionEditorKey::End => KeyCommand::ScrubToEnd,
        MotionEditorKey::Tab => KeyCommand::CycleSelection { backwards: modifiers.shift },
        MotionEditorKey::ArrowLeft | MotionEditorKey::Character('h') | MotionEditorKey::Character('H') => {
            KeyCommand::Nudge { time: -1, progress: 0, coarse: modifiers.shift }
        },
        MotionEditorKey::ArrowRight | MotionEditorKey::Character('l') | MotionEditorKey::Character('L') => {
            KeyCommand::Nudge { time: 1, progress: 0, coarse: modifiers.shift }
        },
        MotionEditorKey::ArrowUp | MotionEditorKey::Character('k') | MotionEditorKey::Character('K') => {
            KeyCommand::Nudge { time: 0, progress: 1, coarse: modifiers.shift }
        },
        MotionEditorKey::ArrowDown | MotionEditorKey::Character('j') | MotionEditorKey::Character('J') => {
            KeyCommand::Nudge { time: 0, progress: -1, coarse: modifiers.shift }
        },
        _ => KeyCommand::Ignore,
    }
}

/// The one editing transaction an editor may have open: its identity and
/// the state it started from, to compare against or restore.
pub struct TransactionSlot<T> {
    active: Option<(MotionEditorEditId, T)>,
}

impl<T> TransactionSlot<T> {
    pub closed spec fn active(&self) -> Option<(MotionEditorEditId, T)> {
        self.active
    }

    pub fn new() -> (r: Self)
        ensures
            r.active() is None,
    {
        TransactionSlot { active: None }
    }

    pub fn is_active(&self) -> (r: bool)
        ensures
            r == self.active() is Some,
    {
        self.active.is_some()
    }

    /// Opens transaction `id` from `start`; refused while another is open.
    pub fn begin(&mut self, id: MotionEditorEditId, start: T) -> (r: Result<(), MotionCurveEditorError>)
        ensures
            old(self).active() is Some ==> (r matches Err(MotionCurveEditorError::InteractionBusy)
                && final(self).active() == old(self).active()),
            old(self).active() is None ==> r is Ok && final(self).active() == Some((id, start)),
    {
        if self.active.is_some() {
            return Err(MotionCurveEditorError::InteractionBusy);
        }
        self.active = Some((id, start));
        Ok(())
    }

    /// Closes transaction `id` and hands back the state it started from. A
    /// different id leaves the open transaction untouched.
    pub fn take(&mut self, id: MotionEditorEditId) -> (r: Result<T, MotionCurveEditorError>)
        ensures
            match old(self).active() {
                None => r matches Err(MotionCurveEditorError::NoInteraction) && final(self).active() is None,
                Some((open, start)) => if open == id {
                    r == Ok::<T, MotionCurveEditorError>(start) && final(self).active() is None
                } else {
                    r matches Err(MotionCurveEditorError::WrongInteraction) && final(self).active()
                        == old(self).active()
                },
            },
    {
        match self.active.take() {
            None => Err(MotionCurveEditorError::NoInteraction),
            Some((open, start)) => {
                if open == id {
                    Ok(start)
                } else {
                    self.active = Some((open, start));
                    Err(MotionCurveEditorError::WrongInteraction)
                }
            },
        }
    }
}

/// The inner anchors of a curve of `count` anchors, `1 .. count - 1`: every
/// anchor but the two fixed endpoints.
pub open spec fn editable_anchors(count: int) -> Seq<usize> {
    if count >= 2 {
        Seq::new((count - 2) as nat, |i: int| (i + 1) as usize)
    } else {
        Seq::empty()
    }
}

/// `m` is the highest index of `s`.
pub open spec fn is_highest(s: Set<usize>, m: usize) -> bool {
    s.contains(m) && forall|x: usize| #[trigger] s.contains(x) ==> x <= m
}

/// The highest index of `s`, if it has one.
pub open spec fn highest(s: Set<usize>) -> Option<usize> {
    if exists|m: usize| is_highest(s, m) {
        Some(choose|m: usize| is_highest(s, m))
    } else {
        None
    }
}

proof fn lemma_highest_is(s: Set<usize>, m: usize)
    requires
        is_highest(s, m),
    ensures
        highest(s) == Some(m),
{
    let c = choose|c: usize| is_highest(s, c);
    assert(c <= m && m <= c);
}

proof fn lemma_highest_empty(s: Set<usize>)
    requires
        s =~= Set::<usize>::empty(),
    ensures
        highest(s) is None,
{
}

/// The highest index held by `s`.
fn highest_of(s: &BTreeSet<usize>) -> (r: Option<usize>)
    ensures
        r == highest(s@),
{
    let mut best: Option<usize> = None;
    let ghost q = IteratorSpec::remaining(&spec_btree_keys_iter(s));
    let ghost mut count: int = 0;
    for x in it: s.iter()
        invariant
            it.seq() == q,
            count == it.index(),
            best == if count == 0 {
                None
            } else {
                Some(*q[count - 1])
            },
    {
        best = Some(*x);
        proof {
            count = count + 1;
        }
    }
    assert(count == q.len());
    proof {
        assert(q.unref().to_set() == s@);
        assert(increasing_seq(q));
        axiom_increasing_seq_meaning::<&usize>(q);
        if let Some(m) = best {
            assert(q.unref()[q.len() - 1] == m);
            assert(s@.contains(m));
            assert forall|x: usize| #[trigger] s@.contains(x) implies x <= m by {
                assert(q.unref().to_set().contains(x));
                let k = choose|k: int| 0 <= k < q.len() && q.unref()[k] == x;
                if k < q.len() - 1 {
                    assert(OrdSpec::cmp_spec(&q[k], &q[q.len() - 1]) is Less);
                }
            }
            lemma_highest_is(s@, m);
        } else {
            assert forall|x: usize| !s@.contains(x) by {
                assert(!q.unref().to_set().contains(x));
            }
            lemma_highest_empty(s@);
        }
    }
    best
}

/// The indices of `s` below `count`.
fn below(s: &BTreeSet<usize>, count: usize) -> (r: BTreeSet<usize>)
    ensures
        r@ == s@.filter(|i: usize| i < count),
        r@.finite(),
{
    let mut kept: BTreeSet<usize> = BTreeSet::new();
    let ghost q = IteratorSpec::remaining(&spec_btree_keys_iter(s));
    let ghost mut count_seen: int = 0;
    for x in it: s.iter()
        invariant
            it.seq() == q,
            count_seen == it.index(),
            kept@.finite(),
            kept@ == q.unref().take(count_seen).to_set().filter(|i: usize| i < count),
    {
        let v = *x;
        proof {
            assert(q.unref().take(count_seen + 1) =~= q.unref().take(count_seen).push(v));
            q.unref().take(count_seen).lemma_push_to_set_commute(v);
            assert(q.unref().take(count_seen + 1).to_set() =~= q.unref().take(count_seen).to_set().insert(v));
        }
        if v < count {
            kept.insert(v);
            proof {
                assert(kept@ =~= q.unref().take(count_seen + 1).to_set().filter(|i: usize| i < count));
            }
        } else {
            proof {
                assert(kept@ =~= q.unref().take(count_seen + 1).to_set().filter(|i: usize| i < count));
            }
        }
        proof {
            count_seen = count_seen + 1;
        }
    }
    assert(count_seen == q.len());
    proof {
        assert(q.unref().take(count_seen) =~= q.unref());
        assert(q.unref().to_set() == s@);
    }
    kept
}

/// Whether `s` holds exactly the editable anchors of a curve of `count` anchors.
fn holds_exactly_editable(s: &BTreeSet<usize>, count: usize) -> (r: bool)
    ensures
        r == (s@ == editable_anchors(count as int).to_set()),
{
    let ghost want = editable_anchors(count as int).to_set();
    let ghost q = IteratorSpec::remaining(&spec_btree_keys_iter(s));
    let ghost mut seen: int = 0;
    let mut inside = true;
    for x in it: s.iter()
        invariant
            it.seq() == q,
            seen == it.index(),
            want == editable_anchors(count as int).to_set(),
            inside == forall|j: int| 0 <= j < seen ==> #[trigger] want.contains(q.unref()[j]),
    {
        let v = *x;
        proof {
            assert(want.contains(v) == (1 <= v && v + 1 < count)) by {
                if 1 <= v && v + 1 < count {
                    assert(editable_anchors(count as int)[v - 1] == v);
                }
            }
        }
        if !(1 <= v && v < count && v + 1 < count) {
            inside = false;
        }
        proof {
            seen = seen + 1;
        }
    }
    assert(seen == q.len());
    assert(q.unref().to_set() == s@);
    if !inside {
        proof {
            let j = choose|j: int| 0 <= j < seen && !#[trigger] want.contains(q.unref()[j]);
            assert(s@.contains(q.unref()[j]));
        }
        return false;
    }
    let mut i: usize = 1;
    while i < count && i + 1 < count
        invariant
            1 <= i,
            want == editable_anchors(count as int).to_set(),
            forall|v: usize| 1 <= v < i ==> #[trigger] s@.contains(v),
        decreases count - i,
    {
        if !s.contains(&i) {
            proof {
                assert(editable_anchors(count as int)[i - 1] == i);
                assert(want.contains(i));
            }
            return false;
        }
        i = i + 1;
    }
    proof {
        assert forall|v: usize| #[trigger] s@.contains(v) == want.contains(v) by {
            assert(want.contains(v) == (1 <= v && v + 1 < count)) by {
                if 1 <= v && v + 1 < count {
                    assert(editable_anchors(count as int)[v - 1] == v);
                }
            }
            if s@.contains(v) {
                let j = choose|j: int| 0 <= j < q.len() && q.unref()[j] == v;
                assert(want.contains(q.unref()[j]));
            }
        }
        assert(s@ =~= want);
    }
    true
}

/// The selected anchors of a curve and the primary one among them.
pub struct AnchorSelection {
    selected: BTreeSet<usize>,
    primary: Option<usize>,
}

impl AnchorSelection {
    /// The selected anchor indices.
    pub closed spec fn selected(&self) -> Set<usize> {
        self.selected@
    }

    pub closed spec fn primary_spec(&self) -> Option<usize> {
        self.primary
    }

    /// The selection is finite, and there is a primary anchor exactly when
    /// something is selected, and it is selected.
    #[verifier::type_invariant]
    pub closed spec fn well_formed(&self) -> bool {
        &&& self.selected@.finite()
        &&& (self.primary is None <==> self.selected@ == Set::<usize>::empty())
        &&& (self.primary matches Some(p) ==> self.selected@.contains(p))
    }

    pub proof fn lemma_well_formed(&self)
        requires
            self.well_formed(),
        ensures
            self.selected().finite(),
            self.primary_spec() is None <==> self.selected() == Set::<usize>::empty(),
            self.primary_spec() matches Some(p) ==> self.selected().contains(p),
    {
    }

    pub fn new() -> (r: Self)
        ensures
            r.selected() == Set::<usize>::empty(),
            r.primary_spec() is None,
    {
        AnchorSelection { selected: BTreeSet::new(), primary: None }
    }

    pub fn primary(&self) -> (r: Option<usize>)
        ensures
            r == self.primary_spec(),
    {
        self.primary
    }

    pub fn contains(&self, index: usize) -> (r: bool)
        ensures
            r == self.selected().contains(index),
    {
        self.selected.contains(&index)
    }

    /// Drops every selection; says whether anything was selected.
    pub fn clear(&mut self) -> (changed: bool)
        ensures
            changed == (old(self).selected() != Set::<usize>::empty()),
            final(self).selected() == Set::<usize>::empty(),
            final(self).primary_spec() is None,
    {
        let changed = !self.selected.is_empty();
        *self = AnchorSelection { selected: BTreeSet::new(), primary: None };
        changed
    }

    /// Selects every anchor but the endpoints of a curve of `count` anchors;
    /// the last of them becomes primary. Says whether the selection changed.
    pub fn select_all_editable(&mut self, count: usize) -> (changed: bool)
        ensures
            final(self).selected() == editable_anchors(count as int).to_set(),
            changed == (old(self).selected() != editable_anchors(count as int).to_set()),
            final(self).primary_spec() == if count >= 3 {
                Some((count - 2) as usize)
            } else {
                None::<usize>
            },
    {
        let changed = !holds_exactly_editable(&self.selected, count);
        let mut next: BTreeSet<usize> = BTreeSet::new();
        if count >= 2 {
            let mut i: usize = 1;
            while i < count - 1
                invariant
                    count >= 2,
                    1 <= i <= count - 1,
                    next@.finite(),
                    next@ =~= Seq::new((i - 1) as nat, |k: int| (k + 1) as usize).to_set(),
                decreases count - 1 - i,
            {
                let ghost before = Seq::new((i - 1) as nat, |k: int| (k + 1) as usize);
                next.insert(i);
                proof {
                    let after = Seq::new(i as nat, |k: int| (k + 1) as usize);
                    assert(after =~= before.push(i));
                    before.lemma_push_to_set_commute(i);
                    assert(after.to_set() =~= before.to_set().insert(i));
                }
                i = i + 1;
            }
        }
        proof {
            assert(next@ =~= editable_anchors(count as int).to_set());
        }
        let primary = if count >= 3 {
            Some(count - 2)
        } else {
            None
        };
        proof {
            if count >= 3 {
                assert(editable_anchors(count as int)[count - 3] == count - 2);
                assert(next@.contains((count - 2) as usize));
            } else {
                assert(next@ =~= Set::<usize>::empty());
            }
        }
        *self = AnchorSelection { selected: next, primary };
        changed
    }

    /// Selects anchor `index` of a curve of `count` anchors: alone, added to
    /// the selection (`extend`), or toggled (`toggle`). A toggled-off primary
    /// hands primacy to the highest remaining anchor. Says whether the
    /// selection changed.
    pub fn select(&mut self, index: usize, extend: bool, toggle: bool, count: usize) -> (r: Result<
        bool,
        MotionCurveEditorError,
    >)
        ensures
            index >= count ==> (r matches Err(MotionCurveEditorError::MissingAnchor(i)) && i == index
                && final(self).selected() == old(self).selected() && final(self).primary_spec()
                == old(self).primary_spec()),
            index < count ==> {
                let base = if !extend && !toggle {
                    Set::<usize>::empty()
                } else {
                    old(self).selected()
                };
                if toggle && base.contains(index) {
                    &&& final(self).selected() == base.remove(index)
                    &&& final(self).primary_spec() == if old(self).primary_spec() == Some(index) {
                        highest(final(self).selected())
                    } else {
                        old(self).primary_spec()
                    }
                } else {
                    &&& final(self).selected() == base.insert(index)
                    &&& final(self).primary_spec() == Some(index)
                }
            },
            r matches Ok(changed) ==> changed == (old(self).selected() != final(self).selected()),
    {
        if index >= count {
            return Err(MotionCurveEditorError::MissingAnchor(index));
        }
        proof {
            use_type_invariant(&*self);
        }
        let was_selected = self.selected.contains(&index);
        if !extend && !toggle {
            let alone = was_selected && self.selected.len() == 1;
            proof {
                if alone {
                    assert(self.selected@.remove(index).len() == 0);
                    assert(self.selected@.remove(index) =~= Set::<usize>::empty());
                    assert(self.selected@ =~= Set::<usize>::empty().insert(index));
                } else {
                    assert(Set::<usize>::empty().insert(index).len() == 1);
                }
            }
            let mut next: BTreeSet<usize> = BTreeSet::new();
            next.insert(index);
            *self = AnchorSelection { selected: next, primary: Some(index) };
            return Ok(!alone);
        }
        if toggle && was_selected {
            let ghost before = self.selected@;
            let mut next = self.selected.clone();
            next.remove(&index);
            let primary = if self.primary == Some(index) {
                highest_of(&next)
            } else {
                self.primary
            };
            proof {
                if self.primary == Some(index) {
                    if let Some(m) = primary {
                        let c = choose|c: usize| is_highest(next@, c);
                        assert(is_highest(next@, c));
                    } else {
                        if !(next@ =~= Set::<usize>::empty()) {
                            let x = next@.choose();
                            assert(next@.contains(x));
                            assert(exists|m: usize| is_highest(next@, m)) by {
                                assert(next@.finite());
                                lemma_finite_has_highest(next@);
                            }
                        }
                    }
                }
                assert(!next@.contains(index));
                assert(before.contains(index));
            }
            *self = AnchorSelection { selected: next, primary };
            return Ok(true);
        }
        let mut next = self.selected.clone();
        next.insert(index);
        proof {
            if was_selected {
                assert(next@ =~= self.selected@);
            }
            assert(next@ == self.selected@.insert(index));
            assert(next@.finite());
            assert(next@.contains(index));
            assert(next@ != Set::<usize>::empty());
        }
        *self = AnchorSelection { selected: next, primary: Some(index) };
        Ok(!was_selected)
    }

    /// Forgets anchors a curve of `count` anchors no longer has; a forgotten
    /// primary hands primacy to the highest remaining anchor.
    pub fn reconcile(&mut self, count: usize)
        ensures
            final(self).selected() == old(self).selected().filter(|i: usize| i < count),
            final(self).primary_spec() == if old(self).primary_spec() matches Some(p) && p >= count {
                highest(final(self).selected())
            } else {
                old(self).primary_spec()
            },
    {
        proof {
            use_type_invariant(&*self);
        }
        let next = below(&self.selected, count);
        let primary = match self.primary {
            Some(p) if p >= count => highest_of(&next),
            other => other,
        };
        proof {
            if let Some(p) = primary {
                if self.primary matches Some(q) && q >= count {
                    let c = choose|c: usize| is_highest(next@, c);
                    assert(is_highest(next@, c));
                } else {
                    assert(next@.contains(p));
                }
            } else {
                if self.primary matches Some(q) && q >= count {
                    if !(next@ =~= Set::<usize>::empty()) {
                        lemma_finite_has_highest(next@);
                    }
                } else {
                    assert(self.selected@ =~= Set::<usize>::empty());
                    assert(next@ =~= Set::<usize>::empty());
                }
            }
        }
        *self = AnchorSelection { selected: next, primary };
    }
}

/// A finite non-empty set of indices has a highest one.
proof fn lemma_finite_has_highest(s: Set<usize>)
    requires
        s.finite(),
        !(s =~= Set::<usize>::empty()),
    ensures
        exists|m: usize| is_highest(s, m),
    decreases s.len(),
{
    let x = s.choose();
    let rest = s.remove(x);
    if rest =~= Set::<usize>::empty() {
        assert(is_highest(s, x));
    } else {
        lemma_finite_has_highest(rest);
        let m = choose|m: usize| is_highest(rest, m);
        if m >= x {
            assert(is_highest(s, m));
        } else {
            assert(is_highest(s, x));
        }
    }
}

/// The anchor that Tab selects next among `count` anchors: the following one
/// (wrapping to the first), or with `backwards` the preceding one (wrapping to
/// the last); without a primary anchor, the first or the last.
pub fn next_cycle_index(current: Option<usize>, count: usize, backwards: bool) -> (r: usize)
    requires
        backwards && (current is None || current == Some(0usize)) ==> count > 0,
    ensures
        r == match (current, backwards) {
            (None, true) => (count - 1) as usize,
            (Some(i), true) => if i == 0 {
                (count - 1) as usize
            } else {
                (i - 1) as usize
            },
            (Some(i), false) => if i + 1 < count {
                (i + 1) as usize
            } else {
                0
            },
            (None, false) => 0,
        },
{
    match (current, backwards) {
        (None, true) => count - 1,
        (Some(0), true) => count - 1,
        (Some(index), true) => index - 1,
        (Some(index), false) => if index < count && index + 1 < count {
            index + 1
        } else {
            0
        },
        (None, false) => 0,
    }
}

/// Selecting everything editable never selects a fixed endpoint: every
/// index lies strictly between the first and the last anchor.
pub proof fn law_editable_excludes_endpoints(count: usize)
    ensures
        forall|k: int|
            0 <= k < editable_anchors(count as int).len() ==> 1 <= #[trigger] editable_anchors(count as int)[k]
                && editable_anchors(count as int)[k] + 1 < count,
        count >= 2 ==> editable_anchors(count as int).len() == count - 2,
{
}

/// Bounded undo and redo stacks of document states.
pub struct EditHistory<T> {
    limit: usize,
    undo: Vec<T>,
    redo: Vec<T>,
}

impl<T> EditHistory<T> {
    /// The states undo steps back through, oldest first.
    pub closed spec fn undo_states(&self) -> Seq<T> {
        self.undo@
    }

    /// The states redo steps forward through, the next one last.
    pub closed spec fn redo_states(&self) -> Seq<T> {
        self.redo@
    }

    pub closed spec fn limit(&self) -> nat {
        self.limit as nat
    }

    pub open spec fn well_formed(&self) -> bool {
        1 <= self.limit() <= MAX_HISTORY && self.undo_states().len() <= self.limit()
    }

    /// An empty history keeping at most `limit` undo steps; the limit must
    /// lie in `1..=512`.
    pub fn new(limit: usize) -> (r: Result<Self, MotionCurveEditorError>)
        ensures
            1 <= limit <= MAX_HISTORY ==> (r matches Ok(h) && h.well_formed() && h.limit() == limit
                && h.undo_states().len() == 0 && h.redo_states().len() == 0),
            !(1 <= limit <= MAX_HISTORY) ==> r matches Err(MotionCurveEditorError::InvalidConfig),
    {
        if limit < 1 || limit > MAX_HISTORY {
            return Err(MotionCurveEditorError::InvalidConfig);
        }
        Ok(EditHistory { limit, undo: Vec::new(), redo: Vec::new() })
    }

    pub fn can_undo(&self) -> (r: bool)
        ensures
            r == (self.undo_states().len() > 0),
    {
        self.undo.len() > 0
    }

    pub fn can_redo(&self) -> (r: bool)
        ensures
            r == (self.redo_states().len() > 0),
    {
        self.redo.len() > 0
    }

    /// Appends an undo step, dropping the oldest ones beyond the limit.
    fn push_undo_keeping_redo(&mut self, state: T)
        requires
            old(self).well_formed(),
        ensures
            final(self).well_formed(),
            final(self).limit() == old(self).limit(),
            final(self).redo_states() == old(self).redo_states(),
            final(self).undo_states() == bounded(old(self).undo_states().push(state), old(self).limit()),
    {
        self.undo.push(state);
        let ghost pushed = self.undo@;
        if self.undo.len() > self.limit {
            self.undo.remove(0);
            proof {
                assert(self.undo@ =~= pushed.skip(1));
            }
        } else {
            proof {
                assert(pushed.skip(0) =~= pushed);
            }
        }
    }

    /// Records the state before an edit: a new undo step, and no redo.
    pub fn record(&mut self, state: T)
        requires
            old(self).well_formed(),
        ensures
            final(self).well_formed(),
            final(self).limit() == old(self).limit(),
            final(self).undo_states() == bounded(old(self).undo_states().push(state), old(self).limit()),
            final(self).redo_states().len() == 0,
    {
        self.push_undo_keeping_redo(state);
        self.redo.clear();
    }

    /// Steps back: hands out the last recorded state and keeps `current` for
    /// redo; with nothing to undo, hands `current` back unchanged.
    pub fn undo(&mut self, current: T) -> (r: (T, bool))
        requires
            old(self).well_formed(),
        ensures
            final(self).well_formed(),
            final(self).limit() == old(self).limit(),
            old(self).undo_states().len() == 0 ==> r == (current, false) && *final(self) == *old(self),
            old(self).undo_states().len() > 0 ==> {
                &&& r == (old(self).undo_states().last(), true)
                &&& final(self).undo_states() == old(self).undo_states().drop_last()
                &&& final(self).redo_states() == old(self).redo_states().push(current)
            },
    {
        if self.undo.len() == 0 {
            return (current, false);
        }
        match self.undo.pop() {
            None => (current, false),
            Some(previous) => {
                self.redo.push(current);
                (previous, true)
            },
        }
    }

    /// Steps forward again: hands out the next redo state and records
    /// `current` for undo; with nothing to redo, hands `current` back unchanged.
    pub fn redo(&mut self, current: T) -> (r: (T, bool))
        requires
            old(self).well_formed(),
        ensures
            final(self).well_formed(),
            final(self).limit() == old(self).limit(),
            old(self).redo_states().len() == 0 ==> r == (current, false) && *final(self) == *old(self),
            old(self).redo_states().len() > 0 ==> {
                &&& r == (old(self).redo_states().last(), true)
                &&& final(self).redo_states() == old(self).redo_states().drop_last()
                &&& final(self).undo_states() == bounded(old(self).undo_states().push(current), old(self).limit())
            },
    {
        if self.redo.len() == 0 {
            return (current, false);
        }
        match self.redo.pop() {
            None => (current, false),
            Some(next) => {
                self.push_undo_keeping_redo(current);
                (next, true)
            },
        }
    }

    /// Forgets every step.
    pub fn clear(&mut self)
        requires
            old(self).well_formed(),
        ensures
            final(self).well_formed(),
            final(self).limit() == old(self).limit(),
            final(self).undo_states().len() == 0,
            final(self).redo_states().len() == 0,
    {
        self.undo.clear();
        self.redo.clear();
    }
}

/// A stack of steps cut to its newest `limit` entries.
pub open spec fn bounded<T>(steps: Seq<T>, limit: nat) -> Seq<T> {
    if steps.len() > limit {
        steps.skip(steps.len() - limit)
    } else {
        steps
    }
}

/// Undo then redo restores both the document and the history: the step
/// undone comes back, and the history returns to what it was.
pub proof fn law_undo_then_redo<T>(before: EditHistory<T>, current: T, middle: EditHistory<T>, undone: T, after: EditHistory<T>, redone: T)
    requires
        before.well_formed(),
        before.undo_states().len() > 0,
        middle.undo_states() == before.undo_states().drop_last(),
        middle.redo_states() == before.redo_states().push(current),
        middle.limit() == before.limit(),
        undone == before.undo_states().last(),
        after.redo_states() == middle.redo_states().drop_last(),
        after.undo_states() == bounded(middle.undo_states().push(undone), middle.limit()),
        redone == middle.redo_states().last(),
    ensures
        redone == current,
        after.undo_states() == before.undo_states(),
        after.redo_states() == before.redo_states(),
{
    assert(before.undo_states().drop_last().push(before.undo_states().last()) =~= before.undo_states());
    assert(before.redo_states().push(current).drop_last() =~= before.redo_states());
}

} // verus!
