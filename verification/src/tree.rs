//! Widget identity, dirty-pass masks and the generational widget arena.

use std::ops::BitOr;

use vstd::prelude::*;
use vstd::std_specs::convert::FromSpecImpl;
use vstd::std_specs::ops::BitOrSpecImpl;

verus! {

/// Stable arena identity. Reusing a slot changes its generation, so stale
/// focus, capture and reactive subscriptions cannot target a new widget.
#[derive(Debug, Clone, Copy, PartialEq, Eq, Structural, Hash)]
pub struct WidgetId {
    index: u32,
    generation: u32,
}

impl WidgetId {
    pub closed spec fn index_spec(self) -> u32 {
        self.index
    }

    pub closed spec fn generation_spec(self) -> u32 {
        self.generation
    }

    pub fn index(self) -> (r: u32)
        ensures
            r == self.index_spec(),
    {
        self.index
    }

    pub fn generation(self) -> (r: u32)
        ensures
            r == self.generation_spec(),
    {
        self.generation
    }
}

/// Explicit sibling reconciliation key.
#[derive(Debug, Clone, Copy, PartialEq, Eq, Structural, Hash)]
pub struct WidgetKey(pub u64);

impl From<u64> for WidgetKey {
    fn from(value: u64) -> (r: Self) {
        WidgetKey(value)
    }
}

impl FromSpecImpl<u64> for WidgetKey {
    open spec fn obeys_from_spec() -> bool {
        true
    }

    open spec fn from_spec(v: u64) -> Self {
        WidgetKey(v)
    }
}

pub const LAYOUT_BIT: u8 = 1;

pub const PAINT_BIT: u8 = 2;

pub const SEMANTICS_BIT: u8 = 4;

/// Dirty-pass mask. Layout invalidation always also requires paint.
#[derive(Debug, Clone, Copy, PartialEq, Eq, Structural, Hash)]
pub struct Invalidation(u8);

/// A mask with layout widened to layout and paint.
pub open spec fn expanded_bits(bits: u8) -> u8 {
    if bits & LAYOUT_BIT == LAYOUT_BIT {
        bits | PAINT_BIT
    } else {
        bits
    }
}

impl Invalidation {
    /// No pass.
    pub fn none() -> (r: Self)
        ensures
            r.bits() == 0,
    {
        Invalidation(0)
    }

    /// Layout only.
    pub fn layout() -> (r: Self)
        ensures
            r.bits() == LAYOUT_BIT,
    {
        Invalidation(LAYOUT_BIT)
    }

    /// Paint only.
    pub fn paint() -> (r: Self)
        ensures
            r.bits() == PAINT_BIT,
    {
        Invalidation(PAINT_BIT)
    }

    /// Semantics only.
    pub fn semantics() -> (r: Self)
        ensures
            r.bits() == SEMANTICS_BIT,
    {
        Invalidation(SEMANTICS_BIT)
    }

    /// Every pass.
    pub fn all() -> (r: Self)
        ensures
            r.bits() == 7,
    {
        Invalidation(7)
    }

    /// The passes of the mask as bits: layout 1, paint 2, semantics 4.
    pub closed spec fn bits(self) -> u8 {
        self.0
    }

    /// Only the three pass bits can be set.
    #[verifier::type_invariant]
    closed spec fn only_pass_bits(self) -> bool {
        self.0 < 8
    }

    /// The mask as bits; never above 7.
    pub fn bit_mask(self) -> (r: u8)
        ensures
            r == self.bits(),
            r < 8,
    {
        proof {
            use_type_invariant(&self);
        }
        self.0
    }

    /// Whether every pass in `other` is also in `self`.
    pub fn contains(self, other: Self) -> (r: bool)
        ensures
            r == (self.bits() & other.bits() == other.bits()),
            self.bits() < 8,
            other.bits() < 8,
    {
        proof {
            use_type_invariant(&self);
            use_type_invariant(&other);
        }
        self.0 & other.0 == other.0
    }

    pub fn is_empty(self) -> (r: bool)
        ensures
            r == (self.bits() == 0),
    {
        self.0 == 0
    }

    /// Layout widened to layout and paint.
    pub fn expanded(self) -> (r: Self)
        ensures
            r.bits() == expanded_bits(self.bits()),
    {
        proof {
            use_type_invariant(&self);
        }
        if self.contains(Invalidation::layout()) {
            let v = self.0;
            assert(v < 8 ==> v | 2u8 < 8) by (bit_vector);
            Invalidation(self.0 | PAINT_BIT)
        } else {
            self
        }
    }

    /// The passes of `self` that are not in `other`.
    pub fn remove(&mut self, other: Self)
        ensures
            final(self).bits() == old(self).bits() & !other.bits(),
    {
        proof {
            use_type_invariant(&*self);
        }
        let v = self.0;
        let w = other.0;
        assert(v < 8 ==> v & !w < 8) by (bit_vector);
        self.0 = v & !w;
    }

    /// The union of two masks, as a value.
    pub closed spec fn union_spec(self, other: Self) -> Self {
        Invalidation(expanded_bits(self.0 | other.0))
    }

    /// The passes of both masks, layout widened to layout and paint.
    pub fn union(self, other: Self) -> (r: Self)
        ensures
            r == self.union_spec(other),
            r.bits() == expanded_bits(self.bits() | other.bits()),
    {
        proof {
            use_type_invariant(&self);
            use_type_invariant(&other);
        }
        let v = self.0;
        let w = other.0;
        assert(v < 8 && w < 8 ==> v | w < 8) by (bit_vector);
        Invalidation(v | w).expanded()
    }
}

impl BitOr for Invalidation {
    type Output = Invalidation;

    fn bitor(self, rhs: Self) -> (r: Self::Output) {
        self.union(rhs)
    }
}

impl BitOrSpecImpl for Invalidation {
    open spec fn obeys_bitor_spec() -> bool {
        true
    }

    open spec fn bitor_req(self, rhs: Invalidation) -> bool {
        true
    }

    closed spec fn bitor_spec(self, rhs: Invalidation) -> Invalidation {
        Invalidation(expanded_bits(self.0 | rhs.0))
    }
}

/// A union never loses a pass of either side, and layout always brings paint.
pub proof fn law_union_keeps_passes(a: Invalidation, b: Invalidation)
    ensures
        ({
            let u = expanded_bits(a.bits() | b.bits());
            &&& u & a.bits() == a.bits()
            &&& u & b.bits() == b.bits()
            &&& (u & LAYOUT_BIT == LAYOUT_BIT ==> u & PAINT_BIT == PAINT_BIT)
        }),
{
    let x = a.bits();
    let y = b.bits();
    assert(((x | y) | 2u8) & x == x) by (bit_vector);
    assert(((x | y) | 2u8) & y == y) by (bit_vector);
    assert((x | y) & x == x) by (bit_vector);
    assert((x | y) & y == y) by (bit_vector);
    assert(((x | y) | 2u8) & 2u8 == 2u8) by (bit_vector);
}

/// Every mask contains the empty mask and itself, and the full mask
/// contains every mask.
pub proof fn law_full_mask_contains_all(x: Invalidation)
    requires
        x.bits() < 8,
    ensures
        x.bits() & 0u8 == 0u8,
        x.bits() & x.bits() == x.bits(),
        7u8 & x.bits() == x.bits(),
{
    let v = x.bits();
    assert(v & 0u8 == 0u8) by (bit_vector);
    assert(v & v == v) by (bit_vector);
    assert(v < 8 ==> 7u8 & v == v) by (bit_vector);
}

/// The outcome of dispatching one event.
#[derive(Debug, Clone, Copy, PartialEq, Eq, Structural)]
pub struct DispatchResult {
    pub target: Option<WidgetId>,
    pub handled: bool,
    pub focused: Option<WidgetId>,
    pub pointer_capture: Option<WidgetId>,
}

impl Default for DispatchResult {
    fn default() -> (r: Self)
        ensures
            r == (DispatchResult { target: None, handled: false, focused: None, pointer_capture: None }),
    {
        DispatchResult { target: None, handled: false, focused: None, pointer_capture: None }
    }
}

/// Errors of the widget tree that do not come from the renderer.
#[derive(Debug)]
pub enum UiError {
    InvalidConstraints,
    InvalidSize,
    SizeOutsideConstraints,
    InvalidRect,
    InvalidInsets,
    InvalidGap,
    InvalidFlex,
    InvalidEvent,
    InvalidAnimationDuration,
    LayoutRequired,
    DuplicateKey(WidgetKey),
    WidgetCapacityExceeded,
    MissingWidget(WidgetId),
    StateTypeMismatch(&'static str),
    UnexpectedChildCount { expected_maximum: usize, actual: usize },
    TextResourcesRequired,
    Text(String),
}

/// One arena slot: its current generation and the node it holds, if any.
pub struct Slot<T> {
    pub generation: u32,
    pub node: Option<T>,
}

/// Generational storage for widget nodes. Released slots are reused with a
/// new generation, so an id of a removed widget never reaches its successor.
pub struct Arena<T> {
    slots: Vec<Slot<T>>,
    free: Vec<u32>,
}

impl<T> Arena<T> {
    /// The generation of each slot.
    pub closed spec fn generations(&self) -> Seq<u32> {
        self.slots@.map_values(|s: Slot<T>| s.generation)
    }

    /// The node held by each slot.
    pub closed spec fn nodes(&self) -> Seq<Option<T>> {
        self.slots@.map_values(|s: Slot<T>| s.node)
    }

    /// The released slot indices, the last one reused first.
    pub closed spec fn free_list(&self) -> Seq<u32> {
        self.free@
    }

    /// The node an id reaches: the node of its slot, if the generations agree.
    pub open spec fn lookup(&self, id: WidgetId) -> Option<T> {
        if id.index_spec() < self.nodes().len() && self.generations()[id.index_spec() as int]
            == id.generation_spec() {
            self.nodes()[id.index_spec() as int]
        } else {
            None
        }
    }

    pub open spec fn well_formed(&self) -> bool {
        &&& self.nodes().len() == self.generations().len()
        &&& self.nodes().len() <= u32::MAX + 1
        &&& self.free_list().no_duplicates()
        &&& forall|i: int|
            0 <= i < self.free_list().len() ==> #[trigger] self.free_list()[i] < self.nodes().len()
                && self.nodes()[self.free_list()[i] as int] is None
        &&& forall|i: int| 0 <= i < self.generations().len() ==> #[trigger] self.generations()[i] >= 1
    }

    pub fn new() -> (r: Self)
        ensures
            r.well_formed(),
            r.nodes().len() == 0,
            r.free_list().len() == 0,
    {
        let r = Arena { slots: Vec::new(), free: Vec::new() };
        assert(r.nodes() =~= Seq::<Option<T>>::empty());
        assert(r.generations() =~= Seq::<u32>::empty());
        r
    }

    /// Stores a node, reusing the most recently released slot if there is one.
    pub fn allocate(&mut self, node: T) -> (r: Result<WidgetId, UiError>)
        requires
            old(self).well_formed(),
        ensures
            final(self).well_formed(),
            old(self).free_list().len() > 0 ==> (r matches Ok(id) && id.index_spec() == old(self).free_list().last()
                && id.generation_spec() == old(self).generations()[id.index_spec() as int]
                && final(self).free_list() == old(self).free_list().drop_last()
                && final(self).generations() == old(self).generations()
                && final(self).nodes() == old(self).nodes().update(id.index_spec() as int, Some(node))),
            old(self).free_list().len() == 0 && old(self).nodes().len() <= u32::MAX ==> (r matches Ok(id)
                && id.index_spec() == old(self).nodes().len() && id.generation_spec() == 1
                && final(self).free_list() == old(self).free_list()
                && final(self).generations() == old(self).generations().push(1)
                && final(self).nodes() == old(self).nodes().push(Some(node))),
            old(self).free_list().len() == 0 && old(self).nodes().len() > u32::MAX ==> (r matches Err(
                UiError::WidgetCapacityExceeded,
            ) && *final(self) == *old(self)),
            r matches Ok(id) ==> old(self).lookup(id) is None && final(self).lookup(id) == Some(node)
                && forall|other: WidgetId| other != id ==> #[trigger] final(self).lookup(other) == old(self).lookup(other),
    {
        let ghost old_nodes = self.nodes();
        let ghost old_generations = self.generations();
        if self.free.len() > 0 {
            let index = self.free.pop().unwrap();
            proof {
                assert(old(self).free_list()[old(self).free_list().len() - 1] == index);
            }
            let mut slots = Vec::new();
            std::mem::swap(&mut slots, &mut self.slots);
            let generation = slots[index as usize].generation;
            let ghost before = slots@;
            slots.set(index as usize, Slot { generation, node: Some(node) });
            self.slots = slots;
            let id = WidgetId { index, generation };
            proof {
                assert(self.nodes() =~= old_nodes.update(index as int, Some(node)));
                assert(self.generations() =~= old_generations);
                assert forall|i: int| 0 <= i < self.free_list().len() implies #[trigger] self.free_list()[i]
                    < self.nodes().len() && self.nodes()[self.free_list()[i] as int] is None by {
                    assert(self.free_list()[i] == old(self).free_list()[i]);
                    assert(self.free_list()[i] != index);
                }
                assert forall|other: WidgetId| other != id implies #[trigger] self.lookup(other)
                    == old(self).lookup(other) by {
                    if other.index_spec() == index {
                        assert(other.generation_spec() != generation);
                    }
                }
            }
            return Ok(id);
        }
        if self.slots.len() > 4294967295usize {
            return Err(UiError::WidgetCapacityExceeded);
        }
        let index = self.slots.len() as u32;
        self.slots.push(Slot { generation: 1, node: Some(node) });
        let id = WidgetId { index, generation: 1 };
        proof {
            assert(self.nodes() =~= old_nodes.push(Some(node)));
            assert(self.generations() =~= old_generations.push(1));
            assert forall|other: WidgetId| other != id implies #[trigger] self.lookup(other)
                == old(self).lookup(other) by {
                if other.index_spec() == index {
                    assert(other.generation_spec() != 1u32);
                }
            }
        }
        Ok(id)
    }

    /// The node an id reaches, if any.
    pub fn get(&self, id: WidgetId) -> (r: Option<&T>)
        requires
            self.well_formed(),
        ensures
            match r {
                Some(node) => self.lookup(id) == Some(*node),
                None => self.lookup(id) is None,
            },
    {
        let index = id.index as usize;
        if index >= self.slots.len() {
            return None;
        }
        let slot = &self.slots[index];
        if slot.generation != id.generation {
            return None;
        }
        match &slot.node {
            Some(node) => Some(node),
            None => None,
        }
    }

    /// Takes the node out of its slot, leaving the slot empty but reserved.
    pub fn take(&mut self, id: WidgetId) -> (r: Result<T, UiError>)
        requires
            old(self).well_formed(),
        ensures
            final(self).well_formed(),
            final(self).free_list() == old(self).free_list(),
            final(self).generations() == old(self).generations(),
            match old(self).lookup(id) {
                Some(node) => r matches Ok(n) && n == node && final(self).nodes() == old(self).nodes().update(
                    id.index_spec() as int,
                    None,
                ),
                None => r matches Err(UiError::MissingWidget(missing)) && missing == id && final(self).nodes()
                    == old(self).nodes(),
            },
    {
        let index = id.index as usize;
        if index >= self.slots.len() || self.slots[index].generation != id.generation {
            return Err(UiError::MissingWidget(id));
        }
        let ghost old_nodes = self.nodes();
        let ghost old_generations = self.generations();
        let mut slots = Vec::new();
        std::mem::swap(&mut slots, &mut self.slots);
        let generation = slots[index].generation;
        let ghost before = slots@;
        let slot = slots.remove(index);
        slots.insert(index, Slot { generation, node: None });
        proof {
            assert(slot == before[index as int]);
            assert(slots@ =~= before.update(index as int, Slot { generation, node: None }));
        }
        let taken = slot.node;
        self.slots = slots;
        proof {
            assert(self.generations() =~= old_generations);
            assert(self.nodes() =~= old_nodes.update(index as int, None));
        }
        match taken {
            Some(node) => Ok(node),
            None => {
                proof {
                    assert(self.nodes() =~= old_nodes);
                }
                Err(UiError::MissingWidget(id))
            },
        }
    }

    /// Puts a taken node back into its reserved slot.
    pub fn restore(&mut self, id: WidgetId, node: T)
        requires
            old(self).well_formed(),
            id.index_spec() < old(self).nodes().len(),
            old(self).generations()[id.index_spec() as int] == id.generation_spec(),
            old(self).nodes()[id.index_spec() as int] is None,
            !old(self).free_list().contains(id.index_spec()),
        ensures
            final(self).well_formed(),
            final(self).free_list() == old(self).free_list(),
            final(self).generations() == old(self).generations(),
            final(self).nodes() == old(self).nodes().update(id.index_spec() as int, Some(node)),
            final(self).lookup(id) == Some(node),
    {
        let index = id.index as usize;
        let ghost old_nodes = self.nodes();
        let ghost old_generations = self.generations();
        let mut slots = Vec::new();
        std::mem::swap(&mut slots, &mut self.slots);
        let generation = slots[index].generation;
        slots.set(index, Slot { generation, node: Some(node) });
        self.slots = slots;
        proof {
            assert(self.generations() =~= old_generations);
            assert(self.nodes() =~= old_nodes.update(index as int, Some(node)));
            assert forall|i: int| 0 <= i < self.free_list().len() implies #[trigger] self.free_list()[i]
                < self.nodes().len() && self.nodes()[self.free_list()[i] as int] is None by {
                assert(self.free_list()[i] != id.index_spec());
            }
        }
    }

    /// Frees the reserved slot of a taken node: its generation moves on, so
    /// `id` and every earlier id of the slot stop reaching anything.
    pub fn release(&mut self, id: WidgetId)
        requires
            old(self).well_formed(),
            id.index_spec() < old(self).nodes().len(),
            old(self).generations()[id.index_spec() as int] == id.generation_spec(),
            old(self).nodes()[id.index_spec() as int] is None,
            !old(self).free_list().contains(id.index_spec()),
        ensures
            final(self).well_formed(),
            final(self).free_list() == old(self).free_list().push(id.index_spec()),
            final(self).nodes() == old(self).nodes(),
            final(self).generations() == old(self).generations().update(
                id.index_spec() as int,
                next_generation(id.generation_spec()),
            ),
            final(self).lookup(id) is None,
    {
        let index = id.index as usize;
        let ghost old_nodes = self.nodes();
        let ghost old_generations = self.generations();
        let mut slots = Vec::new();
        std::mem::swap(&mut slots, &mut self.slots);
        let generation = if slots[index].generation == u32::MAX {
            1
        } else {
            slots[index].generation + 1
        };
        slots.set(index, Slot { generation, node: None });
        self.slots = slots;
        self.free.push(id.index);
        proof {
            assert(self.generations() =~= old_generations.update(index as int, generation));
            assert(self.nodes() =~= old_nodes);
            assert forall|i: int, j: int|
                0 <= i < self.free_list().len() && 0 <= j < self.free_list().len() && i != j implies self.free_list()[i]
                != self.free_list()[j] by {
                let before = old(self).free_list();
                if i == self.free_list().len() - 1 {
                    assert(self.free_list()[j] == before[j]);
                    assert(before.contains(before[j]));
                } else if j == self.free_list().len() - 1 {
                    assert(self.free_list()[i] == before[i]);
                    assert(before.contains(before[i]));
                }
            }
        }
    }
}

/// The generation a slot takes when it is released: one more, wrapping past
/// the largest value to one.
pub open spec fn next_generation(generation: u32) -> u32 {
    if generation == u32::MAX {
        1
    } else {
        (generation + 1) as u32
    }
}

/// Releasing a slot always gives it a generation different from the one it
/// had, so the released id cannot reach the slot's next node.
pub proof fn law_release_changes_generation(generation: u32)
    requires
        generation >= 1,
    ensures
        next_generation(generation) != generation,
        next_generation(generation) >= 1,
{
}

/// The position of the first occurrence of `id` in `order`, if any.
pub open spec fn position_of(order: Seq<WidgetId>, id: WidgetId) -> Option<int>
    decreases order.len(),
{
    if order.len() == 0 {
        None
    } else {
        match position_of(order.drop_last(), id) {
            Some(p) => Some(p),
            None => if order.last() == id {
                Some(order.len() - 1)
            } else {
                None
            },
        }
    }
}

/// The focus target after Tab (or Shift+Tab with `backwards`) over the
/// focusable widgets in tree order: the next one, wrapping around; the
/// previous one, wrapping around; or, when focus is outside the order, the
/// first or the last.
pub open spec fn next_focus_spec(order: Seq<WidgetId>, focused: Option<WidgetId>, backwards: bool) -> Option<WidgetId> {
    if order.len() == 0 {
        None
    } else {
        let current = match focused {
            Some(id) => position_of(order, id),
            None => None,
        };
        let index = match (current, backwards) {
            (None, true) => order.len() - 1,
            (Some(i), true) => if i == 0 {
                order.len() - 1
            } else {
                i - 1
            },
            (Some(i), false) => (i + 1) % (order.len() as int),
            (None, false) => 0,
        };
        Some(order[index])
    }
}

proof fn lemma_position_prefix(order: Seq<WidgetId>, id: WidgetId, k: int)
    requires
        0 <= k <= order.len(),
        position_of(order.take(k), id) is Some,
    ensures
        position_of(order, id) == position_of(order.take(k), id),
    decreases order.len() - k,
{
    if k < order.len() {
        assert(order.take(k + 1).drop_last() =~= order.take(k));
        lemma_position_prefix(order, id, k + 1);
    } else {
        assert(order.take(k) =~= order);
    }
}

/// Where keyboard focus moves on Tab or Shift+Tab, among the focusable
/// widgets of the focus scope in tree order.
pub fn next_focus(order: &Vec<WidgetId>, focused: Option<WidgetId>, backwards: bool) -> (r: Option<WidgetId>)
    ensures
        r == next_focus_spec(order@, focused, backwards),
{
    let n = order.len();
    if n == 0 {
        return None;
    }
    let mut current: Option<usize> = None;
    if let Some(id) = focused {
        let mut i: usize = 0;
        while i < n && current.is_none()
            invariant
                n == order@.len(),
                i <= n,
                current is None ==> position_of(order@.take(i as int), id) is None,
                current matches Some(c) ==> c < n && position_of(order@, id) == Some(c as int),
            decreases n - i, if current is None { 1int } else { 0int },
        {
            proof {
                assert(order@.take(i + 1).drop_last() =~= order@.take(i as int));
            }
            if order[i] == id {
                proof {
                    lemma_position_prefix(order@, id, i + 1);
                }
                current = Some(i);
            } else {
                i = i + 1;
            }
        }
        proof {
            if current is None {
                assert(order@.take(n as int) =~= order@);
            }
        }
    }
    let index = match (current, backwards) {
        (None, true) => n - 1,
        (Some(0), true) => n - 1,
        (Some(i), true) => i - 1,
        (Some(i), false) => if i + 1 < n {
            i + 1
        } else {
            0
        },
        (None, false) => 0,
    };
    proof {
        if let Some(i) = current {
            if !backwards {
                let a = i + 1;
                let m = n as int;
                assert(a <= m);
                assert((a % m) == if a < m { a } else { 0 }) by (nonlinear_arith)
                    requires
                        0 < a <= m,
                ;
            }
        }
    }
    Some(order[index])
}

/// The first child key that repeats an earlier sibling's key, if any.
pub open spec fn first_repeated_key(keys: Seq<Option<WidgetKey>>) -> Option<WidgetKey>
    decreases keys.len(),
{
    if keys.len() == 0 {
        None
    } else {
        match first_repeated_key(keys.drop_last()) {
            Some(k) => Some(k),
            None => match keys.last() {
                Some(k) => if keys.drop_last().contains(Some(k)) {
                    Some(k)
                } else {
                    None
                },
                None => None,
            },
        }
    }
}

proof fn lemma_repeated_prefix(keys: Seq<Option<WidgetKey>>, k: int)
    requires
        0 <= k <= keys.len(),
        first_repeated_key(keys.take(k)) is Some,
    ensures
        first_repeated_key(keys) == first_repeated_key(keys.take(k)),
    decreases keys.len() - k,
{
    if k < keys.len() {
        assert(keys.take(k + 1).drop_last() =~= keys.take(k));
        lemma_repeated_prefix(keys, k + 1);
    } else {
        assert(keys.take(k) =~= keys);
    }
}

/// No explicit key occurs at two positions.
pub open spec fn explicit_keys_distinct(keys: Seq<Option<WidgetKey>>) -> bool {
    forall|i: int, j: int|
        0 <= i < j < keys.len() && (#[trigger] keys[i]) is Some ==> keys[i] != #[trigger] keys[j]
}

/// A repeat is reported exactly when two positions hold the same explicit
/// key, wherever they stand; the key reported is such a repeated key.
pub proof fn law_repeats_found_anywhere(keys: Seq<Option<WidgetKey>>)
    ensures
        first_repeated_key(keys) is None <==> explicit_keys_distinct(keys),
        first_repeated_key(keys) matches Some(k) ==> exists|i: int, j: int|
            0 <= i < j < keys.len() && keys[i] == Some(k) && keys[j] == Some(k),
    decreases keys.len(),
{
    if keys.len() > 0 {
        let init = keys.drop_last();
        law_repeats_found_anywhere(init);
        let n = keys.len() - 1;
        match first_repeated_key(init) {
            Some(k) => {
                let (i, j) = choose|i: int, j: int|
                    0 <= i < j < init.len() && init[i] == Some(k) && init[j] == Some(k);
                assert(keys[i] == Some(k) && keys[j] == Some(k));
                assert(!explicit_keys_distinct(keys));
            },
            None => {
                match keys.last() {
                    Some(k) => {
                        if init.contains(Some(k)) {
                            let i = choose|i: int| 0 <= i < init.len() && init[i] == Some(k);
                            assert(keys[i] == Some(k) && keys[n] == Some(k));
                            assert(!explicit_keys_distinct(keys));
                        } else {
                            assert forall|i: int, j: int|
                                0 <= i < j < keys.len() && (#[trigger] keys[i]) is Some implies keys[i]
                                != #[trigger] keys[j] by {
                                if j < n {
                                    assert(init[i] == keys[i] && init[j] == keys[j]);
                                } else {
                                    assert(init[i] == keys[i]);
                                }
                            }
                        }
                    },
                    None => {
                        assert forall|i: int, j: int|
                            0 <= i < j < keys.len() && (#[trigger] keys[i]) is Some implies keys[i]
                            != #[trigger] keys[j] by {
                            if j < n {
                                assert(init[i] == keys[i] && init[j] == keys[j]);
                            }
                        }
                    },
                }
            },
        }
    }
}

/// Checks that siblings' explicit keys are distinct; reports the first key
/// that repeats.
pub fn check_sibling_keys(keys: &[Option<WidgetKey>]) -> (r: Result<(), UiError>)
    ensures
        match first_repeated_key(keys@) {
            None => r is Ok,
            Some(k) => r matches Err(UiError::DuplicateKey(d)) && d == k,
        },
{
    let mut i: usize = 0;
    while i < keys.len()
        invariant
            i <= keys@.len(),
            first_repeated_key(keys@.take(i as int)) is None,
        decreases keys@.len() - i,
    {
        let ghost prefix = keys@.take(i as int);
        proof {
            assert(keys@.take(i + 1).drop_last() =~= prefix);
            assert(keys@.take(i + 1).last() == keys@[i as int]);
        }
        if let Some(key) = keys[i] {
            let mut j: usize = 0;
            while j < i
                invariant
                    i < keys@.len(),
                    prefix == keys@.take(i as int),
                    first_repeated_key(prefix) is None,
                    j <= i,
                    keys@[i as int] == Some(key),
                    forall|m: int| 0 <= m < j ==> keys@[m] != Some(key),
                decreases i - j,
            {
                if keys[j] == Some(key) {
                    proof {
                        assert(prefix[j as int] == Some(key));
                        assert(prefix.contains(Some(key)));
                        assert(keys@.take(i + 1).drop_last() =~= prefix);
                        assert(keys@.take(i + 1).last() == Some(key));
                        lemma_repeated_prefix(keys@, i + 1);
                    }
                    return Err(UiError::DuplicateKey(key));
                }
                j = j + 1;
            }
            proof {
                if prefix.contains(Some(key)) {
                    let m = choose|m: int| 0 <= m < prefix.len() && prefix[m] == Some(key);
                    assert(keys@[m] == Some(key));
                }
            }
        }
        i = i + 1;
    }
    proof {
        assert(keys@.take(keys@.len() as int) =~= keys@);
    }
    Ok(())
}

} // verus!
