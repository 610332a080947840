//! Root-local reactive values that queue invalidation without re-entering
//! the tree: a write only records which widgets must be invalidated, and the
//! owning root drains that queue at its next boundary.

use vstd::prelude::*;
use vstd::std_specs::cmp::PartialEqSpec;

use crate::tree::{expanded_bits, Invalidation, WidgetId};

verus! {

/// The reactive side of one UI root: which widgets are mounted and which
/// invalidations wait for the next boundary.
pub struct RootReactivity {
    id: u64,
    alive: Vec<WidgetId>,
    queued: Vec<(WidgetId, Invalidation)>,
}

impl RootReactivity {
    pub closed spec fn id_spec(&self) -> u64 {
        self.id
    }

    /// The mounted widgets, each once.
    pub closed spec fn alive_seq(&self) -> Seq<WidgetId> {
        self.alive@
    }

    pub open spec fn is_alive_spec(&self, widget: WidgetId) -> bool {
        self.alive_seq().contains(widget)
    }

    /// The invalidations waiting for the next boundary, oldest first.
    pub closed spec fn queued(&self) -> Seq<(WidgetId, Invalidation)> {
        self.queued@
    }

    pub open spec fn well_formed(&self) -> bool {
        &&& self.alive_seq().no_duplicates()
        &&& self.id_spec() >= 1
    }

    /// A root with the given identity (zero is taken as one), no mounted
    /// widget and an empty queue.
    pub fn new(id: u64) -> (r: Self)
        ensures
            r.well_formed(),
            r.id_spec() == if id == 0 {
                1
            } else {
                id
            },
            r.alive_seq().len() == 0,
            r.queued().len() == 0,
    {
        RootReactivity { id: if id == 0 {
            1
        } else {
            id
        }, alive: Vec::new(), queued: Vec::new() }
    }

    pub fn id(&self) -> (r: u64)
        ensures
            r == self.id_spec(),
    {
        self.id
    }

    /// Marks a widget as mounted.
    pub fn insert(&mut self, widget: WidgetId)
        requires
            old(self).well_formed(),
        ensures
            final(self).well_formed(),
            final(self).id_spec() == old(self).id_spec(),
            final(self).queued() == old(self).queued(),
            forall|w: WidgetId| #[trigger] final(self).is_alive_spec(w) == (old(self).is_alive_spec(w) || w == widget),
    {
        if !self.is_alive(widget) {
            self.alive.push(widget);
            proof {
                assert forall|w: WidgetId| #[trigger] self.is_alive_spec(w) == (old(self).is_alive_spec(w) || w
                    == widget) by {
                    if old(self).is_alive_spec(w) {
                        let i = choose|i: int| 0 <= i < old(self).alive_seq().len() && old(self).alive_seq()[i] == w;
                        assert(self.alive_seq()[i] == w);
                    }
                    if w == widget {
                        assert(self.alive_seq()[self.alive_seq().len() - 1] == w);
                    }
                }
            }
        }
    }

    /// Marks a widget as unmounted.
    pub fn remove(&mut self, widget: WidgetId)
        requires
            old(self).well_formed(),
        ensures
            final(self).well_formed(),
            final(self).id_spec() == old(self).id_spec(),
            final(self).queued() == old(self).queued(),
            forall|w: WidgetId| #[trigger] final(self).is_alive_spec(w) == (old(self).is_alive_spec(w) && w != widget),
    {
        let ghost before = self.alive@;
        let mut kept: Vec<WidgetId> = Vec::new();
        let mut i: usize = 0;
        while i < self.alive.len()
            invariant
                before == self.alive@,
                before.no_duplicates(),
                i <= before.len(),
                kept@ == before.take(i as int).filter(|w: WidgetId| w != widget),
            decreases before.len() - i,
        {
            let w = self.alive[i];
            proof {
                assert(before.take(i + 1).drop_last() =~= before.take(i as int));
                reveal(Seq::filter);
            }
            if w != widget {
                kept.push(w);
            }
            i = i + 1;
        }
        proof {
            assert(before.take(before.len() as int) =~= before);
            let keep = |w: WidgetId| w != widget;
            assert forall|w: WidgetId| #[trigger] kept@.contains(w) == (before.contains(w) && w != widget) by {
                if before.contains(w) && w != widget {
                    let k = choose|k: int| 0 <= k < before.len() && before[k] == w;
                    before.lemma_filter_contains(keep, k);
                }
                if kept@.contains(w) {
                    before.lemma_filter_contains_rev(keep, w);
                    let k = choose|k: int| 0 <= k < kept@.len() && kept@[k] == w;
                    before.lemma_filter_pred(keep, k);
                }
            }
            lemma_filter_no_duplicates(before, keep);
        }
        self.alive = kept;
    }

    pub fn is_alive(&self, widget: WidgetId) -> (r: bool)
        ensures
            r == self.is_alive_spec(widget),
    {
        let mut i: usize = 0;
        while i < self.alive.len()
            invariant
                i <= self.alive@.len(),
                forall|j: int| 0 <= j < i ==> self.alive@[j] != widget,
            decreases self.alive@.len() - i,
        {
            if self.alive[i] == widget {
                return true;
            }
            i = i + 1;
        }
        false
    }

    /// Hands out the queued invalidations, oldest first, and empties the queue.
    pub fn drain(&mut self) -> (r: Vec<(WidgetId, Invalidation)>)
        requires
            old(self).well_formed(),
        ensures
            final(self).well_formed(),
            r@ == old(self).queued(),
            final(self).queued().len() == 0,
            final(self).id_spec() == old(self).id_spec(),
            final(self).alive_seq() == old(self).alive_seq(),
    {
        let mut drained: Vec<(WidgetId, Invalidation)> = Vec::new();
        std::mem::swap(&mut drained, &mut self.queued);
        drained
    }

    /// Queues one invalidation.
    pub fn enqueue(&mut self, widget: WidgetId, invalidation: Invalidation)
        requires
            old(self).well_formed(),
        ensures
            final(self).well_formed(),
            final(self).queued() == old(self).queued().push((widget, invalidation)),
            final(self).id_spec() == old(self).id_spec(),
            final(self).alive_seq() == old(self).alive_seq(),
    {
        self.queued.push((widget, invalidation));
    }
}

/// One widget of one root watching a reactive value, and what a change invalidates.
#[derive(Debug, Clone, Copy, PartialEq, Eq, Structural)]
pub struct Subscription {
    pub root: u64,
    pub widget: WidgetId,
    pub invalidation: Invalidation,
}

/// A UI-thread value. A write only queues invalidation with the roots whose
/// widgets watch it; widget callbacks run later, at a root boundary.
/// There is one value and readers borrow it, so every reader sees each
/// write at once.
pub struct Reactive<T> {
    value: T,
    subscriptions: Vec<Subscription>,
}

/// The position of the first root with identity `id`, if any.
pub open spec fn root_position(roots: Seq<RootReactivity>, id: u64) -> Option<int>
    decreases roots.len(),
{
    if roots.len() == 0 {
        None
    } else {
        match root_position(roots.drop_last(), id) {
            Some(p) => Some(p),
            None => if roots.last().id_spec() == id {
                Some(roots.len() - 1)
            } else {
                None
            },
        }
    }
}

/// A subscription still reaches a mounted widget of an existing root.
pub open spec fn subscription_live(roots: Seq<RootReactivity>, s: Subscription) -> bool {
    match root_position(roots, s.root) {
        Some(p) => roots[p].is_alive_spec(s.widget),
        None => false,
    }
}

/// What a write queues with the root at position `p`: one entry per live
/// subscription of that root, in subscription order.
pub open spec fn notified(roots: Seq<RootReactivity>, subs: Seq<Subscription>, p: int) -> Seq<
    (WidgetId, Invalidation),
>
    decreases subs.len(),
{
    if subs.len() == 0 {
        Seq::empty()
    } else {
        let s = subs.last();
        let rest = notified(roots, subs.drop_last(), p);
        if root_position(roots, s.root) == Some(p) && roots[p].is_alive_spec(s.widget) {
            rest.push((s.widget, s.invalidation))
        } else {
            rest
        }
    }
}

/// Keys of a subscription list: one subscription per (root, widget).
pub open spec fn keys_unique(subs: Seq<Subscription>) -> bool {
    forall|i: int, j: int|
        0 <= i < subs.len() && 0 <= j < subs.len() && i != j ==> (#[trigger] subs[i]).root != (
        #[trigger] subs[j]).root || subs[i].widget != subs[j].widget
}

impl<T> Reactive<T> {
    pub closed spec fn value(&self) -> T {
        self.value
    }

    /// The watching widgets, in the order they first subscribed.
    pub closed spec fn subscriptions(&self) -> Seq<Subscription> {
        self.subscriptions@
    }

    pub open spec fn well_formed(&self) -> bool {
        keys_unique(self.subscriptions())
    }

    pub fn new(value: T) -> (r: Self)
        ensures
            r.well_formed(),
            r.value() == value,
            r.subscriptions().len() == 0,
    {
        Reactive { value, subscriptions: Vec::new() }
    }

    /// A clone of the current value.
    pub fn get(&self) -> (r: T)
        where
            T: Clone,
        ensures
            cloned(self.value(), r),
    {
        self.value.clone()
    }

    /// Records that `widget` of `root` reads this value and must get
    /// `invalidation` when it changes; a second watch of the same widget
    /// widens the recorded invalidation.
    pub fn watch(&mut self, root: u64, widget: WidgetId, invalidation: Invalidation)
        requires
            old(self).well_formed(),
        ensures
            final(self).well_formed(),
            final(self).value() == old(self).value(),
            match subscription_index(old(self).subscriptions(), root, widget) {
                Some(i) => final(self).subscriptions() == old(self).subscriptions().update(
                    i,
                    Subscription {
                        root,
                        widget,
                        invalidation: old(self).subscriptions()[i].invalidation.union_spec(invalidation),
                    },
                ),
                None => final(self).subscriptions() == old(self).subscriptions().push(
                    Subscription { root, widget, invalidation },
                ),
            },
    {
        let ghost subs = self.subscriptions@;
        let mut i: usize = 0;
        while i < self.subscriptions.len()
            invariant
                subs == self.subscriptions@,
                *self == *old(self),
                keys_unique(subs),
                i <= subs.len(),
                forall|j: int| 0 <= j < i ==> !(#[trigger] subs[j].root == root && subs[j].widget == widget),
            decreases subs.len() - i,
        {
            let s = self.subscriptions[i];
            if s.root == root && s.widget == widget {
                proof {
                    lemma_subscription_index(subs, root, widget, i as int);
                }
                let merged = Subscription { root, widget, invalidation: s.invalidation.union(invalidation) };
                let mut subscriptions = Vec::new();
                std::mem::swap(&mut subscriptions, &mut self.subscriptions);
                subscriptions.set(i, merged);
                self.subscriptions = subscriptions;
                proof {
                    let after = self.subscriptions@;
                    assert(after =~= subs.update(i as int, merged));
                    assert forall|a: int, b: int|
                        0 <= a < after.len() && 0 <= b < after.len() && a != b implies (
                    #[trigger] after[a]).root != (#[trigger] after[b]).root
                        || after[a].widget != after[b].widget by {
                        assert(subs[a].root != subs[b].root || subs[a].widget != subs[b].widget);
                    }
                }
                return;
            }
            i = i + 1;
        }
        proof {
            lemma_subscription_absent(subs, root, widget);
        }
        self.subscriptions.push(Subscription { root, widget, invalidation });
        proof {
            let after = self.subscriptions@;
            assert forall|a: int, b: int| 0 <= a < after.len() && 0 <= b < after.len() && a != b implies (
            #[trigger] after[a]).root != (#[trigger] after[b]).root || after[a].widget != after[b].widget by {
                if a == subs.len() {
                    assert(!(subs[b].root == root && subs[b].widget == widget));
                } else if b == subs.len() {
                    assert(!(subs[a].root == root && subs[a].widget == widget));
                } else {
                    assert(after[a] == subs[a] && after[b] == subs[b]);
                }
            }
        }
    }

    /// Drops the subscription of `widget` of `root`, if there is one.
    pub fn unsubscribe(&mut self, root: u64, widget: WidgetId)
        requires
            old(self).well_formed(),
        ensures
            final(self).well_formed(),
            final(self).value() == old(self).value(),
            final(self).subscriptions() == old(self).subscriptions().filter(
                |s: Subscription| !(s.root == root && s.widget == widget),
            ),
    {
        let ghost subs = self.subscriptions@;
        let ghost keep = |s: Subscription| !(s.root == root && s.widget == widget);
        let mut kept: Vec<Subscription> = Vec::new();
        let mut i: usize = 0;
        while i < self.subscriptions.len()
            invariant
                subs == self.subscriptions@,
                keep == (|s: Subscription| !(s.root == root && s.widget == widget)),
                i <= subs.len(),
                kept@ == subs.take(i as int).filter(keep),
            decreases subs.len() - i,
        {
            let s = self.subscriptions[i];
            proof {
                assert(subs.take(i + 1).drop_last() =~= subs.take(i as int));
                reveal(Seq::filter);
            }
            if !(s.root == root && s.widget == widget) {
                kept.push(s);
            }
            i = i + 1;
        }
        proof {
            assert(subs.take(subs.len() as int) =~= subs);
            lemma_filter_keeps_unique(subs, keep);
        }
        self.subscriptions = kept;
    }

    /// Queues every live subscription's invalidation with its root and drops
    /// the subscriptions whose root is gone or whose widget is unmounted.
    pub fn notify(&mut self, roots: &mut Vec<RootReactivity>)
        requires
            old(self).well_formed(),
            forall|p: int| 0 <= p < old(roots)@.len() ==> (#[trigger] old(roots)@[p]).well_formed(),
        ensures
            final(self).well_formed(),
            final(self).value() == old(self).value(),
            final(self).subscriptions() == old(self).subscriptions().filter(
                |s: Subscription| subscription_live(old(roots)@, s),
            ),
            final(roots)@.len() == old(roots)@.len(),
            forall|p: int|
                0 <= p < old(roots)@.len() ==> {
                    &&& (#[trigger] final(roots)@[p]).well_formed()
                    &&& final(roots)@[p].id_spec() == old(roots)@[p].id_spec()
                    &&& final(roots)@[p].alive_seq() == old(roots)@[p].alive_seq()
                    &&& final(roots)@[p].queued() == old(roots)@[p].queued() + notified(
                        old(roots)@,
                        old(self).subscriptions(),
                        p,
                    )
                },
    {
        let ghost subs = self.subscriptions@;
        let ghost start = roots@;
        let ghost live = |s: Subscription| subscription_live(start, s);
        let mut kept: Vec<Subscription> = Vec::new();
        let mut i: usize = 0;
        while i < self.subscriptions.len()
            invariant
                subs == self.subscriptions@,
                live == (|s: Subscription| subscription_live(start, s)),
                i <= subs.len(),
                kept@ == subs.take(i as int).filter(live),
                roots@.len() == start.len(),
                forall|p: int|
                    0 <= p < start.len() ==> {
                        &&& (#[trigger] roots@[p]).well_formed()
                        &&& roots@[p].id_spec() == start[p].id_spec()
                        &&& roots@[p].alive_seq() == start[p].alive_seq()
                        &&& roots@[p].queued() == start[p].queued() + notified(start, subs.take(i as int), p)
                    },
            decreases subs.len() - i,
        {
            let s = self.subscriptions[i];
            let found = find_root(roots, s.root);
            proof {
                assert(subs.take(i + 1).drop_last() =~= subs.take(i as int));
                assert(subs.take(i + 1).last() == s);
                reveal(Seq::filter);
                lemma_root_position_same(start, roots@, s.root);
            }
            match found {
                Some(p) => {
                    proof {
                        lemma_root_position_valid(roots@, s.root);
                    }
                    if roots[p].is_alive(s.widget) {
                        let ghost before = roots@;
                        let mut root = roots.remove(p);
                        proof {
                            assert(root == before[p as int]);
                        }
                        root.enqueue(s.widget, s.invalidation);
                        roots.insert(p, root);
                        proof {
                            assert(roots@ =~= before.update(p as int, root));
                        }
                        kept.push(s);
                    }
                },
                None => {},
            }
            i = i + 1;
        }
        proof {
            assert(subs.take(subs.len() as int) =~= subs);
            lemma_filter_keeps_unique(subs, live);
        }
        self.subscriptions = kept;
    }

    /// Replaces the value and notifies the watching widgets.
    pub fn set(&mut self, value: T, roots: &mut Vec<RootReactivity>)
        requires
            old(self).well_formed(),
            forall|p: int| 0 <= p < old(roots)@.len() ==> (#[trigger] old(roots)@[p]).well_formed(),
        ensures
            final(self).well_formed(),
            final(self).value() == value,
            final(self).subscriptions() == old(self).subscriptions().filter(
                |s: Subscription| subscription_live(old(roots)@, s),
            ),
            final(roots)@.len() == old(roots)@.len(),
            forall|p: int|
                0 <= p < old(roots)@.len() ==> {
                    &&& (#[trigger] final(roots)@[p]).well_formed()
                    &&& final(roots)@[p].id_spec() == old(roots)@[p].id_spec()
                    &&& final(roots)@[p].alive_seq() == old(roots)@[p].alive_seq()
                    &&& final(roots)@[p].queued() == old(roots)@[p].queued() + notified(
                        old(roots)@,
                        old(self).subscriptions(),
                        p,
                    )
                },
    {
        self.value = value;
        self.notify(roots);
    }

    /// Replaces the value by what `update` makes of it and notifies the
    /// watching widgets.
    pub fn update(&mut self, update: impl FnOnce(&T) -> T, roots: &mut Vec<RootReactivity>)
        requires
            old(self).well_formed(),
            call_requires(update, (&old(self).value(),)),
            forall|p: int| 0 <= p < old(roots)@.len() ==> (#[trigger] old(roots)@[p]).well_formed(),
        ensures
            final(self).well_formed(),
            call_ensures(update, (&old(self).value(),), final(self).value()),
            final(self).subscriptions() == old(self).subscriptions().filter(
                |s: Subscription| subscription_live(old(roots)@, s),
            ),
            final(roots)@.len() == old(roots)@.len(),
            forall|p: int|
                0 <= p < old(roots)@.len() ==> {
                    &&& (#[trigger] final(roots)@[p]).well_formed()
                    &&& final(roots)@[p].id_spec() == old(roots)@[p].id_spec()
                    &&& final(roots)@[p].alive_seq() == old(roots)@[p].alive_seq()
                    &&& final(roots)@[p].queued() == old(roots)@[p].queued() + notified(
                        old(roots)@,
                        old(self).subscriptions(),
                        p,
                    )
                },
    {
        let value = update(&self.value);
        self.value = value;
        self.notify(roots);
    }

    /// Sets the value only when it differs from the current one; says
    /// whether it did.
    pub fn set_if_changed(&mut self, value: T, roots: &mut Vec<RootReactivity>) -> (changed: bool)
        where
            T: PartialEq,
        requires
            old(self).well_formed(),
            forall|p: int| 0 <= p < old(roots)@.len() ==> (#[trigger] old(roots)@[p]).well_formed(),
        ensures
            final(self).well_formed(),
            T::obeys_eq_spec() ==> changed == !old(self).value().eq_spec(&value),
            !changed ==> *final(self) == *old(self) && final(roots)@ == old(roots)@,
            changed ==> {
                &&& final(self).value() == value
                &&& final(self).subscriptions() == old(self).subscriptions().filter(
                    |s: Subscription| subscription_live(old(roots)@, s),
                )
                &&& final(roots)@.len() == old(roots)@.len()
                &&& forall|p: int|
                    0 <= p < old(roots)@.len() ==> {
                        &&& (#[trigger] final(roots)@[p]).well_formed()
                        &&& final(roots)@[p].id_spec() == old(roots)@[p].id_spec()
                        &&& final(roots)@[p].alive_seq() == old(roots)@[p].alive_seq()
                        &&& final(roots)@[p].queued() == old(roots)@[p].queued() + notified(
                            old(roots)@,
                            old(self).subscriptions(),
                            p,
                        )
                    }
            },
    {
        if self.value == value {
            return false;
        }
        self.set(value, roots);
        true
    }
}

/// The position of the subscription of `widget` of `root`, if there is one.
pub open spec fn subscription_index(subs: Seq<Subscription>, root: u64, widget: WidgetId) -> Option<int> {
    if exists|i: int| 0 <= i < subs.len() && #[trigger] subs[i].root == root && subs[i].widget == widget {
        Some(choose|i: int| 0 <= i < subs.len() && #[trigger] subs[i].root == root && subs[i].widget == widget)
    } else {
        None
    }
}

proof fn lemma_subscription_index(subs: Seq<Subscription>, root: u64, widget: WidgetId, i: int)
    requires
        keys_unique(subs),
        0 <= i < subs.len(),
        subs[i].root == root && subs[i].widget == widget,
    ensures
        subscription_index(subs, root, widget) == Some(i),
{
    let j = choose|j: int| 0 <= j < subs.len() && #[trigger] subs[j].root == root && subs[j].widget == widget;
    assert(subs[j].root == root);
    if j != i {
        assert(subs[i].root != subs[j].root || subs[i].widget != subs[j].widget);
    }
}

proof fn lemma_subscription_absent(subs: Seq<Subscription>, root: u64, widget: WidgetId)
    requires
        forall|j: int| 0 <= j < subs.len() ==> !(#[trigger] subs[j].root == root && subs[j].widget == widget),
    ensures
        subscription_index(subs, root, widget) is None,
{
}

proof fn lemma_filter_keeps_unique(subs: Seq<Subscription>, keep: spec_fn(Subscription) -> bool)
    requires
        keys_unique(subs),
    ensures
        keys_unique(subs.filter(keep)),
    decreases subs.len(),
{
    reveal(Seq::filter);
    if subs.len() > 0 {
        let rest = subs.drop_last();
        assert forall|i: int, j: int|
            0 <= i < rest.len() && 0 <= j < rest.len() && i != j implies (#[trigger] rest[i]).root != (
            #[trigger] rest[j]).root || rest[i].widget != rest[j].widget by {
            assert(rest[i] == subs[i] && rest[j] == subs[j]);
        }
        lemma_filter_keeps_unique(rest, keep);
        let f = rest.filter(keep);
        if keep(subs.last()) {
            let g = f.push(subs.last());
            assert forall|i: int, j: int| 0 <= i < g.len() && 0 <= j < g.len() && i != j implies (
            #[trigger] g[i]).root != (#[trigger] g[j]).root || g[i].widget != g[j].widget by {
                if i == f.len() || j == f.len() {
                    let k = if i == f.len() {
                        j
                    } else {
                        i
                    };
                    rest.lemma_filter_contains_rev(keep, f[k]);
                    let m = choose|m: int| 0 <= m < rest.len() && rest[m] == f[k];
                    assert(subs[m] == f[k]);
                    assert(subs[subs.len() - 1] == subs.last());
                }
            }
        }
    }
}

proof fn lemma_filter_no_duplicates<A>(s: Seq<A>, keep: spec_fn(A) -> bool)
    requires
        s.no_duplicates(),
    ensures
        s.filter(keep).no_duplicates(),
    decreases s.len(),
{
    reveal(Seq::filter);
    if s.len() > 0 {
        let rest = s.drop_last();
        assert forall|i: int, j: int| 0 <= i < rest.len() && 0 <= j < rest.len() && i != j implies rest[i]
            != rest[j] by {
            assert(rest[i] == s[i] && rest[j] == s[j]);
        }
        lemma_filter_no_duplicates(rest, keep);
        if keep(s.last()) && rest.filter(keep).contains(s.last()) {
            rest.lemma_filter_contains_rev(keep, s.last());
            let m = choose|m: int| 0 <= m < rest.len() && rest[m] == s.last();
            assert(s[m] == s[s.len() - 1]);
        }
    }
}

/// Finds the first root with identity `id`.
fn find_root(roots: &Vec<RootReactivity>, id: u64) -> (r: Option<usize>)
    ensures
        match r {
            Some(p) => root_position(roots@, id) == Some(p as int),
            None => root_position(roots@, id) is None,
        },
{
    let mut i: usize = 0;
    while i < roots.len()
        invariant
            i <= roots@.len(),
            root_position(roots@.take(i as int), id) is None,
        decreases roots@.len() - i,
    {
        proof {
            assert(roots@.take(i + 1).drop_last() =~= roots@.take(i as int));
        }
        if roots[i].id() == id {
            proof {
                lemma_root_position_prefix(roots@, id, i + 1);
            }
            return Some(i);
        }
        i = i + 1;
    }
    proof {
        assert(roots@.take(roots@.len() as int) =~= roots@);
    }
    None
}

/// A position found in a prefix is the position in the whole list.
proof fn lemma_root_position_prefix(roots: Seq<RootReactivity>, id: u64, k: int)
    requires
        0 <= k <= roots.len(),
        root_position(roots.take(k), id) is Some,
    ensures
        root_position(roots, id) == root_position(roots.take(k), id),
    decreases roots.len() - k,
{
    if k < roots.len() {
        assert(roots.take(k + 1).drop_last() =~= roots.take(k));
        lemma_root_position_prefix(roots, id, k + 1);
    } else {
        assert(roots.take(k) =~= roots);
    }
}

/// Root positions depend only on the roots' identities.
proof fn lemma_root_position_same(a: Seq<RootReactivity>, b: Seq<RootReactivity>, id: u64)
    requires
        a.len() == b.len(),
        forall|p: int| 0 <= p < a.len() ==> (#[trigger] a[p]).id_spec() == b[p].id_spec(),
    ensures
        root_position(a, id) == root_position(b, id),
    decreases a.len(),
{
    if a.len() > 0 {
        lemma_root_position_same(a.drop_last(), b.drop_last(), id);
    }
}

/// A found position is within the list and holds that identity.
proof fn lemma_root_position_valid(roots: Seq<RootReactivity>, id: u64)
    requires
        root_position(roots, id) is Some,
    ensures
        0 <= root_position(roots, id)->0 < roots.len(),
        roots[root_position(roots, id)->0].id_spec() == id,
    decreases roots.len(),
{
    if root_position(roots.drop_last(), id) is Some {
        lemma_root_position_valid(roots.drop_last(), id);
    }
}

} // verus!
