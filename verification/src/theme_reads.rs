//! Which theme tokens a widget read, and what a theme change asks of it.

use vstd::prelude::*;

use crate::strings::StrSet;
use crate::tree::{expanded_bits, Invalidation, LAYOUT_BIT, PAINT_BIT};

verus! {

/// What a changed token requires of the widgets that read it.
#[derive(Debug, Clone, Copy, PartialEq, Eq, Structural)]
pub enum TokenImpact {
    Paint,
    Layout,
}

/// One changed token of a theme publication.
#[derive(Debug, Clone)]
pub struct TokenChange {
    pub path: String,
    pub impact: TokenImpact,
}

pub open spec fn impact_bits(impact: TokenImpact) -> u8 {
    match impact {
        TokenImpact::Paint => PAINT_BIT,
        TokenImpact::Layout => LAYOUT_BIT,
    }
}

/// The invalidation that the first changes ask of a reader of `paths`: the
/// union of the impacts of the changes whose token was read.
pub open spec fn read_invalidation(paths: Set<Seq<char>>, changes: Seq<(Seq<char>, TokenImpact)>) -> u8
    decreases changes.len(),
{
    if changes.len() == 0 {
        0
    } else {
        let before = read_invalidation(paths, changes.drop_last());
        let (path, impact) = changes.last();
        if paths.contains(path) {
            expanded_bits(before | impact_bits(impact))
        } else {
            before
        }
    }
}

pub open spec fn change_views(changes: Seq<TokenChange>) -> Seq<(Seq<char>, TokenImpact)> {
    changes.map_values(|c: TokenChange| (c.path@, c.impact))
}

/// The theme token paths one widget read while building.
pub struct ThemeReadSet {
    paths: StrSet,
}

impl ThemeReadSet {
    /// The paths read.
    pub closed spec fn paths(&self) -> Set<Seq<char>> {
        self.paths.view_set()
    }

    pub fn new() -> (r: Self)
        ensures
            r.paths() == Set::<Seq<char>>::empty(),
    {
        ThemeReadSet { paths: StrSet::new() }
    }

    /// A read set holding the given paths.
    pub fn from_paths(paths: &[&str]) -> (r: Self)
        ensures
            r.paths() == paths@.map_values(|p: &str| p@).to_set(),
    {
        let mut reads = ThemeReadSet::new();
        reads.extend(paths);
        proof {
            assert(reads.paths() =~= paths@.map_values(|p: &str| p@).to_set());
        }
        reads
    }

    pub fn record(&mut self, path: &str)
        ensures
            final(self).paths() == old(self).paths().insert(path@),
    {
        self.paths.insert(String::from_str(path));
    }

    pub fn extend(&mut self, paths: &[&str])
        ensures
            final(self).paths() == old(self).paths() + paths@.map_values(|p: &str| p@).to_set(),
    {
        let ghost start = self.paths();
        let mut i: usize = 0;
        while i < paths.len()
            invariant
                i <= paths@.len(),
                self.paths() == start + paths@.take(i as int).map_values(|p: &str| p@).to_set(),
            decreases paths@.len() - i,
        {
            self.record(paths[i]);
            proof {
                assert(paths@.take(i + 1).map_values(|p: &str| p@) =~= paths@.take(i as int).map_values(
                    |p: &str| p@,
                ).push(paths@[i as int]@));
                let prev = paths@.take(i as int).map_values(|p: &str| p@);
                let next = paths@.take(i + 1).map_values(|p: &str| p@);
                let added = paths@[i as int]@;
                assert forall|t: Seq<char>| #[trigger] next.contains(t) == (prev.contains(t) || t == added) by {
                    if prev.contains(t) {
                        let k = choose|k: int| 0 <= k < prev.len() && prev[k] == t;
                        assert(next[k] == t);
                    }
                    if t == added {
                        assert(next[prev.len() as int] == t);
                    }
                    if next.contains(t) {
                        let k = choose|k: int| 0 <= k < next.len() && next[k] == t;
                        if k < prev.len() {
                            assert(prev[k] == t);
                        }
                    }
                }
                assert(self.paths() =~= start + next.to_set());
            }
            i = i + 1;
        }
        proof {
            assert(paths@.take(paths@.len() as int) =~= paths@);
        }
    }

    pub fn is_empty(&self) -> (r: bool)
        ensures
            r == (self.paths() == Set::<Seq<char>>::empty()),
    {
        proof {
            use_type_invariant(&self.paths);
            self.paths.lemma_shape();
        }
        let r = self.paths.is_empty();
        proof {
            if !r {
                assert(self.paths().contains(self.paths.item_seq()[0]));
            } else {
                assert(self.paths() =~= Set::<Seq<char>>::empty());
            }
        }
        r
    }

    pub fn contains(&self, path: &str) -> (r: bool)
        ensures
            r == self.paths().contains(path@),
    {
        self.paths.contains(path)
    }

    /// What the given changes ask of the widget: paint for a read paint token,
    /// layout and paint for a read layout token, nothing for tokens not read.
    pub fn invalidation_for(&self, changes: &[TokenChange]) -> (r: Invalidation)
        ensures
            r.bits() == read_invalidation(self.paths(), change_views(changes@)),
    {
        let mut invalidation = Invalidation::none();
        let mut i: usize = 0;
        while i < changes.len()
            invariant
                i <= changes@.len(),
                invalidation.bits() == read_invalidation(self.paths(), change_views(changes@.take(i as int))),
            decreases changes@.len() - i,
        {
            let change = &changes[i];
            proof {
                assert(change_views(changes@.take(i + 1)).drop_last() =~= change_views(changes@.take(i as int)));
                assert(change_views(changes@.take(i + 1)).last() == (change.path@, change.impact));
            }
            if self.contains(change.path.as_str()) {
                let impact = match change.impact {
                    TokenImpact::Paint => Invalidation::paint(),
                    TokenImpact::Layout => Invalidation::layout(),
                };
                invalidation = invalidation.union(impact);
            }
            i = i + 1;
        }
        proof {
            assert(changes@.take(changes@.len() as int) =~= changes@);
        }
        invalidation
    }
}

/// Change `k` touches a token that was read.
pub open spec fn read_change(paths: Set<Seq<char>>, changes: Seq<(Seq<char>, TokenImpact)>, k: int) -> bool {
    0 <= k < changes.len() && paths.contains(changes[k].0)
}

/// Every read change counts, whatever its position: the result asks for
/// layout exactly when some read change is a layout change, for paint
/// exactly when any change was read (layout brings paint), and for nothing
/// else. So the result is the union over the read changes, independent of
/// their order.
pub proof fn law_every_read_change_counts(paths: Set<Seq<char>>, changes: Seq<(Seq<char>, TokenImpact)>)
    ensures
        read_invalidation(paths, changes) & !3u8 == 0,
        (read_invalidation(paths, changes) & 1u8 == 1u8) <==> exists|k: int|
            #[trigger] read_change(paths, changes, k) && changes[k].1 == TokenImpact::Layout,
        (read_invalidation(paths, changes) & 2u8 == 2u8) <==> exists|k: int|
            #[trigger] read_change(paths, changes, k),
    decreases changes.len(),
{
    if changes.len() == 0 {
        assert(0u8 & !3u8 == 0 && 0u8 & 1u8 != 1u8 && 0u8 & 2u8 != 2u8) by (bit_vector);
    } else {
        let rest = changes.drop_last();
        law_every_read_change_counts(paths, rest);
        let x = read_invalidation(paths, rest);
        let n = changes.len() - 1;
        let (path, impact) = changes.last();
        assert forall|k: int| 0 <= k < n implies #[trigger] read_change(paths, changes, k) == read_change(
            paths,
            rest,
            k,
        ) && changes[k] == rest[k] by {}
        if exists|k: int| #[trigger] read_change(paths, rest, k) {
            let k = choose|k: int| #[trigger] read_change(paths, rest, k);
            assert(read_change(paths, changes, k));
        }
        if exists|k: int| #[trigger] read_change(paths, rest, k) && rest[k].1 == TokenImpact::Layout {
            let k = choose|k: int| #[trigger] read_change(paths, rest, k) && rest[k].1 == TokenImpact::Layout;
            assert(read_change(paths, changes, k));
        }
        if exists|k: int| #[trigger] read_change(paths, changes, k) {
            let k = choose|k: int| #[trigger] read_change(paths, changes, k);
            if k < n {
                assert(read_change(paths, rest, k));
            }
        }
        if exists|k: int| #[trigger] read_change(paths, changes, k) && changes[k].1 == TokenImpact::Layout {
            let k = choose|k: int| #[trigger] read_change(paths, changes, k) && changes[k].1
                == TokenImpact::Layout;
            if k < n {
                assert(read_change(paths, rest, k));
            }
        }
        if paths.contains(path) {
            assert(read_change(paths, changes, n));
            if impact == TokenImpact::Layout {
                assert(x & !3u8 == 0 ==> (x | 1u8) & 1u8 == 1u8) by (bit_vector);
                assert(x & !3u8 == 0 ==> ((x | 1u8) | 2u8) & !3u8 == 0 && ((x | 1u8) | 2u8) & 1u8 == 1u8
                    && ((x | 1u8) | 2u8) & 2u8 == 2u8) by (bit_vector);
            } else {
                assert(x & !3u8 == 0 ==> ((x | 2u8) & 1u8 == 1u8) == (x & 1u8 == 1u8)) by (bit_vector);
                assert(x & !3u8 == 0 ==> (x | 2u8) & !3u8 == 0 && (x | 2u8) & 2u8 == 2u8) by (bit_vector);
                assert(x & !3u8 == 0 ==> ((x | 2u8) & 1u8 == 1u8 ==> ((x | 2u8) | 2u8) == (x | 2u8))) by (bit_vector);
            }
        } else {
            assert(!read_change(paths, changes, n));
        }
    }
}

/// Changes to tokens a widget did not read ask nothing of it.
pub proof fn law_unread_changes_invalidate_nothing(
    paths: Set<Seq<char>>,
    changes: Seq<(Seq<char>, TokenImpact)>,
)
    requires
        forall|k: int| 0 <= k < changes.len() ==> !paths.contains(#[trigger] changes[k].0),
    ensures
        read_invalidation(paths, changes) == 0,
    decreases changes.len(),
{
    if changes.len() > 0 {
        let rest = changes.drop_last();
        assert forall|k: int| 0 <= k < rest.len() implies !paths.contains(#[trigger] rest[k].0) by {
            assert(rest[k] == changes[k]);
        }
        law_unread_changes_invalidate_nothing(paths, rest);
        assert(!paths.contains(changes[changes.len() - 1].0));
    }
}

/// Paint-only changes never ask for layout: the result holds at most paint.
pub proof fn law_paint_changes_stay_paint(paths: Set<Seq<char>>, changes: Seq<(Seq<char>, TokenImpact)>)
    requires
        forall|k: int| 0 <= k < changes.len() ==> (#[trigger] changes[k]).1 == TokenImpact::Paint,
    ensures
        read_invalidation(paths, changes) & !PAINT_BIT == 0,
    decreases changes.len(),
{
    if changes.len() > 0 {
        let rest = changes.drop_last();
        assert forall|k: int| 0 <= k < rest.len() implies (#[trigger] rest[k]).1 == TokenImpact::Paint by {
            assert(rest[k] == changes[k]);
        }
        law_paint_changes_stay_paint(paths, rest);
        let before = read_invalidation(paths, rest);
        assert(changes[changes.len() - 1].1 == TokenImpact::Paint);
        assert(before & !2u8 == 0 ==> (before | 2u8) & 1u8 != 1u8) by (bit_vector);
        assert(before & !2u8 == 0 ==> (before | 2u8) & !2u8 == 0) by (bit_vector);
        assert(expanded_bits(before | 2u8) == before | 2u8);
    } else {
        assert(0u8 & !2u8 == 0) by (bit_vector);
    }
}

} // verus!
