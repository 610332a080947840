//! The properties a motion curve animates, and what they let a curve do.

use vstd::prelude::*;
use vstd::string::StringSliceAdditionalSpecFns;
use vstd::utf8::encode_utf8;

use crate::strings::{
    compare_text, lemma_text_lt_irreflexive, lemma_text_lt_transitive, strictly_sorted, text_lt,
    TextOrder,
};

verus! {

/// At most this many consumers share one curve.
pub const MAX_CONSUMERS: usize = 256;

#[derive(Debug, Clone, Copy, PartialEq, Eq, Structural, Hash)]
pub enum MotionCurveConsumerDomain {
    Spatial,
    Shape,
    Opacity,
    Color,
    BoundedScalar,
}

/// Only positions and shapes may overshoot their target or run backwards.
pub open spec fn domain_allows_excursion(domain: MotionCurveConsumerDomain) -> bool {
    domain == MotionCurveConsumerDomain::Spatial || domain == MotionCurveConsumerDomain::Shape
}

impl MotionCurveConsumerDomain {
    pub fn allows_overshoot(self) -> (r: bool)
        ensures
            r == domain_allows_excursion(self),
    {
        match self {
            MotionCurveConsumerDomain::Spatial | MotionCurveConsumerDomain::Shape => true,
            _ => false,
        }
    }

    pub fn allows_reverse(self) -> (r: bool)
        ensures
            r == domain_allows_excursion(self),
    {
        match self {
            MotionCurveConsumerDomain::Spatial | MotionCurveConsumerDomain::Shape => true,
            _ => false,
        }
    }
}

/// Errors of the motion curve editor that do not come from curve compilation.
#[derive(Debug)]
pub enum MotionCurveEditorError {
    InvalidConsumerId,
    TooManyConsumers,
    DuplicateConsumer,
    OvershootUnsupported,
    ReverseUnsupported,
    InvalidSnap,
    InvalidConfig,
    InvalidDuration,
    InvalidCoordinate,
    InvalidViewport,
    MissingAnchor(usize),
    FixedEndpoint,
    EmptySelection,
    HandleUnavailable,
    InvalidHandleDirection,
    TooManyAnchors,
    InteractionBusy,
    WrongInteraction,
    NoInteraction,
    ClipboardTooLarge,
    ClipboardSyntax(String),
    InvalidClipboard,
}

pub open spec fn is_consumer_id_char(c: char) -> bool {
    ('a' <= c && c <= 'z') || ('0' <= c && c <= '9') || c == '.' || c == '_' || c == '-'
}

/// One to 128 characters of lowercase letters, digits, '.', '_' and '-'.
pub open spec fn valid_consumer_id(id: Seq<char>) -> bool {
    &&& 0 < id.len() <= 128
    &&& forall|i: int| 0 <= i < id.len() ==> is_consumer_id_char(#[trigger] id[i])
}

/// A property that a curve drives.
#[derive(Debug)]
pub struct MotionCurveConsumer {
    id: String,
    domain: MotionCurveConsumerDomain,
}

impl MotionCurveConsumer {
    pub closed spec fn id_spec(&self) -> Seq<char> {
        self.id@
    }

    pub closed spec fn domain_spec(&self) -> MotionCurveConsumerDomain {
        self.domain
    }

    pub fn new(id: &str, domain: MotionCurveConsumerDomain) -> (r: Result<Self, MotionCurveEditorError>)
        ensures
            valid_consumer_id(id@) ==> (r matches Ok(c) && c.id_spec() == id@ && c.domain_spec() == domain),
            !valid_consumer_id(id@) ==> r matches Err(MotionCurveEditorError::InvalidConsumerId),
    {
        let bytes = id.as_bytes().len();
        if bytes == 0 || bytes > 128 {
            proof {
                if valid_consumer_id(id@) {
                    assert(vstd::utf8::is_ascii_chars(id@));
                    vstd::utf8::is_ascii_chars_encode_utf8(id@);
                    assert(id.spec_bytes() == encode_utf8(id@));
                }
            }
            return Err(MotionCurveEditorError::InvalidConsumerId);
        }
        let n = id.unicode_len();
        let mut i: usize = 0;
        while i < n
            invariant
                n == id@.len(),
                i <= n,
                forall|j: int| 0 <= j < i ==> is_consumer_id_char(#[trigger] id@[j]),
            decreases n - i,
        {
            let c = id.get_char(i);
            if !(('a' <= c && c <= 'z') || ('0' <= c && c <= '9') || c == '.' || c == '_' || c == '-') {
                return Err(MotionCurveEditorError::InvalidConsumerId);
            }
            i = i + 1;
        }
        proof {
            assert(vstd::utf8::is_ascii_chars(id@));
            vstd::utf8::is_ascii_chars_encode_utf8(id@);
            assert(id.spec_bytes() == encode_utf8(id@));
        }
        Ok(MotionCurveConsumer { id: String::from_str(id), domain })
    }

    pub fn id(&self) -> (r: &str)
        ensures
            r@ == self.id_spec(),
    {
        self.id.as_str()
    }

    pub fn domain(&self) -> (r: MotionCurveConsumerDomain)
        ensures
            r == self.domain_spec(),
    {
        self.domain
    }
}

pub open spec fn consumer_ids(consumers: Seq<MotionCurveConsumer>) -> Seq<Seq<char>> {
    consumers.map_values(|c: MotionCurveConsumer| c.id_spec())
}

/// Two consumers of the list carry the same id.
pub open spec fn has_duplicate_ids(consumers: Seq<MotionCurveConsumer>) -> bool {
    exists|i: int, j: int|
        0 <= i < consumers.len() && 0 <= j < consumers.len() && i != j && (#[trigger] consumers[i]).id_spec()
            == (#[trigger] consumers[j]).id_spec()
}

/// Every consumer of a non-empty list allows overshoot and reverse.
pub open spec fn all_allow_excursion(consumers: Seq<MotionCurveConsumer>) -> bool {
    consumers.len() > 0 && forall|i: int|
        0 <= i < consumers.len() ==> domain_allows_excursion(#[trigger] consumers[i].domain_spec())
}

/// The set of consumers a curve is edited for, ordered by id.
#[derive(Debug)]
pub struct MotionCurveConsumerSet {
    consumers: Vec<MotionCurveConsumer>,
    allow_overshoot: bool,
    allow_reverse: bool,
}

impl MotionCurveConsumerSet {
    pub closed spec fn consumers_spec(&self) -> Seq<MotionCurveConsumer> {
        self.consumers@
    }

    pub closed spec fn allow_overshoot_spec(&self) -> bool {
        self.allow_overshoot
    }

    pub closed spec fn allow_reverse_spec(&self) -> bool {
        self.allow_reverse
    }

    /// The consumers ordered by id; overshoot and reverse are allowed only
    /// when there is a consumer and every consumer allows them.
    pub fn new(consumers: Vec<MotionCurveConsumer>) -> (r: Result<Self, MotionCurveEditorError>)
        ensures
            consumers@.len() > MAX_CONSUMERS ==> r matches Err(MotionCurveEditorError::TooManyConsumers),
            consumers@.len() <= MAX_CONSUMERS && has_duplicate_ids(consumers@) ==> r matches Err(
                MotionCurveEditorError::DuplicateConsumer,
            ),
            consumers@.len() <= MAX_CONSUMERS && !has_duplicate_ids(consumers@) ==> (r matches Ok(set) && {
                &&& set.consumers_spec().to_multiset() == consumers@.to_multiset()
                &&& strictly_sorted(consumer_ids(set.consumers_spec()))
                &&& set.allow_overshoot_spec() == all_allow_excursion(consumers@)
                &&& set.allow_reverse_spec() == all_allow_excursion(consumers@)
            }),
    {
        if consumers.len() > MAX_CONSUMERS {
            return Err(MotionCurveEditorError::TooManyConsumers);
        }
        let ghost input = consumers@;
        let mut remaining = consumers;
        let mut sorted: Vec<MotionCurveConsumer> = Vec::new();
        let mut overshoot = true;
        let n = remaining.len();
        proof {
            assert(input.skip(n as int) =~= Seq::<MotionCurveConsumer>::empty());
            assert(remaining@ =~= input.take(n as int));
        }
        while remaining.len() > 0
            invariant
                input == consumers@,
                n == input.len(),
                n <= MAX_CONSUMERS,
                remaining@.len() + sorted@.len() == n,
                remaining@ == input.take(remaining@.len() as int),
                sorted@.to_multiset() == input.skip(remaining@.len() as int).to_multiset(),
                strictly_sorted(consumer_ids(sorted@)),
                overshoot == forall|i: int|
                    remaining@.len() <= i < n ==> domain_allows_excursion(#[trigger] input[i].domain_spec()),
                !has_duplicate_ids(input.skip(remaining@.len() as int)),
            decreases remaining@.len(),
        {
            let consumer = remaining.pop().unwrap();
            let ghost k = remaining@.len() as int;
            let ghost rest = input.skip(k + 1);
            proof {
                broadcast use vstd::seq_lib::group_to_multiset_ensures;
                assert(remaining@ =~= input.take(k));
                assert(consumer == input[k]);
                assert(input.skip(k) =~= rest.insert(0, consumer));
            }
            let mut position: usize = 0;
            let mut duplicate = false;
            let mut stop = false;
            while position < sorted.len() && !stop
                invariant
                    position <= sorted@.len(),
                    forall|j: int| 0 <= j < position ==> text_lt(#[trigger] sorted@[j].id_spec(), consumer.id_spec()),
                    duplicate ==> stop && position < sorted@.len() && sorted@[position as int].id_spec()
                        == consumer.id_spec(),
                    stop && !duplicate ==> position < sorted@.len() && text_lt(
                        consumer.id_spec(),
                        sorted@[position as int].id_spec(),
                    ),
                decreases sorted@.len() - position, if stop { 0int } else { 1int },
            {
                let order = compare_text(sorted[position].id.as_str(), consumer.id.as_str());
                if order == TextOrder::Greater {
                    stop = true;
                } else if order == TextOrder::Equal {
                    duplicate = true;
                    stop = true;
                } else {
                    position = position + 1;
                }
            }
            let ghost ids = consumer_ids(sorted@);
            if duplicate {
                proof {
                    broadcast use vstd::seq_lib::group_to_multiset_ensures;
                    let e = sorted@[position as int];
                    assert(sorted@.contains(e));
                    assert(sorted@.to_multiset().count(e) > 0);
                    assert(rest.to_multiset().count(e) > 0);
                    assert(rest.contains(e));
                    let m = choose|m: int| 0 <= m < rest.len() && rest[m] == e;
                    assert(input[k + 1 + m] == e);
                    assert(input[k].id_spec() == input[k + 1 + m].id_spec());
                    assert(has_duplicate_ids(input));
                }
                return Err(MotionCurveEditorError::DuplicateConsumer);
            }
            proof {
                // every id already placed differs from the new one
                assert forall|q: int| 0 <= q < sorted@.len() implies (#[trigger] sorted@[q]).id_spec()
                    != consumer.id_spec() by {
                    if q < position {
                        lemma_text_lt_irreflexive(consumer.id_spec());
                    } else {
                        if q > position {
                            assert(text_lt(ids[position as int], ids[q]));
                            lemma_text_lt_transitive(consumer.id_spec(), ids[position as int], ids[q]);
                        }
                        lemma_text_lt_irreflexive(consumer.id_spec());
                    }
                }
            }
            let ghost overshoot_before = overshoot;
            if !consumer.domain.allows_overshoot() {
                overshoot = false;
            }
            proof {
                assert(input[k].domain_spec() == consumer.domain);
                if overshoot {
                    assert forall|i: int| k <= i < n implies domain_allows_excursion(
                        #[trigger] input[i].domain_spec(),
                    ) by {
                        if i > k {
                            assert(overshoot_before);
                        }
                    }
                } else if !overshoot_before {
                    let i = choose|i: int| k + 1 <= i < n && !domain_allows_excursion(
                        #[trigger] input[i].domain_spec(),
                    );
                    assert(!domain_allows_excursion(input[i].domain_spec()));
                } else {
                    assert(!domain_allows_excursion(input[k].domain_spec()));
                }
            }
            let ghost before = sorted@;
            sorted.insert(position, consumer);
            proof {
                broadcast use vstd::seq_lib::group_to_multiset_ensures;
                let after = sorted@;
                assert(after == before.insert(position as int, consumer));
                assert(after.to_multiset() == before.to_multiset().insert(consumer));
                assert(input.skip(k).to_multiset() == rest.to_multiset().insert(consumer));
                let new_ids = consumer_ids(after);
                assert forall|a: int, b: int| 0 <= a < b < new_ids.len() implies text_lt(
                    #[trigger] new_ids[a],
                    #[trigger] new_ids[b],
                ) by {
                    let p = position as int;
                    if b < p {
                        assert(new_ids[a] == ids[a] && new_ids[b] == ids[b]);
                    } else if b == p {
                        assert(new_ids[b] == consumer.id_spec());
                        assert(new_ids[a] == ids[a]);
                    } else if a == p {
                        assert(new_ids[a] == consumer.id_spec());
                        assert(new_ids[b] == ids[b - 1]);
                        if b - 1 > p {
                            assert(text_lt(ids[p], ids[b - 1]));
                            lemma_text_lt_transitive(consumer.id_spec(), ids[p], ids[b - 1]);
                        }
                    } else if a < p {
                        assert(new_ids[a] == ids[a]);
                        assert(new_ids[b] == ids[b - 1]);
                        if a < b - 1 {
                            assert(text_lt(ids[a], ids[b - 1]));
                        }
                    } else {
                        assert(new_ids[a] == ids[a - 1]);
                        assert(new_ids[b] == ids[b - 1]);
                    }
                }
                let whole = input.skip(k);
                assert forall|a: int, b: int|
                    0 <= a < whole.len() && 0 <= b < whole.len() && a != b implies (#[trigger] whole[a]).id_spec()
                    != (#[trigger] whole[b]).id_spec() by {
                    if a > 0 && b > 0 {
                        assert(whole[a] == rest[a - 1] && whole[b] == rest[b - 1]);
                    } else {
                        let other = if a == 0 {
                            b
                        } else {
                            a
                        };
                        let e = whole[other];
                        assert(e == rest[other - 1]);
                        assert(rest.contains(e));
                        assert(rest.to_multiset().count(e) > 0);
                        assert(before.to_multiset().count(e) > 0);
                        assert(before.contains(e));
                        let q = choose|q: int| 0 <= q < before.len() && before[q] == e;
                        assert(before[q].id_spec() != consumer.id_spec());
                        assert(whole[0] == consumer);
                    }
                }
            }
        }
        proof {
            assert(input.skip(0) =~= input);
        }
        let allow = overshoot && sorted.len() > 0;
        proof {
            assert(sorted@.len() == input.len());
        }
        Ok(MotionCurveConsumerSet { consumers: sorted, allow_overshoot: allow, allow_reverse: allow })
    }

    /// The empty set: no consumer, so neither overshoot nor reverse.
    pub fn conservative() -> (r: Self)
        ensures
            r.consumers_spec().len() == 0,
            !r.allow_overshoot_spec(),
            !r.allow_reverse_spec(),
    {
        MotionCurveConsumerSet { consumers: Vec::new(), allow_overshoot: false, allow_reverse: false }
    }

    pub fn consumers(&self) -> (r: &[MotionCurveConsumer])
        ensures
            r@ == self.consumers_spec(),
    {
        self.consumers.as_slice()
    }

    pub fn allows_overshoot(&self) -> (r: bool)
        ensures
            r == self.allow_overshoot_spec(),
    {
        self.allow_overshoot
    }

    pub fn allows_reverse(&self) -> (r: bool)
        ensures
            r == self.allow_reverse_spec(),
    {
        self.allow_reverse
    }
}

} // verus!
