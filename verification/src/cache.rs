//! The evaluations of one query: each distinct play order with its totals, kept once.

use vstd::prelude::*;
use crate::card::{CardKind, Hand, same_hand};
use crate::formula::{HandStats, hand_stats, stats_of};
use crate::permute::{
    combinations,
    distinct_orderings,
    is_ordering_of,
    law_distinct_orderings_count,
    lists,
};

verus! {

/// A play order with its totals.
#[derive(Clone, Copy, Debug, PartialEq, Eq)]
pub struct HandData {
    pub hand: Hand,
    pub data: HandStats,
}

/// Play orders with their totals, in the order in which they were first inserted.
/// No play order is held twice.
#[derive(Clone, Debug)]
pub struct EvaluationSet {
    entries: Vec<HandData>,
}

/// The place of `hand` among `entries`, where it occurs.
pub open spec fn place_of(entries: Seq<HandData>, hand: Seq<CardKind>) -> int {
    choose|i: int| 0 <= i < entries.len() && (#[trigger] entries[i]).hand@ == hand
}

/// No two entries hold the same play order.
pub open spec fn distinct_hands(entries: Seq<HandData>) -> bool {
    forall|i: int, j: int|
        0 <= i < j < entries.len() ==> (#[trigger] entries[i]).hand@ != (#[trigger] entries[j]).hand@
}

/// Some entry holds the play order `hand`.
pub open spec fn holds(entries: Seq<HandData>, hand: Seq<CardKind>) -> bool {
    exists|i: int| 0 <= i < entries.len() && (#[trigger] entries[i]).hand@ == hand
}

/// Among entries with distinct hands, each entry stands at the place of its hand.
pub proof fn lemma_place_of(entries: Seq<HandData>, i: int)
    requires
        distinct_hands(entries),
        0 <= i < entries.len(),
    ensures
        place_of(entries, entries[i].hand@) == i,
{
    let p = place_of(entries, entries[i].hand@);
    assert(0 <= p < entries.len() && entries[p].hand@ == entries[i].hand@);
    if p < i {
        assert(entries[p].hand@ != entries[i].hand@);
    } else if i < p {
        assert(entries[i].hand@ != entries[p].hand@);
    }
}

/// After `hand` got the totals `stats`, in its old place or at the end, the
/// entries hold `stats` for `hand` and for every other play order what they held.
proof fn lemma_mapping_after(
    before: Seq<HandData>,
    after: Seq<HandData>,
    hand: Seq<CardKind>,
    stats: HandStats,
)
    requires
        distinct_hands(before),
        distinct_hands(after),
        after.len() >= before.len(),
        forall|i: int|
            0 <= i < before.len() ==> (#[trigger] after[i]).hand@ == before[i].hand@ && (
            before[i].hand@ != hand ==> after[i] == before[i]),
        forall|i: int| 0 <= i < after.len() && (#[trigger] after[i]).hand@ == hand ==> after[i].data
            == stats,
        forall|i: int| before.len() <= i < after.len() ==> (#[trigger] after[i]).hand@ == hand,
        holds(after, hand),
    ensures
        forall|other: Seq<CardKind>| #[trigger]
            holds(after, other) <==> holds(before, other) || other == hand,
        forall|other: Seq<CardKind>| #[trigger]
            holds(after, other) ==> after[place_of(after, other)].data == (if other == hand {
                stats
            } else {
                before[place_of(before, other)].data
            }),
{
    assert forall|other: Seq<CardKind>| #[trigger]
        holds(after, other) <==> holds(before, other) || other == hand by {
        if holds(after, other) {
            let i = place_of(after, other);
            if i < before.len() {
                assert(before[i].hand@ == other);
            }
        }
        if holds(before, other) {
            let i = place_of(before, other);
            assert(after[i].hand@ == other);
        }
    }
    assert forall|other: Seq<CardKind>| #[trigger] holds(after, other) implies after[place_of(
        after,
        other,
    )].data == (if other == hand {
        stats
    } else {
        before[place_of(before, other)].data
    }) by {
        let i = place_of(after, other);
        if other != hand {
            assert(before[i].hand@ == other);
            lemma_place_of(before, i);
        }
    }
}

impl EvaluationSet {
    /// The entries, in insertion order.
    pub closed spec fn view(&self) -> Seq<HandData> {
        self.entries@
    }

    /// The invariant: no play order is held twice.
    pub open spec fn wf(&self) -> bool {
        distinct_hands(self@)
    }

    /// The set as a mapping from play orders to their totals.
    pub open spec fn mapping(&self) -> Map<Seq<CardKind>, HandStats> {
        Map::new(
            |hand: Seq<CardKind>| holds(self@, hand),
            |hand: Seq<CardKind>| self@[place_of(self@, hand)].data,
        )
    }

    /// An empty set.
    pub fn new() -> (set: Self)
        ensures
            set.wf(),
            set@.len() == 0,
            set.mapping() == Map::<Seq<CardKind>, HandStats>::empty(),
    {
        let set = EvaluationSet { entries: Vec::new() };
        assert(set.mapping() =~= Map::<Seq<CardKind>, HandStats>::empty());
        set
    }

    /// The number of play orders held.
    pub fn len(&self) -> (n: usize)
        ensures
            n == self@.len(),
    {
        self.entries.len()
    }

    /// A copy of the entries, in insertion order.
    pub fn entries(&self) -> (copy: Vec<HandData>)
        ensures
            copy@ == self@,
    {
        let mut copy: Vec<HandData> = Vec::new();
        let mut i: usize = 0;
        while i < self.entries.len()
            invariant
                i <= self.entries@.len(),
                copy@ == self.entries@.take(i as int),
            decreases self.entries@.len() - i,
        {
            copy.push(self.entries[i]);
            assert(self.entries@.take(i + 1) =~= self.entries@.take(i as int).push(
                self.entries@[i as int],
            ));
            i += 1;
        }
        assert(self.entries@.take(i as int) =~= self.entries@);
        copy
    }

    /// The index of the entry for `hand`, if there is one.
    fn find(&self, hand: &Hand) -> (found: Option<usize>)
        ensures
            match found {
                Some(i) => i < self@.len() && self@[i as int].hand@ == hand@,
                None => !holds(self@, hand@),
            },
    {
        let mut i: usize = 0;
        while i < self.entries.len()
            invariant
                i <= self.entries@.len(),
                forall|j: int| 0 <= j < i ==> (#[trigger] self.entries@[j]).hand@ != hand@,
            decreases self.entries@.len() - i,
        {
            if same_hand(&self.entries[i].hand, hand) {
                return Some(i);
            }
            i += 1;
        }
        None
    }

    /// Whether the play order is held.
    pub fn contains_key(&self, hand: &Hand) -> (present: bool)
        ensures
            present == holds(self@, hand@),
    {
        self.find(hand).is_some()
    }

    /// The totals held for a play order.
    pub fn get(&self, hand: &Hand) -> (stats: Option<HandStats>)
        requires
            self.wf(),
        ensures
            match stats {
                Some(s) => holds(self@, hand@) && s == self@[place_of(self@, hand@)].data,
                None => !holds(self@, hand@),
            },
            stats == (if self.mapping().dom().contains(hand@) {
                Some(self.mapping()[hand@])
            } else {
                None
            }),
    {
        match self.find(hand) {
            Some(i) => {
                proof {
                    lemma_place_of(self@, i as int);
                }
                Some(self.entries[i].data)
            },
            None => None,
        }
    }

    /// Holds `stats` for `hand`. A play order that is new goes to the end; one
    /// that is held keeps its place, takes the new totals and hands back the old.
    pub fn insert(&mut self, hand: Hand, stats: HandStats) -> (previous: Option<HandStats>)
        requires
            old(self).wf(),
        ensures
            final(self).wf(),
            match previous {
                None => !holds(old(self)@, hand@) && final(self)@ == old(self)@.push(
                    (HandData { hand, data: stats }),
                ),
                Some(p) => holds(old(self)@, hand@) && p == old(self)@[place_of(
                    old(self)@,
                    hand@,
                )].data && final(self)@ == old(self)@.update(
                    place_of(old(self)@, hand@),
                    (HandData { hand: old(self)@[place_of(old(self)@, hand@)].hand, data: stats }),
                ),
            },
            previous == (if old(self).mapping().dom().contains(hand@) {
                Some(old(self).mapping()[hand@])
            } else {
                None
            }),
            final(self).mapping() == old(self).mapping().insert(hand@, stats),
    {
        let ghost before = self@;
        match self.find(&hand) {
            Some(i) => {
                proof {
                    lemma_place_of(self@, i as int);
                }
                let held = self.entries[i];
                self.entries.set(i, HandData { hand: held.hand, data: stats });
                proof {
                    assert(self@[i as int].hand@ == hand@);
                    lemma_mapping_after(before, self@, hand@, stats);
                    assert(self.mapping() =~= old(self).mapping().insert(hand@, stats));
                }
                Some(held.data)
            },
            None => {
                self.entries.push(HandData { hand, data: stats });
                proof {
                    assert(self@[before.len() as int].hand@ == hand@);
                    lemma_mapping_after(before, self@, hand@, stats);
                    assert(self.mapping() =~= old(self).mapping().insert(hand@, stats));
                }
                None
            },
        }
    }
}

/// Every entry is a play order of `cards` with that order's totals, and every
/// play order of `cards` has an entry.
pub open spec fn evaluates(entries: Seq<HandData>, cards: Seq<CardKind>) -> bool {
    &&& forall|i: int|
        0 <= i < entries.len() ==> is_ordering_of((#[trigger] entries[i]).hand@, cards)
            && entries[i].data == stats_of(entries[i].hand@)
    &&& forall|hand: Seq<CardKind>| #[trigger] is_ordering_of(hand, cards) ==> holds(entries, hand)
}

/// The evaluation of `cards`: the totals of each of their play orders.
pub open spec fn evaluation_of(cards: Seq<CardKind>) -> Map<Seq<CardKind>, HandStats> {
    Map::new(|hand: Seq<CardKind>| is_ordering_of(hand, cards), |hand: Seq<CardKind>| stats_of(hand))
}

/// A set with distinct hands that evaluates `cards` is, as a mapping, the evaluation of `cards`.
pub proof fn lemma_mapping_of_evaluated(set: EvaluationSet, cards: Seq<CardKind>)
    requires
        set.wf(),
        evaluates(set@, cards),
    ensures
        set.mapping() == evaluation_of(cards),
{
    assert forall|hand: Seq<CardKind>| holds(set@, hand) <==> is_ordering_of(hand, cards) by {
        if holds(set@, hand) {
            let i = place_of(set@, hand);
            assert(is_ordering_of(set@[i].hand@, cards));
        }
    }
    assert forall|hand: Seq<CardKind>| holds(set@, hand) implies set@[place_of(set@, hand)].data
        == stats_of(hand) by {
        let i = place_of(set@, hand);
        assert(set@[i].data == stats_of(set@[i].hand@));
    }
    assert(set.mapping() =~= evaluation_of(cards));
}

/// Evaluates every distinct play order of three cards once, and counts the
/// evaluations made: as many as there are distinct play orders.
pub fn data_counted(cards: &[CardKind]) -> (out: (EvaluationSet, usize))
    requires
        cards@.len() == 3,
    ensures
        out.0.wf(),
        evaluates(out.0@, cards@),
        out.0.mapping() == evaluation_of(cards@),
        out.0@.len() == distinct_orderings(cards@),
        out.1 == distinct_orderings(cards@),
{
    let hands = combinations(cards);
    let mut result = EvaluationSet::new();
    let mut evaluations: usize = 0;
    let mut k: usize = 0;
    while k < hands.len()
        invariant
            k <= hands@.len(),
            result.wf(),
            evaluations == result@.len(),
            result@.len() <= k,
            forall|n: int| 0 <= n < hands@.len() ==> is_ordering_of(#[trigger] hands@[n]@, cards@),
            forall|i: int|
                0 <= i < result@.len() ==> is_ordering_of((#[trigger] result@[i]).hand@, cards@)
                    && result@[i].data == stats_of(result@[i].hand@),
            forall|n: int| 0 <= n < k ==> holds(result@, (#[trigger] hands@[n])@),
        decreases hands@.len() - k,
    {
        let hand = hands[k];
        let ghost before = result@;
        if !result.contains_key(&hand) {
            let stats = hand_stats(&hand);
            evaluations += 1;
            result.insert(hand, stats);
            proof {
                assert(result@[before.len() as int].hand@ == hand@);
                assert forall|n: int| 0 <= n < k implies holds(result@, (#[trigger] hands@[n])@) by {
                    assert(holds(before, hands@[n]@));
                    let i = choose|i: int|
                        0 <= i < before.len() && (#[trigger] before[i]).hand@ == hands@[n]@;
                    assert(result@[i].hand@ == hands@[n]@);
                }
            }
        }
        k += 1;
    }
    proof {
        assert forall|hand: Seq<CardKind>| #[trigger] is_ordering_of(hand, cards@) implies holds(
            result@,
            hand,
        ) by {
            assert(lists(hands@, hand));
            let n = choose|n: int| 0 <= n < hands@.len() && (#[trigger] hands@[n])@ == hand;
            assert(holds(result@, hands@[n]@));
        }
        lemma_count_of_evaluated(result@, cards@);
        lemma_mapping_of_evaluated(result, cards@);
    }
    (result, evaluations)
}

/// Distinct entries that cover the play orders of three cards are as many as
/// the cards have distinct play orders.
pub proof fn lemma_count_of_evaluated(entries: Seq<HandData>, cards: Seq<CardKind>)
    requires
        cards.len() == 3,
        distinct_hands(entries),
        evaluates(entries, cards),
    ensures
        entries.len() == distinct_orderings(cards),
{
    let keys = Seq::new(entries.len(), |i: int| entries[i].hand@);
    assert forall|hand: Seq<CardKind>| #[trigger] is_ordering_of(hand, cards) implies keys.contains(
        hand,
    ) by {
        assert(holds(entries, hand));
        let i = choose|i: int| 0 <= i < entries.len() && (#[trigger] entries[i]).hand@ == hand;
        assert(keys[i] == hand);
    }
    law_distinct_orderings_count(cards, keys);
}

/// Evaluates every distinct play order of three cards, each exactly once.
pub fn data(cards: &[CardKind]) -> (set: EvaluationSet)
    requires
        cards@.len() == 3,
    ensures
        set.wf(),
        evaluates(set@, cards@),
        set.mapping() == evaluation_of(cards@),
        set@.len() == distinct_orderings(cards@),
{
    data_counted(cards).0
}

} // verus!
