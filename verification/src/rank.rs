//! Ranking the evaluated play orders by a metric, best first.

use vstd::prelude::*;
use crate::card::{CardKind, Hand};
use crate::cache::{
    EvaluationSet,
    HandData,
    data,
    distinct_hands,
    evaluates,
    holds,
    lemma_count_of_evaluated,
    lemma_place_of,
    place_of,
};
use crate::formula::{HandStats, stats_of};
use crate::permute::{distinct_orderings, is_ordering_of};
use crate::parse::{ParseError, lowercase_of, parsed_codes, to_hand};

verus! {

/// What a ranking goes by.
#[derive(Clone, Copy, Debug, PartialEq, Eq, Structural)]
pub enum Metric {
    Damage,
    Resource,
}

/// The value of a metric in some totals.
pub open spec fn metric_of(stats: HandStats, metric: Metric) -> int {
    match metric {
        Metric::Damage => stats.damage as int,
        Metric::Resource => stats.np as int,
    }
}

/// The value of a metric in some totals.
pub fn metric_value(stats: &HandStats, metric: Metric) -> (value: u64)
    ensures
        value == metric_of(*stats, metric),
{
    match metric {
        Metric::Damage => stats.damage,
        Metric::Resource => stats.np,
    }
}

/// `a` ranks before `b`: it has more of the metric, or as much and the earlier place in `entries`.
pub open spec fn ranks_before(
    entries: Seq<HandData>,
    a: HandData,
    b: HandData,
    metric: Metric,
) -> bool {
    metric_of(a.data, metric) > metric_of(b.data, metric) || (metric_of(a.data, metric)
        == metric_of(b.data, metric) && place_of(entries, a.hand@) < place_of(entries, b.hand@))
}

/// `ranked` holds the entries of `entries`, each once, in descending order of
/// the metric, and entries with equal values in the order they have in `entries`.
pub open spec fn is_ranking(entries: Seq<HandData>, ranked: Seq<HandData>, metric: Metric) -> bool {
    &&& ranked.len() == entries.len()
    &&& distinct_hands(ranked)
    &&& forall|i: int|
        0 <= i < ranked.len() ==> holds(entries, (#[trigger] ranked[i]).hand@) && ranked[i]
            == entries[place_of(entries, ranked[i].hand@)]
    &&& forall|n: int| 0 <= n < entries.len() ==> holds(ranked, (#[trigger] entries[n]).hand@)
    &&& forall|i: int, j: int|
        0 <= i < j < ranked.len() ==> ranks_before(
            entries,
            #[trigger] ranked[i],
            #[trigger] ranked[j],
            metric,
        )
}

/// Ranks the entries of a set by a metric, best first; equal values keep their
/// insertion order.
pub fn rank(set: &EvaluationSet, metric: Metric) -> (ranked: Vec<HandData>)
    requires
        set.wf(),
    ensures
        is_ranking(set@, ranked@, metric),
{
    let entries = set.entries();
    let mut ranked: Vec<HandData> = Vec::new();
    let ghost mut from: Seq<int> = Seq::empty();
    let mut k: usize = 0;
    while k < entries.len()
        invariant
            k <= entries@.len(),
            entries@ == set@,
            distinct_hands(entries@),
            ranked@.len() == k,
            from.len() == k,
            forall|i: int| 0 <= i < k ==> 0 <= #[trigger] from[i] < k && ranked@[i] == entries@[from[i]],
            forall|n: int| 0 <= n < k ==> from.contains(n),
            forall|i: int, j: int|
                0 <= i < j < k ==> metric_of((#[trigger] ranked@[i]).data, metric) > metric_of(
                    (#[trigger] ranked@[j]).data,
                    metric,
                ) || (metric_of(ranked@[i].data, metric) == metric_of(ranked@[j].data, metric)
                    && from[i] < from[j]),
        decreases entries@.len() - k,
    {
        let item = entries[k];
        let key = metric_value(&item.data, metric);
        let mut p: usize = 0;
        while p < ranked.len() && metric_value(&ranked[p].data, metric) >= key
            invariant
                p <= ranked@.len(),
                forall|i: int| 0 <= i < p ==> metric_of(ranked@[i].data, metric) >= key,
            decreases ranked@.len() - p,
        {
            p += 1;
        }
        let ghost before = ranked@;
        let ghost origin = from;
        ranked.insert(p, item);
        proof {
            from = origin.insert(p as int, k as int);
            assert forall|n: int| 0 <= n < k + 1 implies from.contains(n) by {
                if n < k {
                    assert(origin.contains(n));
                    let i = choose|i: int| 0 <= i < origin.len() && origin[i] == n;
                    if i < p {
                        assert(from[i] == n);
                    } else {
                        assert(from[i + 1] == n);
                    }
                } else {
                    assert(from[p as int] == n);
                }
            }
            assert forall|i: int, j: int| 0 <= i < j < k + 1 implies metric_of(
                (#[trigger] ranked@[i]).data,
                metric,
            ) > metric_of((#[trigger] ranked@[j]).data, metric) || (metric_of(
                ranked@[i].data,
                metric,
            ) == metric_of(ranked@[j].data, metric) && from[i] < from[j]) by {
                if j < p {
                    assert(ranked@[i] == before[i] && ranked@[j] == before[j]);
                    assert(from[i] == origin[i] && from[j] == origin[j]);
                } else if j == p {
                    assert(ranked@[i] == before[i]);
                    assert(from[i] == origin[i]);
                } else if i < p {
                    assert(ranked@[i] == before[i] && ranked@[j] == before[j - 1]);
                    assert(from[i] == origin[i] && from[j] == origin[j - 1]);
                } else if i == p {
                    assert(ranked@[j] == before[j - 1]);
                    assert(from[j] == origin[j - 1]);
                    assert(metric_of(before[p as int].data, metric) < key);
                    assert(metric_of(before[p as int].data, metric) >= metric_of(
                        before[j - 1].data,
                        metric,
                    ));
                } else {
                    assert(ranked@[i] == before[i - 1] && ranked@[j] == before[j - 1]);
                    assert(from[i] == origin[i - 1] && from[j] == origin[j - 1]);
                }
            }
        }
        k += 1;
    }
    proof {
        assert forall|i: int| 0 <= i < ranked@.len() implies holds(
            set@,
            (#[trigger] ranked@[i]).hand@,
        ) && ranked@[i] == set@[place_of(set@, ranked@[i].hand@)] && place_of(
            set@,
            ranked@[i].hand@,
        ) == from[i] by {
            assert(ranked@[i] == entries@[from[i]]);
            lemma_place_of(set@, from[i]);
        }
        assert forall|n: int| 0 <= n < set@.len() implies holds(
            ranked@,
            (#[trigger] set@[n]).hand@,
        ) by {
            assert(from.contains(n));
            let i = choose|i: int| 0 <= i < from.len() && from[i] == n;
            assert(ranked@[i].hand@ == set@[n].hand@);
        }
        assert forall|i: int, j: int| 0 <= i < j < ranked@.len() implies (#[trigger] ranked@[i]).hand@
            != (#[trigger] ranked@[j]).hand@ by {
            assert(from[i] != from[j]);
            if from[i] < from[j] {
                assert(entries@[from[i]].hand@ != entries@[from[j]].hand@);
            } else {
                assert(entries@[from[j]].hand@ != entries@[from[i]].hand@);
            }
        }
    }
    ranked
}

/// Two rankings of the same entries agree in their first `upto` places.
proof fn lemma_rankings_agree(
    entries: Seq<HandData>,
    a: Seq<HandData>,
    b: Seq<HandData>,
    metric: Metric,
    upto: int,
)
    requires
        distinct_hands(entries),
        is_ranking(entries, a, metric),
        is_ranking(entries, b, metric),
        0 <= upto <= entries.len(),
    ensures
        forall|i: int| 0 <= i < upto ==> a[i] == b[i],
    decreases upto,
{
    if upto > 0 {
        lemma_rankings_agree(entries, a, b, metric, upto - 1);
        let i = upto - 1;
        // where the one's entry stands in the other
        let n = place_of(entries, a[i].hand@);
        assert(holds(entries, a[i].hand@));
        assert(holds(b, entries[n].hand@));
        let q = choose|q: int| 0 <= q < b.len() && (#[trigger] b[q]).hand@ == entries[n].hand@;
        assert(b[q] == entries[place_of(entries, b[q].hand@)]);
        assert(b[q] == a[i]);
        let m = place_of(entries, b[i].hand@);
        assert(holds(entries, b[i].hand@));
        assert(holds(a, entries[m].hand@));
        let r = choose|r: int| 0 <= r < a.len() && (#[trigger] a[r]).hand@ == entries[m].hand@;
        assert(a[r] == entries[place_of(entries, a[r].hand@)]);
        assert(a[r] == b[i]);
        if q < i {
            assert(a[q] == b[q]);
            assert(a[q].hand@ != a[i].hand@);
        } else if q > i {
            assert(ranks_before(entries, b[i], b[q], metric));
            assert(b[i].hand@ != b[q].hand@);
            if r < i {
                assert(a[r] == b[r]);
                assert(b[r].hand@ != b[i].hand@);
            } else if r > i {
                assert(ranks_before(entries, a[i], a[r], metric));
            }
        }
    }
}

/// Ranking is determined: entries with distinct hands have one ranking by a
/// metric and no other.
pub proof fn law_ranking_is_unique(
    entries: Seq<HandData>,
    a: Seq<HandData>,
    b: Seq<HandData>,
    metric: Metric,
)
    requires
        distinct_hands(entries),
        is_ranking(entries, a, metric),
        is_ranking(entries, b, metric),
    ensures
        a == b,
{
    lemma_rankings_agree(entries, a, b, metric, entries.len() as int);
    assert(a =~= b);
}

/// A ranking is descending, keeps the earlier of two equal entries first, and
/// holds every hand of the entries exactly once.
pub proof fn law_ranking_descends_and_keeps_order(
    entries: Seq<HandData>,
    ranked: Seq<HandData>,
    metric: Metric,
    i: int,
    j: int,
)
    requires
        distinct_hands(entries),
        is_ranking(entries, ranked, metric),
        0 <= i < j < ranked.len(),
    ensures
        metric_of(ranked[i].data, metric) >= metric_of(ranked[j].data, metric),
        metric_of(ranked[i].data, metric) == metric_of(ranked[j].data, metric) ==> place_of(
            entries,
            ranked[i].hand@,
        ) < place_of(entries, ranked[j].hand@),
        ranked[i].hand@ != ranked[j].hand@,
        holds(ranked, entries[i].hand@),
        holds(entries, ranked[i].hand@),
{
    assert(ranks_before(entries, ranked[i], ranked[j], metric));
}

/// The play orders of a hand, ranked by damage and ranked by resource gain.
#[derive(Clone, Debug)]
pub struct Rankings {
    pub by_damage: Vec<HandData>,
    pub by_resource: Vec<HandData>,
}

/// Both lists rank the evaluation of every distinct play order of `cards`.
pub open spec fn ranks_orderings_of(rankings: Rankings, cards: Seq<CardKind>) -> bool {
    exists|entries: Seq<HandData>|
        {
            &&& distinct_hands(entries)
            &&& #[trigger] evaluates(entries, cards)
            &&& is_ranking(entries, rankings.by_damage@, Metric::Damage)
            &&& is_ranking(entries, rankings.by_resource@, Metric::Resource)
        }
}

/// Rankings of the play orders of three cards hold every distinct play order
/// exactly once, each with its own totals, and run from the best down.
pub proof fn law_rankings_cover_orderings(rankings: Rankings, cards: Seq<CardKind>)
    requires
        cards.len() == 3,
        ranks_orderings_of(rankings, cards),
    ensures
        rankings.by_damage@.len() == distinct_orderings(cards),
        rankings.by_resource@.len() == distinct_orderings(cards),
        distinct_hands(rankings.by_damage@),
        distinct_hands(rankings.by_resource@),
        evaluates(rankings.by_damage@, cards),
        evaluates(rankings.by_resource@, cards),
        forall|i: int, j: int|
            0 <= i < j < rankings.by_damage@.len() ==> (#[trigger] rankings.by_damage@[i]).data.damage
                >= (#[trigger] rankings.by_damage@[j]).data.damage,
        forall|i: int, j: int|
            0 <= i < j < rankings.by_resource@.len() ==> (#[trigger] rankings.by_resource@[i]).data.np
                >= (#[trigger] rankings.by_resource@[j]).data.np,
{
    let entries = choose|entries: Seq<HandData>|
        {
            &&& distinct_hands(entries)
            &&& #[trigger] evaluates(entries, cards)
            &&& is_ranking(entries, rankings.by_damage@, Metric::Damage)
            &&& is_ranking(entries, rankings.by_resource@, Metric::Resource)
        };
    lemma_count_of_evaluated(entries, cards);
    lemma_ranking_evaluates(entries, rankings.by_damage@, Metric::Damage, cards);
    lemma_ranking_evaluates(entries, rankings.by_resource@, Metric::Resource, cards);
    assert forall|i: int, j: int| 0 <= i < j < rankings.by_damage@.len() implies (
    #[trigger] rankings.by_damage@[i]).data.damage >= (
    #[trigger] rankings.by_damage@[j]).data.damage by {
        assert(ranks_before(entries, rankings.by_damage@[i], rankings.by_damage@[j], Metric::Damage));
    }
    assert forall|i: int, j: int| 0 <= i < j < rankings.by_resource@.len() implies (
    #[trigger] rankings.by_resource@[i]).data.np >= (
    #[trigger] rankings.by_resource@[j]).data.np by {
        assert(ranks_before(
            entries,
            rankings.by_resource@[i],
            rankings.by_resource@[j],
            Metric::Resource,
        ));
    }
}

/// A ranking of entries that evaluate `cards` evaluates `cards` too.
proof fn lemma_ranking_evaluates(
    entries: Seq<HandData>,
    ranked: Seq<HandData>,
    metric: Metric,
    cards: Seq<CardKind>,
)
    requires
        distinct_hands(entries),
        evaluates(entries, cards),
        is_ranking(entries, ranked, metric),
    ensures
        evaluates(ranked, cards),
{
    assert forall|i: int| 0 <= i < ranked.len() implies is_ordering_of(
        (#[trigger] ranked[i]).hand@,
        cards,
    ) && ranked[i].data == stats_of(ranked[i].hand@) by {
        let n = place_of(entries, ranked[i].hand@);
        assert(holds(entries, ranked[i].hand@));
        assert(ranked[i] == entries[n]);
    }
    assert forall|hand: Seq<CardKind>| #[trigger] is_ordering_of(hand, cards) implies holds(
        ranked,
        hand,
    ) by {
        assert(holds(entries, hand));
        let n = place_of(entries, hand);
        assert(holds(ranked, entries[n].hand@));
    }
}

/// Evaluates every distinct play order of a hand and ranks them by damage and
/// by resource gain.
pub fn evaluate(hand: &Hand) -> (rankings: Rankings)
    ensures
        ranks_orderings_of(rankings, hand@),
{
    let set = data(hand.as_slice());
    let by_damage = rank(&set, Metric::Damage);
    let by_resource = rank(&set, Metric::Resource);
    let rankings = Rankings { by_damage, by_resource };
    assert(evaluates(set@, hand@));
    rankings
}

/// Reads a hand from its three letters and ranks its play orders. A text that
/// is no hand is refused with the error of the reading, and nothing is evaluated.
pub fn evaluate_hand(query: &str) -> (outcome: Result<Rankings, ParseError>)
    ensures
        query@.len() != 3 ==> (match outcome {
            Err(ParseError::InvalidLength { length, input }) => length == query@.len() && input@
                == query@,
            _ => false,
        }),
        query@.len() == 3 ==> (match parsed_codes(lowercase_of(query@)) {
            Ok(cards) => outcome is Ok && ranks_orderings_of(outcome->Ok_0, cards),
            Err(e) => outcome == Err::<Rankings, ParseError>(e),
        }),
{
    match to_hand(query) {
        Ok(hand) => Ok(evaluate(&hand)),
        Err(e) => Err(e),
    }
}

} // verus!
