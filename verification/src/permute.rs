//! Every play order of a set of cards.

use vstd::prelude::*;
use vstd::seq_lib::*;
use vstd::multiset::*;
use vstd::slice::slice_to_vec;
use crate::card::{CardKind, Hand, to_cards};

verus! {

broadcast use {group_to_multiset_ensures, group_multiset_axioms};

/// `hand` plays exactly the cards of `cards`, each as often as it occurs there, in some order.
pub open spec fn is_ordering_of(hand: Seq<CardKind>, cards: Seq<CardKind>) -> bool {
    hand.to_multiset() == cards.to_multiset()
}

/// Some element of `hands` is the play order `hand`.
pub open spec fn emits(hands: Seq<Vec<CardKind>>, hand: Seq<CardKind>) -> bool {
    exists|k: int| 0 <= k < hands.len() && (#[trigger] hands[k])@ == hand
}

/// Some element of `hands` is the play order `hand`.
pub open spec fn lists(hands: Seq<Hand>, hand: Seq<CardKind>) -> bool {
    exists|k: int| 0 <= k < hands.len() && (#[trigger] hands[k])@ == hand
}

/// Copies the cards without the first occurrence of `item`; a card that does not
/// occur leaves the copy whole.
pub fn clone_and_remove_item(items: &[CardKind], item: &CardKind) -> (rest: Vec<CardKind>)
    ensures
        rest@ == items@.remove_value(*item),
{
    let mut copy = slice_to_vec(items);
    let mut i: usize = 0;
    while i < items.len()
        invariant
            i <= items@.len(),
            copy@ == items@,
            forall|j: int| 0 <= j < i ==> items@[j] != *item,
        decreases items@.len() - i,
    {
        if items[i] == *item {
            copy.remove(i);
            proof {
                items@.index_of_first_ensures(*item);
                assert(items@.contains(*item));
                assert(items@.index_of_first(*item) == Some(i as int));
            }
            return copy;
        }
        i += 1;
    }
    proof {
        items@.index_of_first_ensures(*item);
        assert(!items@.contains(*item));
    }
    copy
}

/// The number of ways to line up `n` cards told apart by their places: `n` factorial.
pub open spec fn arrangements(n: nat) -> nat
    decreases n,
{
    if n == 0 {
        1
    } else {
        n * arrangements((n - 1) as nat)
    }
}

/// Copies a play order and appends one card.
fn with_card(hand: &Vec<CardKind>, card: CardKind) -> (longer: Vec<CardKind>)
    ensures
        longer@ == hand@.push(card),
{
    let mut longer = slice_to_vec(hand.as_slice());
    longer.push(card);
    longer
}

/// Every play order of `cards`, by choosing each card in turn as the last one
/// and ordering the others before it.
pub fn combinations_rec(cards: &[CardKind]) -> (hands: Vec<Vec<CardKind>>)
    ensures
        forall|k: int| 0 <= k < hands@.len() ==> is_ordering_of(#[trigger] hands@[k]@, cards@),
        forall|hand: Seq<CardKind>| #[trigger]
            is_ordering_of(hand, cards@) ==> emits(hands@, hand),
        hands@.len() == arrangements(cards@.len()),
    decreases cards@.len(),
{
    let mut result: Vec<Vec<CardKind>> = Vec::new();
    if cards.len() == 0 {
        result.push(Vec::new());
        proof {
            assert(result@[0]@ =~= cards@);
            assert forall|hand: Seq<CardKind>| #[trigger]
                is_ordering_of(hand, cards@) implies emits(result@, hand) by {
                assert(hand.len() == hand.to_multiset().len());
                assert(cards@.len() == cards@.to_multiset().len());
                assert(hand =~= result@[0]@);
            }
        }
        return result;
    }
    let mut i: usize = 0;
    while i < cards.len()
        invariant
            i <= cards@.len(),
            cards@.len() > 0,
            result@.len() == i * arrangements((cards@.len() - 1) as nat),
            forall|k: int| 0 <= k < result@.len() ==> is_ordering_of(#[trigger] result@[k]@, cards@),
            forall|hand: Seq<CardKind>, c: int| #[trigger]
                is_ordering_of(hand, cards@) && 0 <= c < i && hand.len() > 0 && hand.last()
                    == #[trigger] cards@[c] ==> emits(result@, hand),
        decreases cards@.len() - i,
    {
        let card = cards[i];
        let rest = clone_and_remove_item(cards, &card);
        proof {
            cards@.index_of_first_ensures(card);
            assert(cards@.contains(card));
        }
        let ghost at = cards@.index_of_first(card).unwrap();
        assert(rest@ == cards@.remove(at));
        assert(rest@.to_multiset() == cards@.to_multiset().remove(card));
        let shorter = combinations_rec(rest.as_slice());
        let ghost before = result@;
        assert((i + 1) * arrangements((cards@.len() - 1) as nat) == i * arrangements(
            (cards@.len() - 1) as nat,
        ) + arrangements((cards@.len() - 1) as nat)) by (nonlinear_arith);
        let mut j: usize = 0;
        while j < shorter.len()
            invariant
                j <= shorter@.len(),
                result@.len() == before.len() + j,
                forall|k: int| 0 <= k < before.len() ==> result@[k] == before[k],
                forall|k: int|
                    0 <= k < j ==> (#[trigger] result@[before.len() + k])@ == shorter@[k]@.push(card),
            decreases shorter@.len() - j,
        {
            let longer = with_card(&shorter[j], card);
            result.push(longer);
            j += 1;
        }
        proof {
            assert forall|k: int| 0 <= k < result@.len() implies is_ordering_of(
                #[trigger] result@[k]@,
                cards@,
            ) by {
                if k < before.len() {
                    assert(result@[k] == before[k]);
                } else {
                    let m = k - before.len();
                    assert(result@[before.len() + m]@ == shorter@[m]@.push(card));
                    assert(is_ordering_of(shorter@[m]@, rest@));
                    assert(cards@.to_multiset().remove(card).insert(card)
                        =~= cards@.to_multiset());
                }
            }
            assert forall|hand: Seq<CardKind>, c: int| #[trigger]
                is_ordering_of(hand, cards@) && 0 <= c < i + 1 && hand.len() > 0 && hand.last()
                    == #[trigger] cards@[c] implies emits(result@, hand) by {
                if c < i {
                    assert(emits(before, hand));
                    let k = choose|k: int| 0 <= k < before.len() && (#[trigger] before[k])@ == hand;
                    assert(result@[k] == before[k]);
                } else {
                    let front = hand.drop_last();
                    assert(front =~= hand.remove(hand.len() - 1));
                    assert(front.to_multiset() == hand.to_multiset().remove(card));
                    assert(is_ordering_of(front, rest@));
                    assert(emits(shorter@, front));
                    let m = choose|m: int| 0 <= m < shorter@.len() && (#[trigger] shorter@[m])@ == front;
                    assert(result@[before.len() + m]@ == shorter@[m]@.push(card));
                    assert(front.push(card) =~= hand);
                }
            }
        }
        i += 1;
    }
    proof {
        assert forall|hand: Seq<CardKind>| #[trigger]
            is_ordering_of(hand, cards@) implies emits(result@, hand) by {
            assert(hand.len() == hand.to_multiset().len());
            assert(cards@.len() == cards@.to_multiset().len());
            let last = hand.last();
            assert(hand.contains(last));
            assert(hand.to_multiset().count(last) > 0);
            assert(cards@.contains(last));
            let c = choose|c: int| 0 <= c < cards@.len() && cards@[c] == last;
            assert(hand.last() == cards@[c]);
        }
    }
    result
}

/// Every play order of three cards: each order of the three occurs in the
/// result, and the result holds nothing else. The result has six hands, one for
/// each way to line up the three places, so equal cards give equal hands.
pub fn combinations(cards: &[CardKind]) -> (hands: Vec<Hand>)
    requires
        cards@.len() == 3,
    ensures
        forall|k: int| 0 <= k < hands@.len() ==> is_ordering_of(#[trigger] hands@[k]@, cards@),
        forall|hand: Seq<CardKind>| #[trigger]
            is_ordering_of(hand, cards@) ==> lists(hands@, hand),
        hands@.len() == 6,
{
    assert(arrangements(3) == 6) by {
        reveal_with_fuel(arrangements, 4);
    }
    let orders = combinations_rec(cards);
    let mut hands: Vec<Hand> = Vec::new();
    let mut k: usize = 0;
    while k < orders.len()
        invariant
            k <= orders@.len(),
            hands@.len() == k,
            cards@.len() == 3,
            forall|n: int| 0 <= n < orders@.len() ==> is_ordering_of(#[trigger] orders@[n]@, cards@),
            forall|n: int| 0 <= n < k ==> (#[trigger] hands@[n])@ == orders@[n]@,
        decreases orders@.len() - k,
    {
        proof {
            assert(is_ordering_of(orders@[k as int]@, cards@));
            assert(orders@[k as int]@.len() == orders@[k as int]@.to_multiset().len());
            assert(cards@.len() == cards@.to_multiset().len());
        }
        let hand = to_cards(orders[k].as_slice());
        hands.push(hand);
        k += 1;
    }
    proof {
        assert forall|hand: Seq<CardKind>| #[trigger]
            is_ordering_of(hand, cards@) implies lists(hands@, hand) by {
            assert(emits(orders@, hand));
            let n = choose|n: int| 0 <= n < orders@.len() && (#[trigger] orders@[n])@ == hand;
            assert(hands@[n]@ == hand);
        }
    }
    hands
}

/// How often `kind` occurs among three cards.
pub open spec fn occurrences(cards: Seq<CardKind>, kind: CardKind) -> nat
    recommends
        cards.len() == 3,
{
    ((if cards[0] == kind { 1nat } else { 0nat }) + (if cards[1] == kind { 1nat } else { 0nat })
        + (if cards[2] == kind { 1nat } else { 0nat })) as nat
}

/// How many different play orders three cards have: one when all are equal,
/// three when exactly two are equal, six when all differ.
pub open spec fn distinct_orderings(cards: Seq<CardKind>) -> nat
    recommends
        cards.len() == 3,
{
    if cards[0] == cards[1] && cards[1] == cards[2] {
        1
    } else if cards[0] != cards[1] && cards[1] != cards[2] && cards[0] != cards[2] {
        6
    } else {
        3
    }
}

proof fn lemma_occurrences(cards: Seq<CardKind>, kind: CardKind)
    requires
        cards.len() == 3,
    ensures
        cards.to_multiset().count(kind) == occurrences(cards, kind),
{
    let none = Seq::<CardKind>::empty();
    assert(none.to_multiset() =~= Multiset::<CardKind>::empty()) by {
        to_multiset_len(none);
    }
    assert(cards =~= none.push(cards[0]).push(cards[1]).push(cards[2]));
}

/// Among hands of three, a play order of `cards` is a hand in which each kind
/// occurs as often as in `cards`.
pub proof fn lemma_ordering_by_occurrences(hand: Seq<CardKind>, cards: Seq<CardKind>)
    requires
        cards.len() == 3,
    ensures
        is_ordering_of(hand, cards) <==> (hand.len() == 3 && forall|kind: CardKind|
            occurrences(hand, kind) == occurrences(cards, kind)),
{
    to_multiset_len(hand);
    to_multiset_len(cards);
    if hand.len() == 3 {
        assert forall|kind: CardKind|
            hand.to_multiset().count(kind) == occurrences(hand, kind) && cards.to_multiset().count(
                kind,
            ) == occurrences(cards, kind) by {
            lemma_occurrences(hand, kind);
            lemma_occurrences(cards, kind);
        }
        if forall|kind: CardKind| occurrences(hand, kind) == occurrences(cards, kind) {
            assert forall|kind: CardKind| #[trigger]
                hand.to_multiset().count(kind) == cards.to_multiset().count(kind) by {
                assert(occurrences(hand, kind) == occurrences(cards, kind));
            }
            assert(hand.to_multiset() =~= cards.to_multiset());
        }
        if is_ordering_of(hand, cards) {
            assert forall|kind: CardKind| occurrences(hand, kind) == occurrences(cards, kind) by {
                assert(hand.to_multiset().count(kind) == cards.to_multiset().count(kind));
            }
        }
    }
}

/// Three cards have exactly one play order when all are equal, three when
/// exactly two are equal, and six when all differ: any list that holds every
/// play order of `cards`, each once and nothing else, has that length.
pub proof fn law_distinct_orderings_count(cards: Seq<CardKind>, hands: Seq<Seq<CardKind>>)
    requires
        cards.len() == 3,
        hands.no_duplicates(),
        forall|k: int| 0 <= k < hands.len() ==> is_ordering_of(#[trigger] hands[k], cards),
        forall|hand: Seq<CardKind>| #[trigger] is_ordering_of(hand, cards) ==> hands.contains(hand),
    ensures
        hands.len() == distinct_orderings(cards),
{
    let x = cards[0];
    let y = cards[1];
    let z = cards[2];
    let s1 = seq![x, y, z];
    let s2 = seq![x, z, y];
    let s3 = seq![y, x, z];
    let s4 = seq![y, z, x];
    let s5 = seq![z, x, y];
    let s6 = seq![z, y, x];
    assert(s1[0] == x && s1[1] == y && s1[2] == z);
    assert(s2[0] == x && s2[1] == z && s2[2] == y);
    assert(s3[0] == y && s3[1] == x && s3[2] == z);
    assert(s4[0] == y && s4[1] == z && s4[2] == x);
    assert(s5[0] == z && s5[1] == x && s5[2] == y);
    assert(s6[0] == z && s6[1] == y && s6[2] == x);
    let all = set![s1, s2, s3, s4, s5, s6];
    assert forall|hand: Seq<CardKind>| hands.to_set().contains(hand) <==> all.contains(hand) by {
        lemma_ordering_by_occurrences(hand, cards);
        if hands.contains(hand) {
            assert(is_ordering_of(hand, cards));
            assert(occurrences(hand, CardKind::Quick) == occurrences(cards, CardKind::Quick));
            assert(occurrences(hand, CardKind::Arts) == occurrences(cards, CardKind::Arts));
            assert(occurrences(hand, CardKind::Buster) == occurrences(cards, CardKind::Buster));
            if hand[0] == x && hand[1] == y && hand[2] == z {
                assert(hand =~= s1);
            } else if hand[0] == x && hand[1] == z && hand[2] == y {
                assert(hand =~= s2);
            } else if hand[0] == y && hand[1] == x && hand[2] == z {
                assert(hand =~= s3);
            } else if hand[0] == y && hand[1] == z && hand[2] == x {
                assert(hand =~= s4);
            } else if hand[0] == z && hand[1] == x && hand[2] == y {
                assert(hand =~= s5);
            } else if hand[0] == z && hand[1] == y && hand[2] == x {
                assert(hand =~= s6);
            } else {
                assert(false);
            }
        }
        if all.contains(hand) {
            assert(hand.len() == 3);
            assert(is_ordering_of(hand, cards));
        }
    }
    assert(hands.to_set() =~= all);
    hands.unique_seq_to_set();
    if x == y && y == z {
        assert(all =~= set![s1]);
    } else if x != y && y != z && x != z {
    } else if x == y {
        assert(all =~= set![s1, s2, s5]);
    } else if y == z {
        assert(all =~= set![s1, s3, s4]);
    } else {
        assert(all =~= set![s1, s2, s3]);
    }
}

} // verus!
