use brave_chain::cache::{data, data_counted, EvaluationSet};
use brave_chain::card::CardKind::{Arts, Buster, Quick};
use brave_chain::card::{CardKind, Hand};
use brave_chain::formula::{hand_stats, HandStats};
use brave_chain::permute::{clone_and_remove_item, combinations, combinations_rec};

fn distinct(hands: &[Hand]) -> Vec<Hand> {
    let mut seen: Vec<Hand> = Vec::new();
    for hand in hands {
        if !seen.contains(hand) {
            seen.push(*hand);
        }
    }
    seen
}

fn sorted_kinds(cards: &[CardKind]) -> Vec<char> {
    let mut letters: Vec<char> = cards.iter().map(|c| c.letter()).collect();
    letters.sort();
    letters
}

#[test]
fn remove_takes_the_first_occurrence_only() {
    assert_eq!(clone_and_remove_item(&[Buster, Quick, Buster], &Buster), vec![Quick, Buster]);
    assert_eq!(clone_and_remove_item(&[Quick, Buster, Buster], &Buster), vec![Quick, Buster]);
    assert_eq!(clone_and_remove_item(&[Arts], &Arts), vec![]);
}

#[test]
fn remove_of_a_missing_card_copies() {
    assert_eq!(clone_and_remove_item(&[Buster, Quick], &Arts), vec![Buster, Quick]);
    assert_eq!(clone_and_remove_item(&[], &Arts), vec![]);
}

#[test]
fn no_cards_have_one_empty_order() {
    assert_eq!(combinations_rec(&[]), vec![Vec::<CardKind>::new()]);
}

#[test]
fn two_cards_have_both_orders() {
    let orders = combinations_rec(&[Arts, Buster]);
    assert_eq!(orders.len(), 2);
    assert!(orders.contains(&vec![Arts, Buster]));
    assert!(orders.contains(&vec![Buster, Arts]));
}

#[test]
fn equal_cards_have_one_distinct_order() {
    for kind in [Quick, Arts, Buster] {
        let hands = combinations(&[kind, kind, kind]);
        assert_eq!(distinct(&hands), vec![[kind, kind, kind]]);
    }
}

#[test]
fn a_pair_has_three_distinct_orders() {
    let hands = distinct(&combinations(&[Buster, Buster, Quick]));
    assert_eq!(hands.len(), 3);
    assert!(hands.contains(&[Buster, Buster, Quick]));
    assert!(hands.contains(&[Buster, Quick, Buster]));
    assert!(hands.contains(&[Quick, Buster, Buster]));
}

#[test]
fn three_kinds_have_six_distinct_orders() {
    let hands = distinct(&combinations(&[Arts, Buster, Quick]));
    assert_eq!(hands.len(), 6);
    for hand in [
        [Arts, Buster, Quick],
        [Arts, Quick, Buster],
        [Buster, Arts, Quick],
        [Buster, Quick, Arts],
        [Quick, Arts, Buster],
        [Quick, Buster, Arts],
    ] {
        assert!(hands.contains(&hand));
    }
}

#[test]
fn every_order_plays_the_given_cards() {
    let kinds = [Quick, Arts, Buster];
    for a in kinds {
        for b in kinds {
            for c in kinds {
                for hand in combinations(&[a, b, c]) {
                    assert_eq!(sorted_kinds(&hand), sorted_kinds(&[a, b, c]));
                }
            }
        }
    }
}

#[test]
fn distinct_order_counts_over_all_inputs() {
    let kinds = [Quick, Arts, Buster];
    for a in kinds {
        for b in kinds {
            for c in kinds {
                let expected = if a == b && b == c {
                    1
                } else if a != b && b != c && a != c {
                    6
                } else {
                    3
                };
                assert_eq!(distinct(&combinations(&[a, b, c])).len(), expected);
                let (set, evaluations) = data_counted(&[a, b, c]);
                assert_eq!(set.len(), expected);
                assert_eq!(evaluations, expected);
            }
        }
    }
}

#[test]
fn data_of_a_chain_holds_one_hand() {
    let set = data(&[Buster, Buster, Buster]);
    assert_eq!(set.len(), 1);
    let entries = set.entries();
    assert_eq!(entries[0].hand, [Buster, Buster, Buster]);
    assert_eq!(entries[0].data, hand_stats(&[Buster, Buster, Buster]));
}

#[test]
fn data_of_a_pair_holds_three_hands() {
    let set = data(&[Arts, Arts, Buster]);
    assert_eq!(set.len(), 3);
    for hand in [[Arts, Arts, Buster], [Arts, Buster, Arts], [Buster, Arts, Arts]] {
        assert!(set.contains_key(&hand));
        assert_eq!(set.get(&hand), Some(hand_stats(&hand)));
    }
    assert!(!set.contains_key(&[Arts, Arts, Arts]));
    assert_eq!(set.get(&[Arts, Arts, Arts]), None);
}

#[test]
fn data_keys_are_distinct() {
    let entries = data(&[Quick, Arts, Buster]).entries();
    assert_eq!(entries.len(), 6);
    for i in 0..entries.len() {
        for j in 0..i {
            assert_ne!(entries[i].hand, entries[j].hand);
        }
    }
}

#[test]
fn insert_keeps_one_entry_per_hand() {
    let first = HandStats { damage: 1, np: 2, stars: 3 };
    let second = HandStats { damage: 4, np: 5, stars: 6 };
    let mut set = EvaluationSet::new();
    assert_eq!(set.len(), 0);
    assert_eq!(set.insert([Arts, Arts, Buster], first), None);
    assert_eq!(set.insert([Buster, Arts, Arts], first), None);
    assert_eq!(set.insert([Arts, Arts, Buster], second), Some(first));
    assert_eq!(set.len(), 2);
    assert_eq!(set.get(&[Arts, Arts, Buster]), Some(second));
    assert_eq!(set.entries()[0].hand, [Arts, Arts, Buster]);
    assert_eq!(set.entries()[1].hand, [Buster, Arts, Arts]);
}

#[test]
fn three_cards_give_six_hands_before_duplicates_go() {
    assert_eq!(combinations(&[Arts, Buster, Quick]).len(), 6);
    assert_eq!(combinations(&[Arts, Arts, Quick]).len(), 6);
    assert_eq!(combinations(&[Arts, Arts, Arts]).len(), 6);
}

#[test]
fn four_cards_give_twenty_four_orders() {
    let orders = combinations_rec(&[Arts, Buster, Quick, Arts]);
    assert_eq!(orders.len(), 24);
    assert!(orders.contains(&vec![Arts, Arts, Quick, Buster]));
    for order in &orders {
        assert_eq!(sorted_kinds(order), vec!['A', 'A', 'B', 'Q']);
    }
}

#[test]
fn last_card_of_each_order_is_chosen_in_turn() {
    assert_eq!(
        combinations(&[Arts, Buster, Quick]),
        vec![
            [Quick, Buster, Arts],
            [Buster, Quick, Arts],
            [Quick, Arts, Buster],
            [Arts, Quick, Buster],
            [Buster, Arts, Quick],
            [Arts, Buster, Quick],
        ]
    );
}
