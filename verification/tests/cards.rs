use brave_chain::card::{chain_type, index_to_position, same_hand, to_cards, CardKind, Hand, Position};
use brave_chain::card::CardKind::{Arts, Buster, Quick};

const KINDS: [CardKind; 3] = [Quick, Arts, Buster];

#[test]
fn chain_of_three_equal_cards_is_that_kind() {
    for kind in KINDS {
        assert_eq!(chain_type(&[kind, kind, kind]), Some(kind));
    }
}

#[test]
fn chain_of_mixed_cards_is_none() {
    for a in KINDS {
        for b in KINDS {
            for c in KINDS {
                let hand: Hand = [a, b, c];
                if !(a == b && b == c) {
                    assert_eq!(chain_type(&hand), None);
                }
            }
        }
    }
}

#[test]
fn chain_needs_all_three_cards() {
    assert_eq!(chain_type(&[Buster, Buster, Quick]), None);
    assert_eq!(chain_type(&[Quick, Buster, Buster]), None);
    assert_eq!(chain_type(&[Buster, Quick, Buster]), None);
}

#[test]
fn letters_are_capitals() {
    assert_eq!(Quick.letter(), 'Q');
    assert_eq!(Arts.letter(), 'A');
    assert_eq!(Buster.letter(), 'B');
}

#[test]
fn positions_follow_the_index() {
    assert_eq!(index_to_position(0), Position::First);
    assert_eq!(index_to_position(1), Position::Second);
    assert_eq!(index_to_position(2), Position::Third);
    assert_eq!(index_to_position(3), Position::Extra);
    assert_eq!(index_to_position(17), Position::Extra);
}

#[test]
fn same_hand_compares_every_place() {
    assert!(same_hand(&[Arts, Buster, Quick], &[Arts, Buster, Quick]));
    assert!(!same_hand(&[Arts, Buster, Quick], &[Arts, Quick, Buster]));
    assert!(!same_hand(&[Arts, Buster, Quick], &[Buster, Buster, Quick]));
    assert!(!same_hand(&[Arts, Buster, Quick], &[Arts, Buster, Arts]));
}

#[test]
fn to_cards_copies_three_cards() {
    assert_eq!(to_cards(&[Buster, Quick, Arts]), [Buster, Quick, Arts]);
}

#[test]
fn to_cards_fills_with_arts_and_drops_the_rest() {
    assert_eq!(to_cards(&[]), [Arts, Arts, Arts]);
    assert_eq!(to_cards(&[Buster]), [Buster, Arts, Arts]);
    assert_eq!(to_cards(&[Buster, Quick]), [Buster, Quick, Arts]);
    assert_eq!(to_cards(&[Quick, Quick, Buster, Buster]), [Quick, Quick, Buster]);
}
