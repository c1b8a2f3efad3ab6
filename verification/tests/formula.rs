use brave_chain::card::CardKind::{Arts, Buster, Quick};
use brave_chain::card::{CardKind, Hand, Position};
use brave_chain::formula::{card_stats, hand_stats, HandStats};

fn all_hands() -> Vec<Hand> {
    let kinds = [Quick, Arts, Buster];
    let mut hands = Vec::new();
    for a in kinds {
        for b in kinds {
            for c in kinds {
                hands.push([a, b, c]);
            }
        }
    }
    hands
}

fn table(kind: CardKind, slot: usize) -> (f64, f64, f64) {
    match (kind, slot) {
        (Buster, 0) => (1.5, 0.0, 0.10),
        (Buster, 1) => (1.8, 0.0, 0.15),
        (Buster, _) => (2.1, 0.0, 0.20),
        (Quick, 0) => (0.8, 1.0, 0.80),
        (Quick, 1) => (0.96, 1.5, 1.30),
        (Quick, _) => (1.12, 2.0, 1.80),
        (Arts, 0) => (1.0, 3.0, 0.0),
        (Arts, 1) => (1.2, 4.5, 0.0),
        (Arts, _) => (1.4, 6.0, 0.0),
    }
}

// The formula in floating point, slot by slot.
fn real_stats(hand: &Hand) -> (f64, f64, f64) {
    let chained = hand[0] == hand[1] && hand[1] == hand[2];
    let first_buster = if hand[0] == Buster { 0.5 } else { 0.0 };
    let first_arts = if hand[0] == Arts { 1.0 } else { 0.0 };
    let buster_chain = if chained && hand[0] == Buster { 0.2 } else { 0.0 };
    let quick_chain = if chained && hand[0] == Quick { 0.2 } else { 0.0 };
    let mut damage = 0.0;
    let mut np = if chained && hand[0] == Arts { 0.2 } else { 0.0 };
    let mut stars = if chained && hand[0] == Quick { 10.0 } else { 0.0 };
    for slot in 0..4 {
        let (d, n, s) = if slot < 3 { table(hand[slot], slot) } else { (1.0, 1.0, 1.0) };
        let modifier = if slot < 3 { 1.0 } else if chained { 3.5 } else { 2.0 };
        damage += 0.23 * modifier * 7000.0 * (first_buster + d) + 7000.0 * buster_chain;
        np += 2.0 * 0.01 * (first_arts + n);
        stars += 2.0 * (0.1 + quick_chain + s);
    }
    (damage, np, stars)
}

#[test]
fn card_stats_table_buster() {
    assert_eq!(card_stats(Some(Buster), Position::First), HandStats { damage: 1500, np: 0, stars: 100 });
    assert_eq!(card_stats(Some(Buster), Position::Second), HandStats { damage: 1800, np: 0, stars: 150 });
    assert_eq!(card_stats(Some(Buster), Position::Third), HandStats { damage: 2100, np: 0, stars: 200 });
}

#[test]
fn card_stats_table_quick() {
    assert_eq!(card_stats(Some(Quick), Position::First), HandStats { damage: 800, np: 1000, stars: 800 });
    assert_eq!(card_stats(Some(Quick), Position::Second), HandStats { damage: 960, np: 1500, stars: 1300 });
    assert_eq!(card_stats(Some(Quick), Position::Third), HandStats { damage: 1120, np: 2000, stars: 1800 });
}

#[test]
fn card_stats_table_arts() {
    assert_eq!(card_stats(Some(Arts), Position::First), HandStats { damage: 1000, np: 3000, stars: 0 });
    assert_eq!(card_stats(Some(Arts), Position::Second), HandStats { damage: 1200, np: 4500, stars: 0 });
    assert_eq!(card_stats(Some(Arts), Position::Third), HandStats { damage: 1400, np: 6000, stars: 0 });
}

#[test]
fn card_stats_without_a_card_is_the_baseline() {
    let baseline = HandStats { damage: 1000, np: 1000, stars: 1000 };
    assert_eq!(card_stats(None, Position::Extra), baseline);
    assert_eq!(card_stats(None, Position::First), baseline);
}

#[test]
fn buster_chain_totals() {
    assert_eq!(
        hand_stats(&[Buster, Buster, Buster]),
        HandStats { damage: 25_161_500, np: 20, stars: 3_700 }
    );
}

#[test]
fn quick_chain_totals() {
    assert_eq!(
        hand_stats(&[Quick, Quick, Quick]),
        HandStats { damage: 10_271_800, np: 110, stars: 22_200 }
    );
}

#[test]
fn arts_chain_totals() {
    assert_eq!(
        hand_stats(&[Arts, Arts, Arts]),
        HandStats { damage: 11_431_000, np: 570, stars: 2_800 }
    );
}

#[test]
fn unchained_totals() {
    assert_eq!(
        hand_stats(&[Arts, Arts, Buster]),
        HandStats { damage: 10_143_000, np: 250, stars: 3_200 }
    );
    assert_eq!(hand_stats(&[Buster, Arts, Arts]).damage, 13_846_000);
    assert_eq!(hand_stats(&[Buster, Arts, Arts]).np, 230);
    assert_eq!(hand_stats(&[Arts, Buster, Arts]).damage, 9_982_000);
    assert_eq!(hand_stats(&[Arts, Buster, Arts]).np, 280);
}

#[test]
fn quick_chain_gets_both_bonuses() {
    let chained = hand_stats(&[Quick, Quick, Quick]);
    // 10.0 at the start, and 0.2 twice over in each of the four slots
    let without = 2 * (100 + 800) + 2 * (100 + 1300) + 2 * (100 + 1800) + 2 * (100 + 1000);
    assert_eq!(chained.stars, 10_000 + 4 * 2 * 200 + without);
    assert_eq!(chained.np, 110);
}

#[test]
fn buster_chain_out_damages_every_unchained_hand() {
    let chain = hand_stats(&[Buster, Buster, Buster]).damage;
    for hand in all_hands() {
        if !(hand[0] == hand[1] && hand[1] == hand[2]) {
            assert!(hand_stats(&hand).damage < chain);
        }
    }
}

#[test]
fn hand_stats_is_repeatable() {
    for hand in all_hands() {
        let copy: Hand = [hand[0], hand[1], hand[2]];
        assert_eq!(hand_stats(&hand), hand_stats(&copy));
    }
}

#[test]
fn thousandths_agree_with_the_formula_over_the_reals() {
    for hand in all_hands() {
        let exact = hand_stats(&hand);
        let (damage, np, stars) = real_stats(&hand);
        assert!((exact.damage as f64 / 1000.0 - damage).abs() < 1e-6);
        assert!((exact.np as f64 / 1000.0 - np).abs() < 1e-9);
        assert!((exact.stars as f64 / 1000.0 - stars).abs() < 1e-9);
    }
}
