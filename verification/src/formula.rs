//! The turn formula: what each card contributes in each slot, and the totals of a hand.
//!
//! Every quantity is an exact count of thousandths: `1500` stands for 1.5.

use vstd::prelude::*;
use crate::card::{CardKind, Position, Hand, chain_of, chain_type, slot_of, index_to_position};

verus! {

/// Attack power, in whole units.
pub const ATTACK_POWER: u64 = 7000;

/// Hits per card.
pub const HIT_COUNT: u64 = 2;

/// The damage coefficient 0.23, in hundredths.
pub const DAMAGE_COEFFICIENT_HUNDREDTHS: u64 = 23;

/// The resource rate 0.01, as the divisor 100.
pub const RESOURCE_RATE_DIVISOR: u64 = 100;

/// The base rate 0.1 of the secondary resource, in thousandths.
pub const SECONDARY_BASE: u64 = 100;

/// Damage, resource gain and secondary resource gain, each in thousandths.
#[derive(PartialEq, Eq, Structural, Clone, Copy, Debug)]
pub struct HandStats {
    pub damage: u64,
    pub np: u64,
    pub stars: u64,
}

/// The base contribution of a card in a slot; without a card, the follow-up hit's baseline.
pub open spec fn slot_stats(card: Option<CardKind>, position: Position) -> HandStats
    recommends
        card is Some ==> position != Position::Extra,
{
    match (card, position) {
        (Some(CardKind::Buster), Position::First) => HandStats { damage: 1500, np: 0, stars: 100 },
        (Some(CardKind::Buster), Position::Second) => HandStats { damage: 1800, np: 0, stars: 150 },
        (Some(CardKind::Buster), _) => HandStats { damage: 2100, np: 0, stars: 200 },
        (Some(CardKind::Quick), Position::First) => HandStats { damage: 800, np: 1000, stars: 800 },
        (Some(CardKind::Quick), Position::Second) => HandStats { damage: 960, np: 1500, stars: 1300 },
        (Some(CardKind::Quick), _) => HandStats { damage: 1120, np: 2000, stars: 1800 },
        (Some(CardKind::Arts), Position::First) => HandStats { damage: 1000, np: 3000, stars: 0 },
        (Some(CardKind::Arts), Position::Second) => HandStats { damage: 1200, np: 4500, stars: 0 },
        (Some(CardKind::Arts), _) => HandStats { damage: 1400, np: 6000, stars: 0 },
        (None, _) => HandStats { damage: 1000, np: 1000, stars: 1000 },
    }
}

/// Looks up the base contribution of a card in a slot. A card is never paired with
/// the follow-up slot.
pub fn card_stats(card: Option<CardKind>, position: Position) -> (stats: HandStats)
    requires
        card is Some ==> position != Position::Extra,
    ensures
        stats == slot_stats(card, position),
{
    match card {
        Some(CardKind::Buster) => match position {
            Position::First => HandStats { damage: 1500, np: 0, stars: 100 },
            Position::Second => HandStats { damage: 1800, np: 0, stars: 150 },
            _ => HandStats { damage: 2100, np: 0, stars: 200 },
        },
        Some(CardKind::Quick) => match position {
            Position::First => HandStats { damage: 800, np: 1000, stars: 800 },
            Position::Second => HandStats { damage: 960, np: 1500, stars: 1300 },
            _ => HandStats { damage: 1120, np: 2000, stars: 1800 },
        },
        Some(CardKind::Arts) => match position {
            Position::First => HandStats { damage: 1000, np: 3000, stars: 0 },
            Position::Second => HandStats { damage: 1200, np: 4500, stars: 0 },
            _ => HandStats { damage: 1400, np: 6000, stars: 0 },
        },
        None => HandStats { damage: 1000, np: 1000, stars: 1000 },
    }
}

/// 0.5 when a Buster card is played first.
pub open spec fn first_buster_bonus(hand: Seq<CardKind>) -> int {
    if hand[0] == CardKind::Buster { 500 } else { 0 }
}

/// 1.0 when an Arts card is played first.
pub open spec fn first_arts_bonus(hand: Seq<CardKind>) -> int {
    if hand[0] == CardKind::Arts { 1000 } else { 0 }
}

/// 0.2 in a full Buster chain.
pub open spec fn buster_chain_bonus(hand: Seq<CardKind>) -> int {
    if chain_of(hand) == Some(CardKind::Buster) { 200 } else { 0 }
}

/// 0.2 in a full Quick chain.
pub open spec fn quick_chain_bonus(hand: Seq<CardKind>) -> int {
    if chain_of(hand) == Some(CardKind::Quick) { 200 } else { 0 }
}

/// The contribution of slot `index`: the card played there, or the follow-up hit at index 3.
pub open spec fn contribution(hand: Seq<CardKind>, index: int) -> HandStats {
    if index < 3 {
        slot_stats(Some(hand[index]), slot_of(index))
    } else {
        slot_stats(None, Position::Extra)
    }
}

/// The multiplier of slot `index`, in tenths: 1.0 for a played card; for the
/// follow-up hit 2.0 without a chain and 3.5 with one.
pub open spec fn modifier_tenths(hand: Seq<CardKind>, index: int) -> int {
    if index < 3 {
        10
    } else if chain_of(hand) is None {
        20
    } else {
        35
    }
}

/// Damage of slot `index`:
/// 0.23 x modifier x attack power x (first-Buster bonus + slot damage) + attack power x Buster-chain bonus.
pub open spec fn damage_term(hand: Seq<CardKind>, index: int) -> int {
    DAMAGE_COEFFICIENT_HUNDREDTHS * modifier_tenths(hand, index) * ATTACK_POWER * (
    first_buster_bonus(hand) + contribution(hand, index).damage) / 1000 + ATTACK_POWER
        * buster_chain_bonus(hand)
}

/// Resource gain of slot `index`: hits x rate x (first-Arts bonus + slot resource).
pub open spec fn resource_term(hand: Seq<CardKind>, index: int) -> int {
    HIT_COUNT * (first_arts_bonus(hand) + contribution(hand, index).np) / (
    RESOURCE_RATE_DIVISOR as int)
}

/// Secondary gain of slot `index`: hits x (base rate + Quick-chain bonus + slot secondary).
pub open spec fn secondary_term(hand: Seq<CardKind>, index: int) -> int {
    HIT_COUNT * (SECONDARY_BASE + quick_chain_bonus(hand) + contribution(hand, index).stars)
}

/// Damage of the first `slots` slots.
pub open spec fn damage_through(hand: Seq<CardKind>, slots: nat) -> int
    decreases slots,
{
    if slots == 0 {
        0
    } else {
        damage_through(hand, (slots - 1) as nat) + damage_term(hand, slots - 1)
    }
}

/// Resource gain of the first `slots` slots; a full Arts chain starts at 0.2.
pub open spec fn resource_through(hand: Seq<CardKind>, slots: nat) -> int
    decreases slots,
{
    if slots == 0 {
        if chain_of(hand) == Some(CardKind::Arts) { 200 } else { 0 }
    } else {
        resource_through(hand, (slots - 1) as nat) + resource_term(hand, slots - 1)
    }
}

/// Secondary gain of the first `slots` slots; a full Quick chain starts at 10.
pub open spec fn secondary_through(hand: Seq<CardKind>, slots: nat) -> int
    decreases slots,
{
    if slots == 0 {
        if chain_of(hand) == Some(CardKind::Quick) { 10000 } else { 0 }
    } else {
        secondary_through(hand, (slots - 1) as nat) + secondary_term(hand, slots - 1)
    }
}

/// Total damage of a hand over its three cards and the follow-up hit.
pub open spec fn total_damage(hand: Seq<CardKind>) -> int {
    damage_through(hand, 4)
}

/// Total resource gain of a hand.
pub open spec fn total_resource(hand: Seq<CardKind>) -> int {
    resource_through(hand, 4)
}

/// Total secondary gain of a hand.
pub open spec fn total_secondary(hand: Seq<CardKind>) -> int {
    secondary_through(hand, 4)
}

/// The totals of a hand as one value.
pub open spec fn stats_of(hand: Seq<CardKind>) -> HandStats {
    HandStats {
        damage: total_damage(hand) as u64,
        np: total_resource(hand) as u64,
        stars: total_secondary(hand) as u64,
    }
}

/// Each slot's terms stay far below the machine's limits.
pub proof fn lemma_term_bounds(hand: Seq<CardKind>, index: int)
    requires
        hand.len() == 3,
        0 <= index < 4,
    ensures
        0 <= damage_term(hand, index) <= 16_051_000,
        0 <= resource_term(hand, index) <= 140,
        0 <= secondary_term(hand, index) <= 4_200,
        0 <= contribution(hand, index).damage <= 2100,
        0 <= contribution(hand, index).np <= 6000,
        0 <= contribution(hand, index).stars <= 1800,
{
    let m = modifier_tenths(hand, index);
    let d = first_buster_bonus(hand) + contribution(hand, index).damage;
    assert(0 <= 23 * m * 7000 * d <= 23 * 35 * 7000 * 2600) by (nonlinear_arith)
        requires
            10 <= m <= 35,
            0 <= d <= 2600,
    ;
}

/// Evaluates one play order: folds the three cards and the follow-up hit into
/// damage, resource gain and secondary gain.
pub fn hand_stats(cards: &Hand) -> (stats: HandStats)
    ensures
        stats.damage == total_damage(cards@),
        stats.np == total_resource(cards@),
        stats.stars == total_secondary(cards@),
        stats == stats_of(cards@),
{
    let first_buster: u64 = if cards[0] == CardKind::Buster { 500 } else { 0 };
    let first_arts: u64 = if cards[0] == CardKind::Arts { 1000 } else { 0 };
    let chain = chain_type(cards);
    let buster_chain: u64 = if chain == Some(CardKind::Buster) { 200 } else { 0 };
    let quick_chain: u64 = if chain == Some(CardKind::Quick) { 200 } else { 0 };
    let follow_up: u64 = if chain.is_none() { 20 } else { 35 };

    let mut acc = HandStats {
        damage: 0,
        np: if chain == Some(CardKind::Arts) { 200 } else { 0 },
        stars: if chain == Some(CardKind::Quick) { 10000 } else { 0 },
    };
    let mut i: usize = 0;
    while i < 4
        invariant
            i <= 4,
            chain == chain_of(cards@),
            first_buster == first_buster_bonus(cards@),
            first_arts == first_arts_bonus(cards@),
            buster_chain == buster_chain_bonus(cards@),
            quick_chain == quick_chain_bonus(cards@),
            follow_up == modifier_tenths(cards@, 3),
            acc.damage == damage_through(cards@, i as nat),
            acc.np == resource_through(cards@, i as nat),
            acc.stars == secondary_through(cards@, i as nat),
            acc.damage <= i * 16_051_000,
            acc.np <= 200 + i * 140,
            acc.stars <= 10000 + i * 4_200,
        decreases 4 - i,
    {
        let slot = if i < 3 {
            card_stats(Some(cards[i]), index_to_position(i))
        } else {
            card_stats(None, Position::Extra)
        };
        let modifier: u64 = if i < 3 { 10 } else { follow_up };
        proof {
            lemma_term_bounds(cards@, i as int);
            assert(slot == contribution(cards@, i as int));
            assert(modifier == modifier_tenths(cards@, i as int));
            assert(0 <= 23 * modifier * 7000 * (first_buster + slot.damage) <= 23 * 35 * 7000
                * 2600) by (nonlinear_arith)
                requires
                    10 <= modifier <= 35,
                    0 <= first_buster + slot.damage <= 2600,
            ;
        }
        let scale: u64 = DAMAGE_COEFFICIENT_HUNDREDTHS * modifier * ATTACK_POWER;
        let damage: u64 = scale * (first_buster + slot.damage) / 1000 + ATTACK_POWER
            * buster_chain;
        let np: u64 = HIT_COUNT * (first_arts + slot.np) / RESOURCE_RATE_DIVISOR;
        let stars: u64 = HIT_COUNT * (SECONDARY_BASE + quick_chain + slot.stars);
        assert(damage == damage_term(cards@, i as int));
        acc = HandStats {
            damage: acc.damage + damage,
            np: acc.np + np,
            stars: acc.stars + stars,
        };
        i += 1;
    }
    acc
}

/// The totals depend on nothing but the cards and their order: two hands that
/// hold the same cards in the same order have the same totals.
pub proof fn law_totals_depend_on_cards_only(a: Hand, b: Hand)
    requires
        a@ == b@,
    ensures
        total_damage(a@) == total_damage(b@),
        total_resource(a@) == total_resource(b@),
        total_secondary(a@) == total_secondary(b@),
{
}

/// Counting in thousandths loses nothing: in every slot of every hand the two
/// divisions of the formula leave no remainder.
pub proof fn law_terms_are_exact(hand: Seq<CardKind>, index: int)
    requires
        hand.len() == 3,
        0 <= index < 4,
    ensures
        (DAMAGE_COEFFICIENT_HUNDREDTHS * modifier_tenths(hand, index) * ATTACK_POWER * (
        first_buster_bonus(hand) + contribution(hand, index).damage)) % 1000 == 0,
        (HIT_COUNT * (first_arts_bonus(hand) + contribution(hand, index).np)) % (
        RESOURCE_RATE_DIVISOR as int) == 0,
{
    let m = modifier_tenths(hand, index);
    let d = first_buster_bonus(hand) + contribution(hand, index).damage;
    assert(23 * m * 7000 * d == 1000 * (161 * m * d)) by (nonlinear_arith);
    assert((1000 * (161 * m * d)) % 1000 == 0) by (nonlinear_arith);
}

/// The damage of a slot with the constants multiplied out: 1610 per unit for a
/// played card, 3220 or 5635 for the follow-up hit, and 1400 more in a Buster chain.
pub proof fn lemma_damage_term_closed(hand: Seq<CardKind>, index: int)
    requires
        hand.len() == 3,
        0 <= index < 4,
    ensures
        damage_term(hand, index) == (if index < 3 {
            1610int
        } else if chain_of(hand) is None {
            3220int
        } else {
            5635int
        }) * (first_buster_bonus(hand) + contribution(hand, index).damage) + 7000
            * buster_chain_bonus(hand),
{
    let m = modifier_tenths(hand, index);
    let d = first_buster_bonus(hand) + contribution(hand, index).damage;
    assert(23 * m * 7000 * d / 1000 == 161 * m * d) by (nonlinear_arith);
    assert(161 * m * d == (161 * m) * d) by (nonlinear_arith);
}

/// A full Buster chain deals 25161.5 damage, strictly more than any hand without a chain.
pub proof fn law_buster_chain_tops_unchained(hand: Seq<CardKind>)
    requires
        hand.len() == 3,
        chain_of(hand) is None,
    ensures
        total_damage(seq![CardKind::Buster, CardKind::Buster, CardKind::Buster]) == 25_161_500,
        total_damage(hand) < 25_161_500,
{
    reveal_with_fuel(damage_through, 5);
    let chain = seq![CardKind::Buster, CardKind::Buster, CardKind::Buster];
    assert(chain[0] == CardKind::Buster && chain[1] == CardKind::Buster && chain[2]
        == CardKind::Buster);
    lemma_damage_term_closed(chain, 0);
    lemma_damage_term_closed(chain, 1);
    lemma_damage_term_closed(chain, 2);
    lemma_damage_term_closed(chain, 3);
    lemma_damage_term_closed(hand, 0);
    lemma_damage_term_closed(hand, 1);
    lemma_damage_term_closed(hand, 2);
    lemma_damage_term_closed(hand, 3);
}

/// A full Quick chain gains 10 secondary resource at the start and 0.2 more in each of the four slots.
pub proof fn law_quick_chain_secondary(hand: Seq<CardKind>)
    requires
        hand.len() == 3,
        chain_of(hand) == Some(CardKind::Quick),
    ensures
        total_secondary(hand) == 10_000 + 4 * HIT_COUNT * (SECONDARY_BASE + 200) + HIT_COUNT * (800
            + 1300 + 1800 + 1000),
        total_resource(hand) == 110,
{
    reveal_with_fuel(secondary_through, 5);
    reveal_with_fuel(resource_through, 5);
}

} // verus!
