//! The card vocabulary: kinds, hands, slots, and full-chain detection.

use vstd::prelude::*;

verus! {

/// One of the three playable card kinds.
#[derive(PartialEq, Eq, Structural, Clone, Copy, Hash, Debug)]
pub enum CardKind {
    Quick,
    Arts,
    Buster,
}

/// A slot of a turn. `Extra` is the follow-up hit after the three played cards.
#[derive(PartialEq, Eq, Structural, Clone, Copy, Debug)]
pub enum Position {
    First,
    Second,
    Third,
    Extra,
}

/// One specific play order of three cards.
pub type Hand = [CardKind; 3];

impl CardKind {
    /// The capital letter that a kind is shown as.
    pub open spec fn spec_letter(self) -> char {
        match self {
            CardKind::Quick => 'Q',
            CardKind::Arts => 'A',
            CardKind::Buster => 'B',
        }
    }

    /// The capital letter that this kind is shown as.
    #[verifier::when_used_as_spec(spec_letter)]
    pub fn letter(self) -> (c: char)
        ensures
            c == self.spec_letter(),
    {
        match self {
            CardKind::Quick => 'Q',
            CardKind::Arts => 'A',
            CardKind::Buster => 'B',
        }
    }
}

/// The slot of the `index`-th played card.
pub open spec fn slot_of(index: int) -> Position {
    if index == 0 {
        Position::First
    } else if index == 1 {
        Position::Second
    } else if index == 2 {
        Position::Third
    } else {
        Position::Extra
    }
}

/// The slot of the `index`-th played card; any index past the third card is the follow-up slot.
pub fn index_to_position(index: usize) -> (p: Position)
    ensures
        p == slot_of(index as int),
{
    if index == 0 {
        Position::First
    } else if index == 1 {
        Position::Second
    } else if index == 2 {
        Position::Third
    } else {
        Position::Extra
    }
}

/// The kind of a full chain: present exactly when all three cards are of one kind.
pub open spec fn chain_of(hand: Seq<CardKind>) -> Option<CardKind>
    recommends
        hand.len() == 3,
{
    if hand[0] == hand[1] && hand[1] == hand[2] {
        Some(hand[0])
    } else {
        None
    }
}

/// Detects a full chain.
pub fn chain_type(cards: &Hand) -> (chain: Option<CardKind>)
    ensures
        chain == chain_of(cards@),
{
    if cards[0] == cards[1] && cards[1] == cards[2] {
        Some(cards[0])
    } else {
        None
    }
}

/// Whether two hands hold the same kinds in the same order.
pub fn same_hand(a: &Hand, b: &Hand) -> (same: bool)
    ensures
        same == (a@ == b@),
{
    let same = a[0] == b[0] && a[1] == b[1] && a[2] == b[2];
    proof {
        if same {
            assert(a@ =~= b@);
        }
    }
    same
}

/// The hand made of the first three cards of a sequence; `Arts` fills the places
/// that the sequence does not reach.
pub open spec fn hand_of(cards: Seq<CardKind>) -> Seq<CardKind> {
    Seq::new(3, |i: int| if i < cards.len() { cards[i] } else { CardKind::Arts })
}

/// Builds a hand from the first three cards of a slice.
pub fn to_cards(hand: &[CardKind]) -> (cards: Hand)
    ensures
        cards@ == hand_of(hand@),
        hand@.len() == 3 ==> cards@ == hand@,
{
    let mut result = [CardKind::Arts, CardKind::Arts, CardKind::Arts];
    let mut i: usize = 0;
    while i < 3 && i < hand.len()
        invariant
            i <= 3,
            i <= hand@.len(),
            forall|j: int| 0 <= j < i ==> result@[j] == hand@[j],
            forall|j: int| i <= j < 3 ==> result@[j] == CardKind::Arts,
        decreases 3 - i,
    {
        result[i] = hand[i];
        i += 1;
    }
    assert(result@ =~= hand_of(hand@));
    proof {
        if hand@.len() == 3 {
            assert(result@ =~= hand@);
        }
    }
    result
}

/// A hand of three identical cards is a full chain of that kind, and a hand
/// whose cards are not all equal is no chain.
pub proof fn law_chain_iff_uniform(hand: Seq<CardKind>, kind: CardKind)
    requires
        hand.len() == 3,
    ensures
        chain_of(hand) == Some(kind) <==> (hand[0] == kind && hand[1] == kind && hand[2] == kind),
        chain_of(hand) is None <==> !(hand[0] == hand[1] && hand[1] == hand[2]),
{
}

} // verus!
