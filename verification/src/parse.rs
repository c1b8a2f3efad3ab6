//! Reading a hand from its three-letter code: `a`, `b` and `q`, in either case.

use vstd::prelude::*;
use vstd::string::*;
use crate::card::{CardKind, Hand};

verus! {

/// Why a text is not a hand.
#[derive(Debug, Clone, PartialEq, Eq)]
pub enum ParseError {
    /// The text does not hold three characters: how many it holds, and the text itself.
    InvalidLength { length: usize, input: String },
    /// A letter that names no card kind, or `None` where the letters ran out.
    InvalidCardCode { found: Option<char> },
}

/// The kind that a lower-case letter names.
pub open spec fn translated(c: Option<char>) -> Result<CardKind, ParseError> {
    if c == Some('a') {
        Ok(CardKind::Arts)
    } else if c == Some('b') {
        Ok(CardKind::Buster)
    } else if c == Some('q') {
        Ok(CardKind::Quick)
    } else {
        Err(ParseError::InvalidCardCode { found: c })
    }
}

/// Maps a lower-case letter to its card kind, and anything else to `InvalidCardCode`.
pub fn translate(c: Option<char>) -> (kind: Result<CardKind, ParseError>)
    ensures
        kind == translated(c),
{
    match c {
        Some('a') => Ok(CardKind::Arts),
        Some('b') => Ok(CardKind::Buster),
        Some('q') => Ok(CardKind::Quick),
        _ => Err(ParseError::InvalidCardCode { found: c }),
    }
}

/// The letter at `index`, if the text reaches that far.
pub open spec fn code_at(codes: Seq<char>, index: int) -> Option<char> {
    if 0 <= index < codes.len() {
        Some(codes[index])
    } else {
        None
    }
}

/// The hand that the first three lower-case letters name, or the error of the
/// first letter that names no kind.
pub open spec fn parsed_codes(codes: Seq<char>) -> Result<Seq<CardKind>, ParseError> {
    match translated(code_at(codes, 0)) {
        Err(e) => Err(e),
        Ok(first) => match translated(code_at(codes, 1)) {
            Err(e) => Err(e),
            Ok(second) => match translated(code_at(codes, 2)) {
                Err(e) => Err(e),
                Ok(third) => Ok(seq![first, second, third]),
            },
        },
    }
}

/// A parse result with the hand taken as the sequence of its cards.
pub open spec fn outcome_view(outcome: Result<Hand, ParseError>) -> Result<
    Seq<CardKind>,
    ParseError,
> {
    match outcome {
        Ok(hand) => Ok(hand@),
        Err(e) => Err(e),
    }
}

/// Reads a hand from lower-case letters: the first three, left to right,
/// stopping at the first that names no kind.
pub fn hand_from_codes(codes: &str) -> (outcome: Result<Hand, ParseError>)
    ensures
        outcome_view(outcome) == parsed_codes(codes@),
{
    let count = codes.unicode_len();
    let mut result = [CardKind::Arts, CardKind::Arts, CardKind::Arts];
    let mut i: usize = 0;
    while i < 3
        invariant
            i <= 3,
            count == codes@.len(),
            forall|j: int| 0 <= j < i ==> translated(#[trigger] code_at(codes@, j)) == Ok::<
                CardKind,
                ParseError,
            >(result@[j]),
        decreases 3 - i,
    {
        let code = if i < count { Some(codes.get_char(i)) } else { None };
        match translate(code) {
            Ok(kind) => {
                result[i] = kind;
            },
            Err(e) => {
                return Err(e);
            },
        }
        i += 1;
    }
    assert(result@ =~= seq![result@[0], result@[1], result@[2]]);
    Ok(result)
}

/// The lower-case form of a text, as `str::to_lowercase` gives it.
pub uninterp spec fn lowercase_of(text: Seq<char>) -> Seq<char>;

/// Calls `str::to_lowercase`, which maps every character of the text to its
/// Unicode lower-case form. The result is a function of the text alone; the
/// contract only gives it its name.
#[verifier::external_body]
fn lowercase(text: &str) -> (lower: String)
    ensures
        lower@ == lowercase_of(text@),
{
    text.to_lowercase()
}

/// Reads a hand from a text of exactly three characters, one letter per card, in
/// either case. A text of another length is `InvalidLength`, with the length and
/// the text; otherwise the first letter that names no kind is `InvalidCardCode`.
pub fn to_hand(query: &str) -> (outcome: Result<Hand, ParseError>)
    ensures
        query@.len() != 3 ==> (match outcome {
            Err(ParseError::InvalidLength { length, input }) => length == query@.len() && input@
                == query@,
            _ => false,
        }),
        query@.len() == 3 ==> outcome_view(outcome) == parsed_codes(lowercase_of(query@)),
{
    let length = query.unicode_len();
    if length != 3 {
        return Err(ParseError::InvalidLength { length, input: query.to_owned() });
    }
    let lower = lowercase(query);
    hand_from_codes(lower.as_str())
}

/// The lower-case letter that names a kind.
pub open spec fn code_of(kind: CardKind) -> char {
    match kind {
        CardKind::Quick => 'q',
        CardKind::Arts => 'a',
        CardKind::Buster => 'b',
    }
}

/// Reading the letters of a hand gives that hand back, whatever follows the third letter.
pub proof fn law_codes_round_trip(hand: Seq<CardKind>, codes: Seq<char>)
    requires
        hand.len() == 3,
        codes.len() >= 3,
        forall|i: int| 0 <= i < 3 ==> codes[i] == code_of(hand[i]),
    ensures
        parsed_codes(codes) == Ok::<Seq<CardKind>, ParseError>(hand),
{
    assert(code_at(codes, 0) == Some(code_of(hand[0])));
    assert(code_at(codes, 1) == Some(code_of(hand[1])));
    assert(code_at(codes, 2) == Some(code_of(hand[2])));
    assert(hand =~= seq![hand[0], hand[1], hand[2]]);
}

/// Reading fails exactly when one of the first three letters names no kind,
/// and then with the first such letter.
pub proof fn law_first_bad_code_is_reported(codes: Seq<char>, index: int)
    requires
        0 <= index < 3,
        translated(code_at(codes, index)) is Err,
        forall|i: int| 0 <= i < index ==> translated(code_at(codes, i)) is Ok,
    ensures
        parsed_codes(codes) == Err::<Seq<CardKind>, ParseError>(
            ParseError::InvalidCardCode { found: code_at(codes, index) },
        ),
{
    if index > 0 {
        assert(translated(code_at(codes, 0)) is Ok);
    }
    if index > 1 {
        assert(translated(code_at(codes, 1)) is Ok);
    }
}

} // verus!
