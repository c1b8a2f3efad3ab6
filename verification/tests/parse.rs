use brave_chain::card::CardKind::{Arts, Buster, Quick};
use brave_chain::parse::{hand_from_codes, to_hand, translate, ParseError};

#[test]
fn translate_known_letters() {
    assert_eq!(translate(Some('a')), Ok(Arts));
    assert_eq!(translate(Some('b')), Ok(Buster));
    assert_eq!(translate(Some('q')), Ok(Quick));
}

#[test]
fn translate_rejects_everything_else() {
    assert_eq!(translate(Some('x')), Err(ParseError::InvalidCardCode { found: Some('x') }));
    assert_eq!(translate(Some('A')), Err(ParseError::InvalidCardCode { found: Some('A') }));
    assert_eq!(translate(None), Err(ParseError::InvalidCardCode { found: None }));
}

#[test]
fn to_hand_reads_lower_case() {
    assert_eq!(to_hand("abq"), Ok([Arts, Buster, Quick]));
    assert_eq!(to_hand("bbb"), Ok([Buster, Buster, Buster]));
    assert_eq!(to_hand("qqq"), Ok([Quick, Quick, Quick]));
    assert_eq!(to_hand("aab"), Ok([Arts, Arts, Buster]));
}

#[test]
fn to_hand_reads_upper_case_like_lower_case() {
    assert_eq!(to_hand("ABQ"), Ok([Arts, Buster, Quick]));
    assert_eq!(to_hand("ABQ"), to_hand("abq"));
    assert_eq!(to_hand("qBa"), Ok([Quick, Buster, Arts]));
}

#[test]
fn to_hand_names_the_first_bad_letter() {
    assert_eq!(to_hand("xyz"), Err(ParseError::InvalidCardCode { found: Some('x') }));
    assert_eq!(to_hand("ayz"), Err(ParseError::InvalidCardCode { found: Some('y') }));
    assert_eq!(to_hand("abz"), Err(ParseError::InvalidCardCode { found: Some('z') }));
}

#[test]
fn to_hand_names_a_bad_letter_in_lower_case() {
    assert_eq!(to_hand("XYZ"), Err(ParseError::InvalidCardCode { found: Some('x') }));
}

#[test]
fn to_hand_reports_the_length() {
    assert_eq!(
        to_hand("ab"),
        Err(ParseError::InvalidLength { length: 2, input: String::from("ab") })
    );
    assert_eq!(to_hand(""), Err(ParseError::InvalidLength { length: 0, input: String::new() }));
    assert_eq!(
        to_hand("abqa"),
        Err(ParseError::InvalidLength { length: 4, input: String::from("abqa") })
    );
}

#[test]
fn to_hand_counts_characters() {
    // two characters, whatever their size
    assert_eq!(
        to_hand("\u{e9}a"),
        Err(ParseError::InvalidLength { length: 2, input: String::from("\u{e9}a") })
    );
    assert_eq!(
        to_hand("a\u{e9}"),
        Err(ParseError::InvalidLength { length: 2, input: String::from("a\u{e9}") })
    );
    // one character
    assert_eq!(
        to_hand("\u{e9}"),
        Err(ParseError::InvalidLength { length: 1, input: String::from("\u{e9}") })
    );
    // three characters, the third no card
    assert_eq!(to_hand("ab\u{e9}"), Err(ParseError::InvalidCardCode { found: Some('\u{e9}') }));
    // a bad letter is named in lower case
    assert_eq!(to_hand("ab\u{c9}"), Err(ParseError::InvalidCardCode { found: Some('\u{e9}') }));
}

#[test]
fn hand_from_codes_reads_three_letters() {
    assert_eq!(hand_from_codes("qab"), Ok([Quick, Arts, Buster]));
    assert_eq!(hand_from_codes("qabx"), Ok([Quick, Arts, Buster]));
}

#[test]
fn hand_from_codes_does_not_fold_case() {
    assert_eq!(hand_from_codes("Qab"), Err(ParseError::InvalidCardCode { found: Some('Q') }));
}

#[test]
fn hand_from_codes_reports_where_the_letters_run_out() {
    assert_eq!(hand_from_codes("qa"), Err(ParseError::InvalidCardCode { found: None }));
    assert_eq!(hand_from_codes(""), Err(ParseError::InvalidCardCode { found: None }));
}
