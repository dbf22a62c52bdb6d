use bidi::bidi_classes::{
    AL, AN, B, BN, CS, EN, ES, ET, FSI, L, LRE, LRI, LRO, NSM, ON, PDF, PDI, R, RLE, RLI, RLO, S, WS,
};
use bidi::{BracketType, Type};

#[test]
fn classes_of_ascii_characters() {
    assert_eq!(Type::from_char('a'), Type(L));
    assert_eq!(Type::from_char('Z'), Type(L));
    assert_eq!(Type::from_char('0'), Type(EN));
    assert_eq!(Type::from_char('9'), Type(EN));
    assert_eq!(Type::from_char(' '), Type(WS));
    assert_eq!(Type::from_char('\t'), Type(S));
    assert_eq!(Type::from_char('\n'), Type(B));
    assert_eq!(Type::from_char('\u{3}'), Type(BN));
    assert_eq!(Type::from_char('|'), Type(ON));
    assert_eq!(Type::from_char('+'), Type(ES));
    assert_eq!(Type::from_char('-'), Type(ES));
    assert_eq!(Type::from_char(','), Type(CS));
    assert_eq!(Type::from_char('.'), Type(CS));
    assert_eq!(Type::from_char('$'), Type(ET));
    assert_eq!(Type::from_char('%'), Type(ET));
    assert_eq!(Type::from_char('('), Type(ON));
}

#[test]
fn classes_of_right_to_left_characters() {
    assert_eq!(Type::from_char('\u{5D0}'), Type(R));
    assert_eq!(Type::from_char('\u{200F}'), Type(R));
    assert_eq!(Type::from_char('\u{627}'), Type(AL));
    assert_eq!(Type::from_char('\u{61C}'), Type(AL));
    assert_eq!(Type::from_char('\u{661}'), Type(AN));
    assert_eq!(Type::from_char('\u{300}'), Type(NSM));
    assert_eq!(Type::from_char('\u{200E}'), Type(L));
}

#[test]
fn classes_of_explicit_formatting_characters() {
    assert_eq!(Type::from_char('\u{202A}'), Type(LRE));
    assert_eq!(Type::from_char('\u{202B}'), Type(RLE));
    assert_eq!(Type::from_char('\u{202C}'), Type(PDF));
    assert_eq!(Type::from_char('\u{202D}'), Type(LRO));
    assert_eq!(Type::from_char('\u{202E}'), Type(RLO));
    assert_eq!(Type::from_char('\u{2066}'), Type(LRI));
    assert_eq!(Type::from_char('\u{2067}'), Type(RLI));
    assert_eq!(Type::from_char('\u{2068}'), Type(FSI));
    assert_eq!(Type::from_char('\u{2069}'), Type(PDI));
}

#[test]
fn class_at_the_bounds_of_a_table_range() {
    // The digits are the range [48, 58).
    assert_eq!(Type::from_char('/'), Type(CS));
    assert_eq!(Type::from_char(':'), Type(CS));
    assert_eq!(Type::from_char(';'), Type(ON));
    // The first and the last range of the table.
    assert_eq!(Type::from_char('\u{0}'), Type(BN));
    assert_eq!(Type::from_char('\u{8}'), Type(BN));
    assert_eq!(Type::from_char('\u{E01EF}'), Type(NSM));
    assert_eq!(Type::from_char('\u{E01F0}'), Type(L));
    assert_eq!(Type::from_char('\u{10FFFF}'), Type(L));
}

#[test]
fn every_class_is_ignored_or_not() {
    let ignored = [LRE, RLE, LRO, RLO, PDF, BN];
    for code in 0..=255u8 {
        assert_eq!(Type(code).is_ignored(), ignored.contains(&code), "class {}", code);
    }
}

#[test]
fn every_class_is_resettable_or_not() {
    let resettable = [LRI, RLI, FSI, PDI, WS];
    for code in 0..=255u8 {
        assert_eq!(Type(code).is_resettable(), resettable.contains(&code), "class {}", code);
    }
}

#[test]
fn class_codes_are_the_ranks_of_the_class_names() {
    let codes = [
        AL, AN, B, BN, CS, EN, ES, ET, FSI, L, LRE, LRI, LRO, NSM, ON, PDF, PDI, R, RLE, RLI, RLO, S,
        WS,
    ];
    for (rank, code) in codes.iter().enumerate() {
        assert_eq!(*code as usize, rank);
    }
}

#[test]
fn brackets_of_ascii() {
    assert!(matches!(BracketType::from_char('('), BracketType::Open(')')));
    assert!(matches!(BracketType::from_char(')'), BracketType::Close('(')));
    assert!(matches!(BracketType::from_char('['), BracketType::Open(']')));
    assert!(matches!(BracketType::from_char(']'), BracketType::Close('[')));
    assert!(matches!(BracketType::from_char('{'), BracketType::Open('}')));
    assert!(matches!(BracketType::from_char('}'), BracketType::Close('{')));
    assert!(matches!(BracketType::from_char('a'), BracketType::Neither));
    assert!(matches!(BracketType::from_char('<'), BracketType::Neither));
    assert!(matches!(BracketType::from_char('\\'), BracketType::Neither));
}

#[test]
fn brackets_whose_closers_stand_out_of_order() {
    assert!(matches!(BracketType::from_char('\u{298D}'), BracketType::Open('\u{2990}')));
    assert!(matches!(BracketType::from_char('\u{298F}'), BracketType::Open('\u{298E}')));
    assert!(matches!(BracketType::from_char('\u{298E}'), BracketType::Close('\u{298F}')));
    assert!(matches!(BracketType::from_char('\u{2990}'), BracketType::Close('\u{298D}')));
}

#[test]
fn first_and_last_bracket_pair() {
    assert!(matches!(BracketType::from_char('\u{FF62}'), BracketType::Open('\u{FF63}')));
    assert!(matches!(BracketType::from_char('\u{FF63}'), BracketType::Close('\u{FF62}')));
    assert!(matches!(BracketType::from_char('\u{2329}'), BracketType::Open('\u{232A}')));
    assert!(matches!(BracketType::from_char('\u{3009}'), BracketType::Close('\u{3008}')));
    assert!(matches!(BracketType::from_char('\u{FF64}'), BracketType::Neither));
}
