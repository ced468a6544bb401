use regex_engine::ast::{CharacterClass, Element, Quantifier, Sign, SpecialSequence, Term, Token};
use regex_engine::parser::{character_class, parse_regex};

#[test]
fn class_parser() {
    assert_eq!(
        character_class("[^a-z]{4, 5}xyz"),
        Ok((
            Element::Class(CharacterClass {
                sign: Sign::Exclusive,
                items: vec![Token::Range('a', 'z')],
                quantifier: Quantifier::Between(4, 5),
            }),
            "xyz"
        ))
    );
}

#[test]
fn sep_by_works() {
    assert_eq!(
        parse_regex("(ab)+c"),
        Ok((
            vec![Term {
                left_anchored: false,
                right_anchored: false,
                elements: vec![
                    Element::CaptureGroup(
                        Term {
                            left_anchored: false,
                            right_anchored: false,
                            elements: vec![
                                Element::Class(CharacterClass {
                                    sign: Sign::Inclusive,
                                    items: vec![Token::Literal('a')],
                                    quantifier: Quantifier::Once
                                }),
                                Element::Class(CharacterClass {
                                    sign: Sign::Inclusive,
                                    items: vec![Token::Literal('b')],
                                    quantifier: Quantifier::Once
                                })
                            ]
                        },
                        Quantifier::OneOrMore
                    ),
                    Element::Class(CharacterClass {
                        sign: Sign::Inclusive,
                        items: vec![Token::Literal('c')],
                        quantifier: Quantifier::Once
                    })
                ]
            }],
            ""
        ))
    );
}

#[test]
fn parses_alternation_and_anchors() {
    let (terms, rest) = parse_regex("^ab|cd$").unwrap();
    assert_eq!(rest, "");
    assert_eq!(terms.len(), 2);
    assert!(terms[0].left_anchored);
    assert!(!terms[0].right_anchored);
    assert!(!terms[1].left_anchored);
    assert!(terms[1].right_anchored);
}

#[test]
fn parses_special_sequences() {
    let (terms, _) = parse_regex(r"\d+\b.").unwrap();
    assert_eq!(terms.len(), 1);
    assert_eq!(terms[0].elements.len(), 3);
    assert_eq!(
        terms[0].elements[0],
        Element::Sequence(SpecialSequence::Digit, Quantifier::OneOrMore)
    );
    assert_eq!(
        terms[0].elements[1],
        Element::Sequence(SpecialSequence::WordBoundary, Quantifier::Once)
    );
    assert_eq!(
        terms[0].elements[2],
        Element::Sequence(SpecialSequence::AnyCharacter, Quantifier::Once)
    );
}

#[test]
fn escaped_special_is_literal() {
    let (terms, _) = parse_regex(r"a\+b").unwrap();
    assert_eq!(terms[0].elements.len(), 3);
    assert_eq!(
        terms[0].elements[1],
        Element::Class(CharacterClass {
            sign: Sign::Inclusive,
            items: vec![Token::Literal('+')],
            quantifier: Quantifier::Once,
        })
    );
}

#[test]
fn quantifier_one_integer_is_at_least() {
    let (terms, _) = parse_regex("a{3}").unwrap();
    assert_eq!(
        terms[0].elements[0],
        Element::Class(CharacterClass {
            sign: Sign::Inclusive,
            items: vec![Token::Literal('a')],
            quantifier: Quantifier::AtLeast(3),
        })
    );
}

#[test]
fn unterminated_class_is_rejected() {
    assert_eq!(parse_regex("[a-"), Err(()));
    assert_eq!(character_class("[a-"), Err(()));
}

#[test]
fn trailing_input_is_rejected() {
    assert_eq!(parse_regex("a)"), Err(()));
}

#[test]
fn empty_pattern_is_rejected() {
    assert_eq!(parse_regex(""), Err(()));
}

#[test]
fn unterminated_group_is_rejected() {
    assert_eq!(parse_regex("(ab"), Err(()));
}

#[test]
fn oversized_brace_count_is_rejected() {
    assert_eq!(parse_regex("a{99999999999999999999999999}"), Err(()));
}

#[test]
fn brace_with_three_integers_is_rejected() {
    assert_eq!(parse_regex("a{1,2,3}"), Err(()));
    assert_eq!(parse_regex("a{1, 2, 3}"), Err(()));
}

#[test]
fn class_range_allows_whitespace_around_dash() {
    // The dash of a range is a separator that tolerates surrounding
    // whitespace, as every separator here does.
    let (e, rest) = character_class("[a - z]").unwrap();
    assert_eq!(rest, "");
    assert_eq!(
        e,
        Element::Class(CharacterClass {
            sign: Sign::Inclusive,
            items: vec![Token::Range('a', 'z')],
            quantifier: Quantifier::Once,
        })
    );
}

#[test]
fn three_part_dash_run_is_no_range() {
    // `a-b-c` is a dash-separated run of three, which no range accepts;
    // the fallback reads `a`, then the bare dash, then the range `b-c`.
    let (e, rest) = character_class("[a-b-c]").unwrap();
    assert_eq!(rest, "");
    assert_eq!(
        e,
        Element::Class(CharacterClass {
            sign: Sign::Inclusive,
            items: vec![
                Token::Literal('a'),
                Token::Literal('-'),
                Token::Range('b', 'c')
            ],
            quantifier: Quantifier::Once,
        })
    );
}

#[test]
fn class_with_literals_and_range() {
    let (e, rest) = character_class("[ab-z]").unwrap();
    assert_eq!(rest, "");
    assert_eq!(
        e,
        Element::Class(CharacterClass {
            sign: Sign::Inclusive,
            items: vec![Token::Literal('a'), Token::Range('b', 'z')],
            quantifier: Quantifier::Once,
        })
    );
}
