use regex_engine::ast::{Sign, Token};
use regex_engine::fsm::{CharCond, Edge, Eps, EpsCond, State, Transitions, FSM};
use regex_engine::{ParseError, Regex};

fn compiled(pattern: &str) -> Regex {
    Regex::compile(pattern).unwrap()
}

#[test]
fn single_literal() {
    let re = compiled("a");
    assert!(re.matches("a"));
    assert!(!re.matches("b"));
    assert!(!re.matches(""));
    assert!(!re.matches("aa"));
}

#[test]
fn literal_word_matches_whole_string_only() {
    let re = compiled("cat");
    assert!(re.matches("cat"));
    assert!(!re.matches("Cat"));
    assert!(!re.matches("cats"));
    assert!(!re.matches("ca"));
}

#[test]
fn inclusive_class() {
    let re = compiled("[aeiou]");
    assert!(re.matches("a"));
    assert!(re.matches("u"));
    assert!(!re.matches("x"));
    assert!(!re.matches("ae"));
}

#[test]
fn exclusive_digit_class() {
    let re = compiled("[^0-9]");
    assert!(!re.matches("5"));
    assert!(re.matches("x"));
}

#[test]
fn letter_ranges() {
    let re = compiled("[A-Za-z]");
    assert!(re.matches("H"));
    assert!(re.matches("h"));
    assert!(!re.matches("1"));
}

#[test]
fn star_quantifier() {
    let re = compiled("ab*c");
    assert!(re.matches("ac"));
    assert!(re.matches("abc"));
    assert!(re.matches("abbbc"));
    assert!(!re.matches("adc"));
}

#[test]
fn plus_quantifier() {
    let re = compiled("ab+c");
    assert!(!re.matches("ac"));
    assert!(re.matches("abc"));
    assert!(re.matches("abbc"));
}

#[test]
fn maybe_quantifier() {
    let re = compiled("colou?r");
    assert!(re.matches("color"));
    assert!(re.matches("colour"));
    assert!(!re.matches("colouur"));
}

#[test]
fn star_matches_empty_string() {
    let re = compiled("a*");
    assert!(re.matches(""));
    assert!(re.matches("aaa"));
    assert!(!re.matches("b"));
}

#[test]
fn group_repetition() {
    let re = compiled("(ab)+c");
    assert!(re.matches("abc"));
    assert!(re.matches("ababc"));
    assert!(!re.matches("abcabc"));
    assert!(!re.matches("c"));
}

#[test]
fn between_quantifier() {
    let re = compiled("a{3,5}");
    assert!(!re.matches("aa"));
    assert!(re.matches("aaa"));
    assert!(re.matches("aaaa"));
    assert!(re.matches("aaaaa"));
    assert!(!re.matches("aaaaaa"));
}

#[test]
fn between_quantifier_with_whitespace() {
    let re = compiled("a{2, 3}");
    assert!(!re.matches("a"));
    assert!(re.matches("aa"));
    assert!(re.matches("aaa"));
    assert!(!re.matches("aaaa"));
}

#[test]
fn at_least_quantifier() {
    let re = compiled("a{2}");
    assert!(!re.matches("a"));
    assert!(re.matches("aa"));
    assert!(re.matches("aaaaaa"));
}

#[test]
fn between_from_zero() {
    let re = compiled("x{0,2}");
    assert!(re.matches(""));
    assert!(re.matches("x"));
    assert!(re.matches("xx"));
    assert!(!re.matches("xxx"));
}

#[test]
fn alternation() {
    let re = compiled("apple|banana");
    assert!(re.matches("banana"));
    assert!(re.matches("apple"));
    assert!(!re.matches("cherry"));
}

#[test]
fn alternation_with_spaces_around_bar() {
    // Elements are greedy, so the space before the bar is a literal of the
    // first alternative; the space after it is skipped with the separator.
    let re = compiled("ab | cd");
    assert!(re.matches("ab "));
    assert!(!re.matches("ab"));
    assert!(re.matches("cd"));
}

#[test]
fn anchors_on_whole_string() {
    let re = compiled("^Hello$");
    assert!(re.matches("Hello"));
    assert!(!re.matches("Hello, World!"));
}

#[test]
fn digit_sequence_with_counts() {
    let re = compiled(r"\d{3,5}");
    assert!(re.matches("12345"));
    assert!(re.matches("123"));
    assert!(!re.matches("12"));
    assert!(!re.matches("123456"));
}

#[test]
fn any_character_dot() {
    let re = compiled(".");
    assert!(re.matches("a"));
    assert!(re.matches("!"));
    assert!(!re.matches(""));
    assert!(!re.matches("ab"));
}

#[test]
fn escaped_dot_is_literal() {
    let re = compiled(r"\.");
    assert!(re.matches("."));
    assert!(!re.matches("a"));
}

#[test]
fn word_boundary_at_string_edges() {
    let re = compiled(r"\bword\b");
    assert!(re.matches("word"));
    assert!(!re.matches("words"));
}

#[test]
fn explicit_start_and_end_sequences() {
    let re = compiled(r"\Aabc\Z");
    assert!(re.matches("abc"));
    assert!(!re.matches("abcd"));
}

#[test]
fn whitespace_class() {
    let re = compiled(r"a\sb");
    assert!(re.matches("a b"));
    assert!(re.matches("a\tb"));
    assert!(!re.matches("axb"));
}

#[test]
fn word_and_nonword_classes() {
    let re = compiled(r"\w\W");
    assert!(re.matches("a!"));
    assert!(!re.matches("ab"));
}

#[test]
fn lazy_quantifiers_accept_like_greedy() {
    let re = compiled("a.*?b");
    assert!(re.matches("aabb"));
    assert!(re.matches("ab"));
    assert!(!re.matches("ba"));
}

#[test]
fn parse_error_never_yields_a_pattern() {
    assert_eq!(Regex::compile("[a-").err(), Some(ParseError));
    assert!(Regex::compile("(ab").is_err());
    assert!(Regex::compile("").is_err());
}

#[test]
fn repeated_calls_are_deterministic() {
    let re = compiled("ab*c");
    let first = re.matches("abbc");
    for _ in 0..5 {
        assert_eq!(re.matches("abbc"), first);
        assert!(first);
    }
}

#[test]
fn interleaved_callers_share_a_pattern() {
    let re = compiled("[0-9]+");
    let other = compiled("x|y");
    for _ in 0..3 {
        assert!(re.matches("123"));
        assert!(other.matches("x"));
        assert!(!re.matches("12a"));
        assert!(other.matches("y"));
        assert!(!other.matches("z"));
        assert!(re.matches("7"));
    }
}

#[test]
fn default_transitions_are_empty() {
    let ts = Transitions::default();
    assert!(ts.edges.is_empty());
    assert!(ts.epsilons.is_empty());
}

#[test]
fn fsm_next_follows_first_matching_edge() {
    let mut fsm = FSM::new();
    fsm.push(Transitions {
        edges: vec![Edge {
            cond: CharCond::Member(Sign::Inclusive, vec![Token::Literal('a')]),
            target: 1,
        }],
        epsilons: vec![],
    });
    fsm.push(Transitions {
        edges: vec![Edge {
            cond: CharCond::Member(Sign::Inclusive, vec![Token::Range('0', '9')]),
            target: 2,
        }],
        epsilons: vec![Eps { cond: EpsCond::Always, target: 0 }],
    });
    fsm.push(Transitions { edges: vec![], epsilons: vec![] });
    fsm.accept = 2;
    assert_eq!(fsm.final_state(), 2);
    assert_eq!(fsm.next(State::Intermediate(0), 'a'), State::Intermediate(1));
    assert_eq!(fsm.next(State::Intermediate(0), 'b'), State::Failed);
    assert_eq!(fsm.next(State::Intermediate(1), '5'), State::Success);
    assert_eq!(fsm.next(State::Intermediate(2), 'q'), State::Success);
    assert_eq!(fsm.next(State::Failed, 'a'), State::Failed);
    assert_eq!(fsm.next(State::Success, 'a'), State::Success);
}
