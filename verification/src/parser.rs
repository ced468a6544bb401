//! Recursive-descent parsing of pattern text into the syntax tree. Each
//! executable parser mirrors a specification function over the character
//! sequence: ordered choice tries alternatives on the same input, repetition
//! is greedy, and failure carries no cause.
//!
//! Position convention: a parser takes the character sequence and a start
//! position and, on success, returns the parsed value and the position just
//! past what it consumed.

use vstd::prelude::*;

use crate::ast::{
    CharacterClass, ClassV, Element, ElementV, Quantifier, Sign, SpecialSequence, Term, TermV,
    Token, view_elem, view_elems, view_term, view_terms, lemma_view_elems_push,
    lemma_view_terms_push,
};
use crate::fsm::{is_digit, is_digit_char, is_space, is_space_char};

verus! {

/// Characters with special meaning outside a class; literals of these are
/// written with a preceding backslash.
pub open spec fn is_special_char(c: char) -> bool {
    c == '.' || c == '^' || c == '$' || c == '*' || c == '+' || c == '?' || c == '{' || c == '}'
        || c == '[' || c == ']' || c == '\\' || c == '|' || c == '(' || c == ')'
}

/// Executable test for `is_special_char`.
pub fn special_char(c: char) -> (b: bool)
    ensures
        b == is_special_char(c),
{
    c == '.' || c == '^' || c == '$' || c == '*' || c == '+' || c == '?' || c == '{' || c == '}'
        || c == '[' || c == ']' || c == '\\' || c == '|' || c == '(' || c == ')'
}

/// The escape letters that form a special sequence.
pub open spec fn is_seq_char(c: char) -> bool {
    c == 'A' || c == 'b' || c == 'B' || c == 'd' || c == 'D' || c == 's' || c == 'S' || c == 'w'
        || c == 'W' || c == 'Z'
}

/// Executable test for `is_seq_char`.
pub fn seq_char(c: char) -> (b: bool)
    ensures
        b == is_seq_char(c),
{
    c == 'A' || c == 'b' || c == 'B' || c == 'd' || c == 'D' || c == 's' || c == 'S' || c == 'w'
        || c == 'W' || c == 'Z'
}

/// The special sequence a `.` or escape letter stands for.
pub open spec fn spec_seq_of(c: char) -> SpecialSequence {
    if c == '.' {
        SpecialSequence::AnyCharacter
    } else if c == 'A' {
        SpecialSequence::Start
    } else if c == 'b' {
        SpecialSequence::WordBoundary
    } else if c == 'B' {
        SpecialSequence::WithinWord
    } else if c == 'd' {
        SpecialSequence::Digit
    } else if c == 'D' {
        SpecialSequence::NotDigit
    } else if c == 's' {
        SpecialSequence::Whitespace
    } else if c == 'S' {
        SpecialSequence::NotWhitespace
    } else if c == 'w' {
        SpecialSequence::WordCharacter
    } else if c == 'W' {
        SpecialSequence::NotWordCharacter
    } else {
        SpecialSequence::End
    }
}

/// Executable mapping for `spec_seq_of`.
pub fn seq_of(c: char) -> (r: SpecialSequence)
    ensures
        r == spec_seq_of(c),
{
    if c == '.' {
        SpecialSequence::AnyCharacter
    } else if c == 'A' {
        SpecialSequence::Start
    } else if c == 'b' {
        SpecialSequence::WordBoundary
    } else if c == 'B' {
        SpecialSequence::WithinWord
    } else if c == 'd' {
        SpecialSequence::Digit
    } else if c == 'D' {
        SpecialSequence::NotDigit
    } else if c == 's' {
        SpecialSequence::Whitespace
    } else if c == 'S' {
        SpecialSequence::NotWhitespace
    } else if c == 'w' {
        SpecialSequence::WordCharacter
    } else if c == 'W' {
        SpecialSequence::NotWordCharacter
    } else {
        SpecialSequence::End
    }
}

/// Greedily skips whitespace; returns the first position at or after `pos`
/// holding none.
pub open spec fn spec_whitespace(s: Seq<char>, pos: int) -> int
    decreases s.len() - pos,
{
    if 0 <= pos < s.len() && is_space_char(s[pos]) {
        spec_whitespace(s, pos + 1)
    } else {
        pos
    }
}

/// Executable whitespace skip.
#[verifier::loop_isolation(false)]
pub fn whitespace(chars: &Vec<char>, pos: usize) -> (r: usize)
    requires
        pos <= chars@.len(),
    ensures
        r as int == spec_whitespace(chars@, pos as int),
        pos <= r <= chars@.len(),
{
    let mut cur = pos;
    while cur < chars.len() && is_space(chars[cur])
        invariant
            pos <= cur <= chars@.len(),
            spec_whitespace(chars@, pos as int) == spec_whitespace(chars@, cur as int),
        decreases chars@.len() - cur,
    {
        cur += 1;
    }
    cur
}

/// The end of the run of decimal digits starting at `pos`.
pub open spec fn spec_digits_end(s: Seq<char>, pos: int) -> int
    decreases s.len() - pos,
{
    if 0 <= pos < s.len() && is_digit_char(s[pos]) {
        spec_digits_end(s, pos + 1)
    } else {
        pos
    }
}

/// The decimal value of the digits in `s[pos .. end]`.
pub open spec fn spec_digits_val(s: Seq<char>, pos: int, end: int) -> int
    decreases end - pos,
{
    if pos >= end {
        0
    } else {
        spec_digits_val(s, pos, end - 1) * 10 + (s[end - 1] as u32 - '0' as u32)
    }
}

/// A nonempty digit run whose value fits in `usize`; larger or absent
/// numbers are rejected.
pub open spec fn spec_parse_int(s: Seq<char>, pos: int) -> Option<(usize, int)> {
    let end = spec_digits_end(s, pos);
    let val = spec_digits_val(s, pos, end);
    if end == pos || val > usize::MAX as int {
        None
    } else {
        Some(((val as usize), end))
    }
}

/// A longer digit run never has a smaller value.
proof fn lemma_digits_val_monotone(s: Seq<char>, pos: int, e1: int, e2: int)
    requires
        0 <= pos <= e1 <= e2 <= s.len(),
        forall|i: int| pos <= i < e2 ==> #[trigger] is_digit_char(s[i]),
    ensures
        spec_digits_val(s, pos, e1) <= spec_digits_val(s, pos, e2),
        spec_digits_val(s, pos, e1) >= 0,
    decreases e2 - pos + (e2 - e1),
{
    if e1 < e2 {
        lemma_digits_val_monotone(s, pos, e1, e2 - 1);
        assert(is_digit_char(s[e2 - 1]));
        assert(spec_digits_val(s, pos, e2) == spec_digits_val(s, pos, e2 - 1) * 10 + (s[e2 - 1]
            as u32 - '0' as u32));
        assert(spec_digits_val(s, pos, e2 - 1) * 10 >= spec_digits_val(s, pos, e2 - 1)) by (
        nonlinear_arith)
            requires
                spec_digits_val(s, pos, e2 - 1) >= 0,
        ;
    } else if pos < e1 {
        lemma_digits_val_monotone(s, pos, e1 - 1, e1 - 1);
        assert(is_digit_char(s[e1 - 1]));
        assert(spec_digits_val(s, pos, e1) == spec_digits_val(s, pos, e1 - 1) * 10 + (s[e1 - 1]
            as u32 - '0' as u32));
        assert(spec_digits_val(s, pos, e1 - 1) * 10 >= 0) by (nonlinear_arith)
            requires
                spec_digits_val(s, pos, e1 - 1) >= 0,
        ;
    }
}

/// Executable integer parse: a nonempty digit run, rejected when absent or
/// when its value overflows `usize`.
#[verifier::loop_isolation(false)]
pub fn parse_int(chars: &Vec<char>, pos: usize) -> (r: Option<(usize, usize)>)
    requires
        pos <= chars@.len(),
    ensures
        match r {
            Some((v, p)) => spec_parse_int(chars@, pos as int) == Some((v, p as int)) && pos < p
                <= chars@.len(),
            None => spec_parse_int(chars@, pos as int) is None,
        },
{
    let ghost s = chars@;
    let ghost end = spec_digits_end(s, pos as int);
    proof {
        lemma_digits_end_bounds(s, pos as int);
    }
    if pos >= chars.len() || !is_digit(chars[pos]) {
        return None;
    }
    let mut cur = pos;
    let mut acc: usize = 0;
    while cur < chars.len() && is_digit(chars[cur])
        invariant
            pos <= cur <= chars@.len(),
            cur <= end,
            end <= chars@.len(),
            spec_digits_end(s, cur as int) == end,
            forall|i: int| pos <= i < cur ==> #[trigger] is_digit_char(s[i]),
            acc as int == spec_digits_val(s, pos as int, cur as int),
        decreases chars@.len() - cur,
    {
        let d = chars[cur] as u32 - '0' as u32;
        proof {
            assert(spec_digits_end(s, cur as int) == spec_digits_end(s, cur as int + 1));
            lemma_digits_end_bounds(s, cur as int + 1);
            assert(cur as int + 1 <= end);
            assert(forall|i: int| pos <= i < cur + 1 ==> #[trigger] is_digit_char(s[i]));
        }
        if acc > usize::MAX / 10 {
            proof {
                assert(acc as int * 10 > usize::MAX as int) by (nonlinear_arith)
                    requires
                        acc as int > usize::MAX as int / 10,
                ;
                lemma_digits_end_digits(s, pos as int);
                lemma_digits_val_monotone(s, pos as int, cur as int + 1, end);
                assert(spec_digits_val(s, pos as int, cur as int + 1) == acc as int * 10 + d);
            }
            return None;
        }
        let shifted: usize = acc * 10;
        proof {
            assert(acc as int * 10 <= usize::MAX as int) by (nonlinear_arith)
                requires
                    acc as int <= usize::MAX as int / 10,
            ;
        }
        if shifted > usize::MAX - (d as usize) {
            proof {
                lemma_digits_end_digits(s, pos as int);
                lemma_digits_val_monotone(s, pos as int, cur as int + 1, end);
                assert(spec_digits_val(s, pos as int, cur as int + 1) == acc as int * 10 + d);
            }
            return None;
        }
        acc = shifted + (d as usize);
        cur += 1;
    }
    assert(cur == end);
    Some((acc, cur))
}

/// The digit run ends within the sequence.
proof fn lemma_digits_end_bounds(s: Seq<char>, pos: int)
    requires
        0 <= pos <= s.len(),
    ensures
        pos <= spec_digits_end(s, pos) <= s.len(),
    decreases s.len() - pos,
{
    if pos < s.len() && is_digit_char(s[pos]) {
        lemma_digits_end_bounds(s, pos + 1);
    }
}

/// Every character before the end of the digit run is a digit.
proof fn lemma_digits_end_digits(s: Seq<char>, pos: int)
    requires
        0 <= pos <= s.len(),
    ensures
        forall|i: int| pos <= i < spec_digits_end(s, pos) ==> #[trigger] is_digit_char(s[i]),
    decreases s.len() - pos,
{
    if pos < s.len() && is_digit_char(s[pos]) {
        lemma_digits_end_digits(s, pos + 1);
    }
}

/// The integers after the first of a brace quantifier: greedily, a comma
/// surrounded by optional whitespace, then an integer, repeated.
pub open spec fn spec_int_tail(s: Seq<char>, pos: int) -> (Seq<usize>, int)
    decreases s.len() - pos,
{
    if !(0 <= pos <= s.len()) {
        (Seq::empty(), pos)
    } else {
        let p1 = spec_whitespace(s, pos);
        if 0 <= p1 < s.len() && s[p1] == ',' {
            let p2 = spec_whitespace(s, p1 + 1);
            match spec_parse_int(s, p2) {
                Some((v, p3)) => if pos < p3 <= s.len() {
                    let (rest, q) = spec_int_tail(s, p3);
                    (seq![v] + rest, q)
                } else {
                    (Seq::empty(), pos)
                },
                None => (Seq::empty(), pos),
            }
        } else {
            (Seq::empty(), pos)
        }
    }
}

/// One or more comma-separated integers.
pub open spec fn spec_int_list(s: Seq<char>, pos: int) -> Option<(Seq<usize>, int)> {
    match spec_parse_int(s, pos) {
        Some((v, p)) => if pos < p <= s.len() {
            let (rest, q) = spec_int_tail(s, p);
            Some((seq![v] + rest, q))
        } else {
            None
        },
        None => None,
    }
}

/// Executable comma-separated integer list.
#[verifier::loop_isolation(false)]
pub fn int_list(chars: &Vec<char>, pos: usize) -> (r: Option<(Vec<usize>, usize)>)
    requires
        pos <= chars@.len(),
    ensures
        match r {
            Some((v, p)) => spec_int_list(chars@, pos as int) == Some((v@, p as int)) && pos < p
                <= chars@.len(),
            None => spec_int_list(chars@, pos as int) is None,
        },
{
    let ghost s = chars@;
    let first = match parse_int(chars, pos) {
        Some(x) => x,
        None => {
            return None;
        },
    };
    let mut vals: Vec<usize> = Vec::new();
    vals.push(first.0);
    let mut cur = first.1;
    loop
        invariant
            pos < cur <= chars@.len(),
            vals@.len() >= 1,
            spec_int_list(s, pos as int) matches Some((full, fin)) && full == vals@
                + spec_int_tail(s, cur as int).0 && fin == spec_int_tail(s, cur as int).1,
        decreases chars@.len() - cur,
    {
        let p1 = whitespace(chars, cur);
        if p1 >= chars.len() || chars[p1] != ',' {
            proof {
                assert(spec_int_tail(s, cur as int).0 =~= Seq::<usize>::empty());
                assert(vals@ + Seq::<usize>::empty() =~= vals@);
            }
            return Some((vals, cur));
        }
        let p2 = whitespace(chars, p1 + 1);
        match parse_int(chars, p2) {
            Some((v, p3)) => {
                proof {
                    let (rest, q) = spec_int_tail(s, p3 as int);
                    assert(spec_int_tail(s, cur as int).0 == seq![v] + rest);
                    assert(vals@ + (seq![v] + rest) =~= (vals@.push(v)) + rest);
                }
                vals.push(v);
                cur = p3;
            },
            None => {
                proof {
                    assert(spec_int_tail(s, cur as int).0 =~= Seq::<usize>::empty());
                    assert(vals@ + Seq::<usize>::empty() =~= vals@);
                }
                return Some((vals, cur));
            },
        }
    }
}

/// A quantifier suffix, tried in fixed order: the lazy forms, then the
/// greedy forms, then a brace form. One integer means at-least and two mean
/// between; any other count is an invalid brace form and fails.
pub open spec fn spec_parse_quantifier(s: Seq<char>, pos: int) -> Option<(Quantifier, int)> {
    if !(0 <= pos < s.len()) {
        None
    } else if s[pos] == '+' && pos + 1 < s.len() && s[pos + 1] == '?' {
        Some((Quantifier::LazyOneOrMore, pos + 2))
    } else if s[pos] == '*' && pos + 1 < s.len() && s[pos + 1] == '?' {
        Some((Quantifier::LazyZeroOrMore, pos + 2))
    } else if s[pos] == '?' && pos + 1 < s.len() && s[pos + 1] == '?' {
        Some((Quantifier::LazyMaybe, pos + 2))
    } else if s[pos] == '+' {
        Some((Quantifier::OneOrMore, pos + 1))
    } else if s[pos] == '*' {
        Some((Quantifier::ZeroOrMore, pos + 1))
    } else if s[pos] == '?' {
        Some((Quantifier::Maybe, pos + 1))
    } else if s[pos] == '{' {
        match spec_int_list(s, pos + 1) {
            Some((vals, p)) => if 0 <= p < s.len() && s[p] == '}' {
                if vals.len() == 1 {
                    Some((Quantifier::AtLeast(vals[0]), p + 1))
                } else if vals.len() == 2 {
                    Some((Quantifier::Between(vals[0], vals[1]), p + 1))
                } else {
                    None
                }
            } else {
                None
            },
            None => None,
        }
    } else {
        None
    }
}

/// Executable quantifier suffix parse.
pub fn parse_quantifier(chars: &Vec<char>, pos: usize) -> (r: Option<(Quantifier, usize)>)
    requires
        pos <= chars@.len(),
    ensures
        match r {
            Some((q, p)) => spec_parse_quantifier(chars@, pos as int) == Some((q, p as int))
                && pos < p <= chars@.len(),
            None => spec_parse_quantifier(chars@, pos as int) is None,
        },
{
    if pos >= chars.len() {
        return None;
    }
    let c = chars[pos];
    if c == '+' && pos + 1 < chars.len() && chars[pos + 1] == '?' {
        Some((Quantifier::LazyOneOrMore, pos + 2))
    } else if c == '*' && pos + 1 < chars.len() && chars[pos + 1] == '?' {
        Some((Quantifier::LazyZeroOrMore, pos + 2))
    } else if c == '?' && pos + 1 < chars.len() && chars[pos + 1] == '?' {
        Some((Quantifier::LazyMaybe, pos + 2))
    } else if c == '+' {
        Some((Quantifier::OneOrMore, pos + 1))
    } else if c == '*' {
        Some((Quantifier::ZeroOrMore, pos + 1))
    } else if c == '?' {
        Some((Quantifier::Maybe, pos + 1))
    } else if c == '{' {
        match int_list(chars, pos + 1) {
            Some((vals, p)) => {
                if p < chars.len() && chars[p] == '}' {
                    if vals.len() == 1 {
                        Some((Quantifier::AtLeast(vals[0]), p + 1))
                    } else if vals.len() == 2 {
                        Some((Quantifier::Between(vals[0], vals[1]), p + 1))
                    } else {
                        None
                    }
                } else {
                    None
                }
            },
            None => None,
        }
    } else {
        None
    }
}

/// A leading `^` inside a class makes it exclusive; this parse cannot fail.
pub open spec fn spec_parse_sign(s: Seq<char>, pos: int) -> (Sign, int) {
    if 0 <= pos < s.len() && s[pos] == '^' {
        (Sign::Exclusive, pos + 1)
    } else {
        (Sign::Inclusive, pos)
    }
}

/// Executable sign parse.
pub fn parse_sign(chars: &Vec<char>, pos: usize) -> (r: (Sign, usize))
    requires
        pos <= chars@.len(),
    ensures
        spec_parse_sign(chars@, pos as int) == (r.0, r.1 as int),
        pos <= r.1 <= chars@.len(),
{
    if pos < chars.len() && chars[pos] == '^' {
        (Sign::Exclusive, pos + 1)
    } else {
        (Sign::Inclusive, pos)
    }
}

/// One character of a range inside a class: anything but a backslash or the
/// range dash.
pub open spec fn spec_range_item(s: Seq<char>, pos: int) -> Option<(char, int)> {
    if 0 <= pos < s.len() && s[pos] != '\\' && s[pos] != '-' {
        Some((s[pos], pos + 1))
    } else {
        None
    }
}

/// The characters after the first of a dash-separated run: greedily, a dash
/// surrounded by optional whitespace, then a character, repeated.
pub open spec fn spec_range_tail(s: Seq<char>, pos: int) -> (Seq<char>, int)
    decreases s.len() - pos,
{
    if !(0 <= pos <= s.len()) {
        (Seq::empty(), pos)
    } else {
        let p1 = spec_whitespace(s, pos);
        if 0 <= p1 < s.len() && s[p1] == '-' {
            let p2 = spec_whitespace(s, p1 + 1);
            match spec_range_item(s, p2) {
                Some((c, p3)) => if pos < p3 <= s.len() {
                    let (rest, q) = spec_range_tail(s, p3);
                    (seq![c] + rest, q)
                } else {
                    (Seq::empty(), pos)
                },
                None => (Seq::empty(), pos),
            }
        } else {
            (Seq::empty(), pos)
        }
    }
}

/// A class range `a-b`: a dash-separated run that holds exactly two
/// characters; any other count fails.
pub open spec fn spec_character_range(s: Seq<char>, pos: int) -> Option<(Token, int)> {
    match spec_range_item(s, pos) {
        Some((c1, p)) => if pos < p <= s.len() {
            let (rest, q) = spec_range_tail(s, p);
            let all = seq![c1] + rest;
            if all.len() == 2 {
                Some((Token::Range(all[0], all[1]), q))
            } else {
                None
            }
        } else {
            None
        },
        None => None,
    }
}

/// Executable class range parse.
#[verifier::loop_isolation(false)]
pub fn character_range(chars: &Vec<char>, pos: usize) -> (r: Option<(Token, usize)>)
    requires
        pos <= chars@.len(),
    ensures
        match r {
            Some((t, p)) => spec_character_range(chars@, pos as int) == Some((t, p as int))
                && pos < p <= chars@.len(),
            None => spec_character_range(chars@, pos as int) is None,
        },
{
    let ghost s = chars@;
    if pos >= chars.len() || chars[pos] == '\\' || chars[pos] == '-' {
        return None;
    }
    let first = chars[pos];
    let mut vals: Vec<char> = Vec::new();
    vals.push(first);
    let mut cur = pos + 1;
    loop
        invariant
            pos < cur <= chars@.len(),
            vals@.len() >= 1,
            seq![first] + spec_range_tail(s, pos as int + 1).0 == vals@ + spec_range_tail(
                s,
                cur as int,
            ).0,
            spec_range_tail(s, pos as int + 1).1 == spec_range_tail(s, cur as int).1,
        decreases chars@.len() - cur,
    {
        let p1 = whitespace(chars, cur);
        if p1 >= chars.len() || chars[p1] != '-' {
            proof {
                assert(spec_range_tail(s, cur as int).0 =~= Seq::<char>::empty());
                assert(vals@ + Seq::<char>::empty() =~= vals@);
            }
            break ;
        }
        let p2 = whitespace(chars, p1 + 1);
        if p2 >= chars.len() || chars[p2] == '\\' || chars[p2] == '-' {
            proof {
                assert(spec_range_tail(s, cur as int).0 =~= Seq::<char>::empty());
                assert(vals@ + Seq::<char>::empty() =~= vals@);
            }
            break ;
        }
        let c = chars[p2];
        proof {
            let (rest, q) = spec_range_tail(s, p2 as int + 1);
            assert(spec_range_tail(s, cur as int).0 == seq![c] + rest);
            assert(vals@ + (seq![c] + rest) =~= (vals@.push(c)) + rest);
        }
        vals.push(c);
        cur = p2 + 1;
    }
    if vals.len() == 2 {
        assert(vals@ == seq![first] + spec_range_tail(s, pos as int + 1).0);
        Some((Token::Range(vals[0], vals[1]), cur))
    } else {
        None
    }
}

/// A single class item: anything but a backslash or the closing bracket.
pub open spec fn spec_single_item(s: Seq<char>, pos: int) -> Option<(Token, int)> {
    if 0 <= pos < s.len() && s[pos] != '\\' && s[pos] != ']' {
        Some((Token::Literal(s[pos]), pos + 1))
    } else {
        None
    }
}

/// One item of a class body: a range if one parses here, else a single
/// character.
pub open spec fn spec_class_item(s: Seq<char>, pos: int) -> Option<(Token, int)> {
    match spec_character_range(s, pos) {
        Some(r) => Some(r),
        None => spec_single_item(s, pos),
    }
}

/// Executable class item parse.
pub fn class_item(chars: &Vec<char>, pos: usize) -> (r: Option<(Token, usize)>)
    requires
        pos <= chars@.len(),
    ensures
        match r {
            Some((t, p)) => spec_class_item(chars@, pos as int) == Some((t, p as int)) && pos < p
                <= chars@.len(),
            None => spec_class_item(chars@, pos as int) is None,
        },
{
    match character_range(chars, pos) {
        Some(r) => Some(r),
        None => {
            if pos < chars.len() && chars[pos] != '\\' && chars[pos] != ']' {
                Some((Token::Literal(chars[pos]), pos + 1))
            } else {
                None
            }
        },
    }
}

/// Zero or more further class items, greedily.
pub open spec fn spec_class_tail(s: Seq<char>, pos: int) -> (Seq<Token>, int)
    decreases s.len() - pos,
{
    if !(0 <= pos <= s.len()) {
        (Seq::empty(), pos)
    } else {
        match spec_class_item(s, pos) {
            Some((t, p)) => if pos < p <= s.len() {
                let (rest, q) = spec_class_tail(s, p);
                (seq![t] + rest, q)
            } else {
                (Seq::empty(), pos)
            },
            None => (Seq::empty(), pos),
        }
    }
}

/// One or more class items.
pub open spec fn spec_class_items(s: Seq<char>, pos: int) -> Option<(Seq<Token>, int)> {
    match spec_class_item(s, pos) {
        Some((t, p)) => if pos < p <= s.len() {
            let (rest, q) = spec_class_tail(s, p);
            Some((seq![t] + rest, q))
        } else {
            None
        },
        None => None,
    }
}

/// Executable one-or-more class items.
#[verifier::loop_isolation(false)]
pub fn class_items(chars: &Vec<char>, pos: usize) -> (r: Option<(Vec<Token>, usize)>)
    requires
        pos <= chars@.len(),
    ensures
        match r {
            Some((v, p)) => spec_class_items(chars@, pos as int) == Some((v@, p as int)) && pos
                < p <= chars@.len(),
            None => spec_class_items(chars@, pos as int) is None,
        },
{
    let ghost s = chars@;
    let first = match class_item(chars, pos) {
        Some(x) => x,
        None => {
            return None;
        },
    };
    let mut toks: Vec<Token> = Vec::new();
    toks.push(first.0);
    let mut cur = first.1;
    loop
        invariant
            pos < cur <= chars@.len(),
            spec_class_items(s, pos as int) matches Some((full, fin)) && full == toks@
                + spec_class_tail(s, cur as int).0 && fin == spec_class_tail(s, cur as int).1,
        decreases chars@.len() - cur,
    {
        match class_item(chars, cur) {
            Some((t, p)) => {
                proof {
                    let (rest, q) = spec_class_tail(s, p as int);
                    assert(spec_class_tail(s, cur as int).0 == seq![t] + rest);
                    assert(toks@ + (seq![t] + rest) =~= (toks@.push(t)) + rest);
                }
                toks.push(t);
                cur = p;
            },
            None => {
                proof {
                    assert(spec_class_tail(s, cur as int).0 =~= Seq::<Token>::empty());
                    assert(toks@ + Seq::<Token>::empty() =~= toks@);
                }
                return Some((toks, cur));
            },
        }
    }
}

/// A bracketed character class as an element: `[`, optional `^`, one or
/// more items, `]`, then an optional quantifier.
pub open spec fn spec_class_elem(s: Seq<char>, pos: int) -> Option<(ElementV, int)> {
    if 0 <= pos < s.len() && s[pos] == '[' {
        let (sign, p1) = spec_parse_sign(s, pos + 1);
        match spec_class_items(s, p1) {
            Some((items, p2)) => if 0 <= p2 < s.len() && s[p2] == ']' {
                match spec_parse_quantifier(s, p2 + 1) {
                    Some((q, p3)) => Some(
                        (ElementV::Class(ClassV { sign, items, quantifier: q }), p3),
                    ),
                    None => Some(
                        (
                            ElementV::Class(
                                ClassV { sign, items, quantifier: Quantifier::Once },
                            ),
                            p2 + 1,
                        ),
                    ),
                }
            } else {
                None
            },
            None => None,
        }
    } else {
        None
    }
}

/// Executable class element parse.
pub fn class_elem(chars: &Vec<char>, pos: usize) -> (r: Option<(Element, usize)>)
    requires
        pos <= chars@.len(),
    ensures
        match r {
            Some((e, p)) => spec_class_elem(chars@, pos as int) == Some((view_elem(e), p as int))
                && pos < p <= chars@.len(),
            None => spec_class_elem(chars@, pos as int) is None,
        },
{
    if pos >= chars.len() || chars[pos] != '[' {
        return None;
    }
    let (sign, p1) = parse_sign(chars, pos + 1);
    let (items, p2) = match class_items(chars, p1) {
        Some(x) => x,
        None => {
            return None;
        },
    };
    if p2 >= chars.len() || chars[p2] != ']' {
        return None;
    }
    match parse_quantifier(chars, p2 + 1) {
        Some((q, p3)) => Some(
            (Element::Class(CharacterClass { sign, items, quantifier: q }), p3),
        ),
        None => Some(
            (
                Element::Class(CharacterClass { sign, items, quantifier: Quantifier::Once }),
                p2 + 1,
            ),
        ),
    }
}

/// `.` or a backslash escape letter, with an optional quantifier.
pub open spec fn spec_special_elem(s: Seq<char>, pos: int) -> Option<(ElementV, int)> {
    if !(0 <= pos < s.len()) {
        None
    } else {
        let core: Option<(char, int)> = if s[pos] == '.' {
            Some(('.', pos + 1))
        } else if s[pos] == '\\' && pos + 1 < s.len() && is_seq_char(s[pos + 1]) {
            Some((s[pos + 1], pos + 2))
        } else {
            None
        };
        match core {
            Some((c, p)) => match spec_parse_quantifier(s, p) {
                Some((q, p2)) => Some((ElementV::Sequence(spec_seq_of(c), q), p2)),
                None => Some((ElementV::Sequence(spec_seq_of(c), Quantifier::Once), p)),
            },
            None => None,
        }
    }
}

/// Executable special-sequence element parse.
pub fn special_elem(chars: &Vec<char>, pos: usize) -> (r: Option<(Element, usize)>)
    requires
        pos <= chars@.len(),
    ensures
        match r {
            Some((e, p)) => spec_special_elem(chars@, pos as int) == Some(
                (view_elem(e), p as int),
            ) && pos < p <= chars@.len(),
            None => spec_special_elem(chars@, pos as int) is None,
        },
{
    if pos >= chars.len() {
        return None;
    }
    let core: Option<(char, usize)> = if chars[pos] == '.' {
        Some(('.', pos + 1))
    } else if chars[pos] == '\\' && pos + 1 < chars.len() && seq_char(chars[pos + 1]) {
        Some((chars[pos + 1], pos + 2))
    } else {
        None
    };
    match core {
        Some((c, p)) => match parse_quantifier(chars, p) {
            Some((q, p2)) => Some((Element::Sequence(seq_of(c), q), p2)),
            None => Some((Element::Sequence(seq_of(c), Quantifier::Once), p)),
        },
        None => None,
    }
}

/// An ordinary character: any character outside the special set, or a
/// backslash followed by a member of the special set; with an optional
/// quantifier, as a one-literal inclusive class.
pub open spec fn spec_ordinary_elem(s: Seq<char>, pos: int) -> Option<(ElementV, int)> {
    if !(0 <= pos < s.len()) {
        None
    } else {
        let core: Option<(char, int)> = if !is_special_char(s[pos]) {
            Some((s[pos], pos + 1))
        } else if s[pos] == '\\' && pos + 1 < s.len() && is_special_char(s[pos + 1]) {
            Some((s[pos + 1], pos + 2))
        } else {
            None
        };
        match core {
            Some((c, p)) => {
                let cls = |q: Quantifier|
                    ElementV::Class(
                        ClassV {
                            sign: Sign::Inclusive,
                            items: seq![Token::Literal(c)],
                            quantifier: q,
                        },
                    );
                match spec_parse_quantifier(s, p) {
                    Some((q, p2)) => Some((cls(q), p2)),
                    None => Some((cls(Quantifier::Once), p)),
                }
            },
            None => None,
        }
    }
}

/// Executable ordinary-character element parse.
pub fn ordinary_elem(chars: &Vec<char>, pos: usize) -> (r: Option<(Element, usize)>)
    requires
        pos <= chars@.len(),
    ensures
        match r {
            Some((e, p)) => spec_ordinary_elem(chars@, pos as int) == Some(
                (view_elem(e), p as int),
            ) && pos < p <= chars@.len(),
            None => spec_ordinary_elem(chars@, pos as int) is None,
        },
{
    if pos >= chars.len() {
        return None;
    }
    let core: Option<(char, usize)> = if !special_char(chars[pos]) {
        Some((chars[pos], pos + 1))
    } else if chars[pos] == '\\' && pos + 1 < chars.len() && special_char(chars[pos + 1]) {
        Some((chars[pos + 1], pos + 2))
    } else {
        None
    };
    match core {
        Some((c, p)) => {
            let mut items: Vec<Token> = Vec::new();
            items.push(Token::Literal(c));
            assert(items@ =~= seq![Token::Literal(c)]);
            let q_res = parse_quantifier(chars, p);
            match q_res {
                Some((q, p2)) => Some(
                    (
                        Element::Class(
                            CharacterClass { sign: Sign::Inclusive, items, quantifier: q },
                        ),
                        p2,
                    ),
                ),
                None => Some(
                    (
                        Element::Class(
                            CharacterClass {
                                sign: Sign::Inclusive,
                                items,
                                quantifier: Quantifier::Once,
                            },
                        ),
                        p,
                    ),
                ),
            }
        },
        None => None,
    }
}

/// A capture group: a parenthesised term with an optional quantifier.
pub open spec fn spec_group_elem(s: Seq<char>, pos: int) -> Option<(ElementV, int)>
    decreases s.len() - pos, 1int,
{
    if 0 <= pos < s.len() && s[pos] == '(' {
        match spec_term(s, pos + 1) {
            Some((t, p)) => if 0 <= p < s.len() && s[p] == ')' {
                match spec_parse_quantifier(s, p + 1) {
                    Some((q, p2)) => Some((ElementV::CaptureGroup(t, q), p2)),
                    None => Some((ElementV::CaptureGroup(t, Quantifier::Once), p + 1)),
                }
            } else {
                None
            },
            None => None,
        }
    } else {
        None
    }
}

/// One element, by ordered choice: special sequence, class, ordinary
/// character, group.
pub open spec fn spec_element(s: Seq<char>, pos: int) -> Option<(ElementV, int)>
    decreases s.len() - pos, 2int,
{
    if !(0 <= pos <= s.len()) {
        None
    } else {
        match spec_special_elem(s, pos) {
            Some(r) => Some(r),
            None => match spec_class_elem(s, pos) {
                Some(r) => Some(r),
                None => match spec_ordinary_elem(s, pos) {
                    Some(r) => Some(r),
                    None => spec_group_elem(s, pos),
                },
            },
        }
    }
}

/// Zero or more further elements, greedily.
pub open spec fn spec_elements_tail(s: Seq<char>, pos: int) -> (Seq<ElementV>, int)
    decreases s.len() - pos, 4int,
{
    if !(0 <= pos <= s.len()) {
        (Seq::empty(), pos)
    } else {
        match spec_element(s, pos) {
            Some((e, p)) => if pos < p <= s.len() {
                let (rest, q) = spec_elements_tail(s, p);
                (seq![e] + rest, q)
            } else {
                (Seq::empty(), pos)
            },
            None => (Seq::empty(), pos),
        }
    }
}

/// One or more elements.
pub open spec fn spec_elements(s: Seq<char>, pos: int) -> Option<(Seq<ElementV>, int)>
    decreases s.len() - pos, 5int,
{
    if !(0 <= pos <= s.len()) {
        None
    } else {
        match spec_element(s, pos) {
            Some((e, p)) => if pos < p <= s.len() {
                let (rest, q) = spec_elements_tail(s, p);
                Some((seq![e] + rest, q))
            } else {
                None
            },
            None => None,
        }
    }
}

/// A term: an optional left anchor, one or more elements, an optional
/// right anchor.
pub open spec fn spec_term(s: Seq<char>, pos: int) -> Option<(TermV, int)>
    decreases s.len() - pos, 6int,
{
    if !(0 <= pos <= s.len()) {
        None
    } else {
        let la = pos < s.len() && s[pos] == '^';
        let p1 = if la {
            pos + 1
        } else {
            pos
        };
        match spec_elements(s, p1) {
            Some((elems, p2)) => {
                let ra = 0 <= p2 < s.len() && s[p2] == '$';
                let p3 = if ra {
                    p2 + 1
                } else {
                    p2
                };
                Some((TermV { left_anchored: la, right_anchored: ra, elements: elems }, p3))
            },
            None => None,
        }
    }
}

/// Zero or more further alternatives: a `|` surrounded by optional
/// whitespace, then a term, greedily repeated.
pub open spec fn spec_terms_tail(s: Seq<char>, pos: int) -> (Seq<TermV>, int)
    decreases s.len() - pos, 8int,
{
    if !(0 <= pos <= s.len()) {
        (Seq::empty(), pos)
    } else {
        let p1 = spec_whitespace(s, pos);
        if 0 <= p1 < s.len() && s[p1] == '|' {
            let p2 = spec_whitespace(s, p1 + 1);
            if pos < p2 <= s.len() {
                match spec_term(s, p2) {
                    Some((t, p3)) => if pos < p3 <= s.len() {
                        let (rest, q) = spec_terms_tail(s, p3);
                        (seq![t] + rest, q)
                    } else {
                        (Seq::empty(), pos)
                    },
                    None => (Seq::empty(), pos),
                }
            } else {
                (Seq::empty(), pos)
            }
        } else {
            (Seq::empty(), pos)
        }
    }
}

/// One or more `|`-separated terms.
pub open spec fn spec_terms(s: Seq<char>, pos: int) -> Option<(Seq<TermV>, int)>
    decreases s.len() - pos, 9int,
{
    if !(0 <= pos <= s.len()) {
        None
    } else {
        match spec_term(s, pos) {
            Some((t, p)) => if pos < p <= s.len() {
                let (rest, q) = spec_terms_tail(s, p);
                Some((seq![t] + rest, q))
            } else {
                None
            },
            None => None,
        }
    }
}

/// A whole pattern: the alternatives must consume the entire input;
/// trailing text is a parse failure, never a partial success.
pub open spec fn spec_parse_regex(s: Seq<char>) -> Option<Seq<TermV>> {
    match spec_terms(s, 0) {
        Some((ts, p)) => if p == s.len() {
            Some(ts)
        } else {
            None
        },
        None => None,
    }
}

/// Executable element parse.
pub fn element_at(chars: &Vec<char>, pos: usize) -> (r: Option<(Element, usize)>)
    requires
        pos <= chars@.len(),
    ensures
        match r {
            Some((e, p)) => spec_element(chars@, pos as int) == Some((view_elem(e), p as int))
                && pos < p <= chars@.len(),
            None => spec_element(chars@, pos as int) is None,
        },
    decreases chars@.len() - pos, 2int,
{
    match special_elem(chars, pos) {
        Some(r) => Some(r),
        None => match class_elem(chars, pos) {
            Some(r) => Some(r),
            None => match ordinary_elem(chars, pos) {
                Some(r) => Some(r),
                None => {
                    if pos >= chars.len() || chars[pos] != '(' {
                        return None;
                    }
                    let (t, p) = match term_at(chars, pos + 1) {
                        Some(x) => x,
                        None => {
                            return None;
                        },
                    };
                    if p >= chars.len() || chars[p] != ')' {
                        return None;
                    }
                    match parse_quantifier(chars, p + 1) {
                        Some((q, p2)) => Some((Element::CaptureGroup(t, q), p2)),
                        None => Some((Element::CaptureGroup(t, Quantifier::Once), p + 1)),
                    }
                },
            },
        },
    }
}

/// Executable one-or-more elements.
#[verifier::loop_isolation(false)]
pub fn elements_at(chars: &Vec<char>, pos: usize) -> (r: Option<(Vec<Element>, usize)>)
    requires
        pos <= chars@.len(),
    ensures
        match r {
            Some((v, p)) => spec_elements(chars@, pos as int) == Some(
                (view_elems(v@), p as int),
            ) && pos < p <= chars@.len(),
            None => spec_elements(chars@, pos as int) is None,
        },
    decreases chars@.len() - pos, 3int,
{
    let ghost s = chars@;
    let first = match element_at(chars, pos) {
        Some(x) => x,
        None => {
            return None;
        },
    };
    let mut elems: Vec<Element> = Vec::new();
    proof {
        assert(view_elems(elems@) =~= Seq::<ElementV>::empty());
    }
    proof {
        lemma_view_elems_push(elems@, first.0);
    }
    elems.push(first.0);
    proof {
        assert(view_elems(elems@) =~= seq![view_elem(first.0)]);
    }
    let mut cur = first.1;
    loop
        invariant
            pos < cur <= chars@.len(),
            spec_elements(s, pos as int) matches Some((full, fin)) && full == view_elems(elems@)
                + spec_elements_tail(s, cur as int).0 && fin == spec_elements_tail(
                s,
                cur as int,
            ).1,
        decreases chars@.len() - cur,
    {
        match element_at(chars, cur) {
            Some((e, p)) => {
                proof {
                    let (rest, q) = spec_elements_tail(s, p as int);
                    assert(spec_elements_tail(s, cur as int).0 == seq![view_elem(e)] + rest);
                    lemma_view_elems_push(elems@, e);
                    assert(view_elems(elems@) + (seq![view_elem(e)] + rest) =~= (view_elems(
                        elems@,
                    ).push(view_elem(e))) + rest);
                }
                elems.push(e);
                cur = p;
            },
            None => {
                proof {
                    assert(spec_elements_tail(s, cur as int).0 =~= Seq::<ElementV>::empty());
                    assert(view_elems(elems@) + Seq::<ElementV>::empty() =~= view_elems(elems@));
                }
                return Some((elems, cur));
            },
        }
    }
}

/// Executable term parse.
pub fn term_at(chars: &Vec<char>, pos: usize) -> (r: Option<(Term, usize)>)
    requires
        pos <= chars@.len(),
    ensures
        match r {
            Some((t, p)) => spec_term(chars@, pos as int) == Some((view_term(t), p as int))
                && pos < p <= chars@.len(),
            None => spec_term(chars@, pos as int) is None,
        },
    decreases chars@.len() - pos, 6int,
{
    let la = pos < chars.len() && chars[pos] == '^';
    let p1 = if la {
        pos + 1
    } else {
        pos
    };
    let (elems, p2) = match elements_at(chars, p1) {
        Some(x) => x,
        None => {
            return None;
        },
    };
    let ra = p2 < chars.len() && chars[p2] == '$';
    let p3 = if ra {
        p2 + 1
    } else {
        p2
    };
    Some((Term { left_anchored: la, right_anchored: ra, elements: elems }, p3))
}

/// Executable one-or-more alternatives.
#[verifier::loop_isolation(false)]
pub fn terms_at(chars: &Vec<char>, pos: usize) -> (r: Option<(Vec<Term>, usize)>)
    requires
        pos <= chars@.len(),
    ensures
        match r {
            Some((v, p)) => spec_terms(chars@, pos as int) == Some((view_terms(v@), p as int))
                && pos < p <= chars@.len(),
            None => spec_terms(chars@, pos as int) is None,
        },
{
    let ghost s = chars@;
    let first = match term_at(chars, pos) {
        Some(x) => x,
        None => {
            return None;
        },
    };
    let mut terms: Vec<Term> = Vec::new();
    proof {
        assert(view_terms(terms@) =~= Seq::<TermV>::empty());
    }
    proof {
        lemma_view_terms_push(terms@, first.0);
    }
    terms.push(first.0);
    proof {
        assert(view_terms(terms@) =~= seq![view_term(first.0)]);
    }
    let mut cur = first.1;
    loop
        invariant
            pos < cur <= chars@.len(),
            spec_terms(s, pos as int) matches Some((full, fin)) && full == view_terms(terms@)
                + spec_terms_tail(s, cur as int).0 && fin == spec_terms_tail(s, cur as int).1,
        decreases chars@.len() - cur,
    {
        let p1 = whitespace(chars, cur);
        if p1 >= chars.len() || chars[p1] != '|' {
            proof {
                assert(spec_terms_tail(s, cur as int).0 =~= Seq::<TermV>::empty());
                assert(view_terms(terms@) + Seq::<TermV>::empty() =~= view_terms(terms@));
            }
            return Some((terms, cur));
        }
        let p2 = whitespace(chars, p1 + 1);
        match term_at(chars, p2) {
            Some((t, p3)) => {
                proof {
                    let (rest, q) = spec_terms_tail(s, p3 as int);
                    assert(spec_terms_tail(s, cur as int).0 == seq![view_term(t)] + rest);
                    lemma_view_terms_push(terms@, t);
                    assert(view_terms(terms@) + (seq![view_term(t)] + rest) =~= (view_terms(
                        terms@,
                    ).push(view_term(t))) + rest);
                }
                terms.push(t);
                cur = p3;
            },
            None => {
                proof {
                    assert(spec_terms_tail(s, cur as int).0 =~= Seq::<TermV>::empty());
                    assert(view_terms(terms@) + Seq::<TermV>::empty() =~= view_terms(terms@));
                }
                return Some((terms, cur));
            },
        }
    }
}

/// Executable whole-pattern parse over a character vector.
pub fn parse_regex_chars(chars: &Vec<char>) -> (r: Option<Vec<Term>>)
    ensures
        match r {
            Some(ts) => spec_parse_regex(chars@) == Some(view_terms(ts@)),
            None => spec_parse_regex(chars@) is None,
        },
{
    match terms_at(chars, 0) {
        Some((ts, p)) => {
            if p == chars.len() {
                Some(ts)
            } else {
                None
            }
        },
        None => None,
    }
}

/// The characters of a string, in order.
#[verifier::loop_isolation(false)]
pub fn str_chars(input: &str) -> (v: Vec<char>)
    ensures
        v@ == input@,
{
    let n = input.unicode_len();
    let mut v: Vec<char> = Vec::new();
    let mut i: usize = 0;
    while i < n
        invariant
            i <= n,
            v@.len() == i,
            forall|j: int| 0 <= j < i ==> v@[j] == input@[j],
        decreases n - i,
    {
        v.push(input.get_char(i));
        i += 1;
    }
    assert(v@ =~= input@);
    v
}

/// What a parser hands back: the parsed value and the remaining input, or a
/// bare failure.
pub type ParseResult<'a, T> = Result<(T, &'a str), ()>;

/// Parses a leading character class from pattern text and hands back the
/// element and the remaining text.
pub fn character_class<'a>(input: &'a str) -> (r: ParseResult<'a, Element>)
    ensures
        match r {
            Ok((e, rest)) => exists|p: int|
                spec_class_elem(input@, 0) == Some((view_elem(e), p)) && 0 <= p
                    <= input@.len() && rest@ == input@.subrange(p, input@.len() as int),
            Err(_) => spec_class_elem(input@, 0) is None,
        },
{
    let chars = str_chars(input);
    match class_elem(&chars, 0) {
        Some((e, p)) => {
            let n = input.unicode_len();
            let rest = input.substring_char(p, n);
            Ok((e, rest))
        },
        None => Err(()),
    }
}

/// Parses a whole pattern: one or more `|`-separated terms that consume
/// the entire input; the remaining text of a success is always empty.
pub fn parse_regex<'a>(input: &'a str) -> (r: ParseResult<'a, Vec<Term>>)
    ensures
        match r {
            Ok((ts, rest)) => spec_parse_regex(input@) == Some(view_terms(ts@)) && rest@.len()
                == 0,
            Err(_) => spec_parse_regex(input@) is None,
        },
{
    let chars = str_chars(input);
    match parse_regex_chars(&chars) {
        Some(ts) => {
            let n = input.unicode_len();
            let rest = input.substring_char(n, n);
            assert(rest@ =~= Seq::<char>::empty());
            Ok((ts, rest))
        },
        None => Err(()),
    }
}

} // verus!
