//! The abstract syntax tree of a regular-expression pattern, together with
//! its mathematical view: the `Vec`-carrying executable tree is mirrored by
//! `Seq`-carrying view types that the contracts speak of.

use vstd::prelude::*;

verus! {

/// How often an element may repeat. The lazy variants parse differently but
/// accept the same language as their greedy counterparts under
/// active-state-set matching.
#[derive(Debug, PartialEq, Eq, Clone, Copy)]
pub enum Quantifier {
    ZeroOrMore,
    OneOrMore,
    Maybe,
    LazyZeroOrMore,
    LazyOneOrMore,
    LazyMaybe,
    Once,
    AtLeast(usize),
    Between(usize, usize),
}

/// Whether a character class names the characters it accepts or the
/// characters it rejects.
#[derive(Debug, PartialEq, Eq, Clone, Copy)]
pub enum Sign {
    Inclusive,
    Exclusive,
}

/// One item of a character class: a single character or an inclusive range.
#[derive(Debug, PartialEq, Eq, Clone, Copy)]
pub enum Token {
    Range(char, char),
    Literal(char),
}

/// A bracketed character class, or a single ordinary character (represented
/// as a one-literal inclusive class), with its quantifier.
#[derive(Debug, PartialEq, Eq)]
pub struct CharacterClass {
    pub sign: Sign,
    pub items: Vec<Token>,
    pub quantifier: Quantifier,
}

/// `.` or a backslash escape with special meaning.
#[derive(Debug, PartialEq, Eq, Clone, Copy)]
pub enum SpecialSequence {
    AnyCharacter,
    Start,
    WordBoundary,
    WithinWord,
    Digit,
    NotDigit,
    Whitespace,
    NotWhitespace,
    WordCharacter,
    NotWordCharacter,
    End,
}

/// One element of a term.
#[derive(Debug, PartialEq, Eq)]
pub enum Element {
    Class(CharacterClass),
    Sequence(SpecialSequence, Quantifier),
    CaptureGroup(Term, Quantifier),
}

/// A sequence of elements, optionally anchored at either end.
#[derive(Debug, PartialEq, Eq)]
pub struct Term {
    pub left_anchored: bool,
    pub right_anchored: bool,
    pub elements: Vec<Element>,
}

/// The view of a `CharacterClass`.
pub struct ClassV {
    pub sign: Sign,
    pub items: Seq<Token>,
    pub quantifier: Quantifier,
}

/// The view of an `Element`.
pub enum ElementV {
    Class(ClassV),
    Sequence(SpecialSequence, Quantifier),
    CaptureGroup(TermV, Quantifier),
}

/// The view of a `Term`.
pub struct TermV {
    pub left_anchored: bool,
    pub right_anchored: bool,
    pub elements: Seq<ElementV>,
}

pub open spec fn view_class(c: CharacterClass) -> ClassV {
    ClassV { sign: c.sign, items: c.items@, quantifier: c.quantifier }
}

pub open spec fn view_elem(e: Element) -> ElementV
    decreases e,
{
    match e {
        Element::Class(c) => ElementV::Class(view_class(c)),
        Element::Sequence(s, q) => ElementV::Sequence(s, q),
        Element::CaptureGroup(t, q) => ElementV::CaptureGroup(view_term(t), q),
    }
}

pub open spec fn view_term(t: Term) -> TermV
    decreases t,
{
    TermV {
        left_anchored: t.left_anchored,
        right_anchored: t.right_anchored,
        elements: view_elems(t.elements@),
    }
}

pub open spec fn view_elems(s: Seq<Element>) -> Seq<ElementV>
    decreases s,
{
    if s.len() == 0 {
        Seq::empty()
    } else {
        view_elems(s.drop_last()).push(view_elem(s.last()))
    }
}

/// Appending one element on the right maps through `view_elems`.
pub proof fn lemma_view_elems_push(s: Seq<Element>, e: Element)
    ensures
        view_elems(s.push(e)) == view_elems(s).push(view_elem(e)),
{
    assert(s.push(e).drop_last() =~= s);
    assert(s.push(e).last() == e);
}

pub open spec fn view_terms(s: Seq<Term>) -> Seq<TermV>
    decreases s,
{
    if s.len() == 0 {
        Seq::empty()
    } else {
        view_terms(s.drop_last()).push(view_term(s.last()))
    }
}

/// Appending one term on the right maps through `view_terms`.
pub proof fn lemma_view_terms_push(s: Seq<Term>, t: Term)
    ensures
        view_terms(s.push(t)) == view_terms(s).push(view_term(t)),
{
    assert(s.push(t).drop_last() =~= s);
    assert(s.push(t).last() == t);
}

/// `view_elems` maps the sequence pointwise.
pub proof fn lemma_view_elems_index(s: Seq<Element>)
    ensures
        view_elems(s).len() == s.len(),
        forall|j: int| 0 <= j < s.len() ==> view_elems(s)[j] == view_elem(s[j]),
    decreases s.len(),
{
    if s.len() > 0 {
        lemma_view_elems_index(s.drop_last());
        assert forall|j: int| 0 <= j < s.len() implies view_elems(s)[j] == view_elem(s[j]) by {
            if j < s.len() - 1 {
                assert(s.drop_last()[j] == s[j]);
            } else {
                assert(s.last() == s[j]);
            }
        }
    }
}

/// `view_terms` maps the sequence pointwise.
pub proof fn lemma_view_terms_index(s: Seq<Term>)
    ensures
        view_terms(s).len() == s.len(),
        forall|j: int| 0 <= j < s.len() ==> view_terms(s)[j] == view_term(s[j]),
    decreases s.len(),
{
    if s.len() > 0 {
        lemma_view_terms_index(s.drop_last());
        assert forall|j: int| 0 <= j < s.len() implies view_terms(s)[j] == view_term(s[j]) by {
            if j < s.len() - 1 {
                assert(s.drop_last()[j] == s[j]);
            } else {
                assert(s.last() == s[j]);
            }
        }
    }
}

} // verus!
