//! A regular-expression engine: a pattern is parsed into an abstract syntax
//! tree, compiled into a nondeterministic finite automaton (Thompson
//! construction), and strings are matched against the automaton by
//! simultaneous active-state-set simulation.

pub mod ast;
pub mod compile;
pub mod fsm;
pub mod parser;

use vstd::prelude::*;

use crate::ast::{
    lemma_view_elems_index, lemma_view_terms_index, view_elem, view_term, view_terms, Element,
    ElementV, Quantifier, Sign, TermV,
};
use crate::compile::{all_plain_classes, compile_pattern, cond_of_class, is_plain_class};
use crate::fsm::{
    chain_conds, chain_layout, class_has, conds_match_prefix, lemma_chain_matches,
    spec_cond_matches, CharCond, FSM,
};
use crate::parser::{parse_regex_chars, spec_parse_regex, str_chars};

verus! {

/// A class element taken exactly once.
pub open spec fn is_class_once(ev: ElementV) -> bool {
    match ev {
        ElementV::Class(cv) => cv.quantifier == Quantifier::Once,
        _ => false,
    }
}

/// Whether a class element accepts a character: membership in its items,
/// negated for an exclusive sign.
pub open spec fn class_accepts(ev: ElementV, c: char) -> bool {
    match ev {
        ElementV::Class(cv) => if cv.sign == Sign::Inclusive {
            class_has(cv.items, c)
        } else {
            !class_has(cv.items, c)
        },
        _ => false,
    }
}

/// A literal-only pattern: one alternative, no anchors, every element a
/// class (or single character) taken exactly once.
pub open spec fn literal_only(tsv: Seq<TermV>) -> bool {
    &&& tsv.len() == 1
    &&& !tsv[0].left_anchored
    &&& !tsv[0].right_anchored
    &&& tsv[0].elements.len() >= 1
    &&& forall|i: int|
        0 <= i < tsv[0].elements.len() ==> is_class_once(#[trigger] tsv[0].elements[i])
}

/// Whole-string membership for a literal-only pattern: exactly one
/// character per element, each accepted by its class, in order.
pub open spec fn literal_language(tsv: Seq<TermV>, text: Seq<char>) -> bool {
    text.len() == tsv[0].elements.len() && (forall|i: int|
        0 <= i < text.len() ==> class_accepts(tsv[0].elements[i], #[trigger] text[i]))
}

/// A compiled class condition accepts a character exactly as the class
/// element it was compiled from does.
proof fn lemma_cond_bridge(e: Element, ev: ElementV, cond: CharCond, c: char)
    requires
        cond_of_class(e, cond),
        ev == view_elem(e),
    ensures
        spec_cond_matches(cond, c) == class_accepts(ev, c),
{
}

/// A malformed pattern: an unterminated class or group, trailing
/// unconsumed input, or an invalid brace quantifier. By design it carries
/// no position or cause.
#[derive(Debug, PartialEq, Eq, Clone, Copy)]
pub struct ParseError;

/// A compiled pattern: an immutable automaton, reusable across any number
/// of matches.
pub struct Regex {
    fsm: FSM,
}

impl Regex {
    /// A compiled pattern always carries a runnable automaton.
    #[verifier::type_invariant]
    spec fn inv(self) -> bool {
        self.fsm.wf()
    }

    /// What `matches` returns: whether the compiled automaton accepts the
    /// whole text.
    pub closed spec fn spec_matches(self, text: Seq<char>) -> bool {
        self.fsm.spec_matches(text)
    }

    /// Compiles pattern text. Fails with `ParseError` exactly when the
    /// grammar cannot consume the entire pattern; on success the automaton
    /// is built by Thompson construction from the parsed tree, and for a
    /// literal-only pattern it accepts exactly the texts that spell the
    /// chosen literals and classes once each, in order.
    pub fn compile(pattern: &str) -> (r: Result<Regex, ParseError>)
        ensures
            r is Ok <==> spec_parse_regex(pattern@) is Some,
            (match r {
                Ok(re) => (match spec_parse_regex(pattern@) {
                    Some(tsv) => literal_only(tsv) ==> (forall|text: Seq<char>|
                        re.spec_matches(text) <==> literal_language(tsv, text)),
                    None => true,
                }),
                Err(_) => true,
            }),
    {
        let chars = str_chars(pattern);
        match parse_regex_chars(&chars) {
            Some(terms) => {
                let mut fsm = FSM::new();
                let (en, ex) = compile_pattern(&mut fsm, &terms);
                let ghost built = fsm;
                fsm.start = en;
                fsm.accept = ex;
                proof {
                    let tsv = view_terms(terms@);
                    if literal_only(tsv) {
                        lemma_view_terms_index(terms@);
                        let t0 = terms@[0];
                        assert(tsv[0] == view_term(t0));
                        lemma_view_elems_index(t0.elements@);
                        let k = t0.elements@.len() as int;
                        assert(tsv[0].elements.len() == k);
                        assert(all_plain_classes(t0.elements@)) by {
                            assert forall|i: int| 0 <= i < t0.elements@.len() implies is_plain_class(
                                #[trigger] t0.elements@[i],
                            ) by {
                                assert(tsv[0].elements[i] == view_elem(t0.elements@[i]));
                                assert(is_class_once(tsv[0].elements[i]));
                            }
                        }
                        let conds = chain_conds(built, k);
                        assert(chain_conds(fsm, k) =~= conds);
                        assert(chain_layout(fsm, conds));
                        assert forall|text: Seq<char>|
                            fsm.spec_matches(text) <==> literal_language(tsv, text) by {
                            lemma_chain_matches(fsm, conds, text);
                            assert forall|i: int|
                                0 <= i < k implies (spec_cond_matches(conds[i], #[trigger] text[i])
                                == class_accepts(tsv[0].elements[i], text[i])) by {
                                assert(cond_of_class(t0.elements@[i], conds[i]));
                                assert(tsv[0].elements[i] == view_elem(t0.elements@[i]));
                                lemma_cond_bridge(
                                    t0.elements@[i],
                                    tsv[0].elements[i],
                                    conds[i],
                                    text[i],
                                );
                            }
                            if text.len() == k {
                                if conds_match_prefix(conds, text, k) {
                                    assert forall|i: int|
                                        0 <= i < text.len() implies class_accepts(
                                        tsv[0].elements[i],
                                        #[trigger] text[i],
                                    ) by {
                                        assert(spec_cond_matches(conds[i], text[i]));
                                    }
                                    assert(literal_language(tsv, text));
                                }
                                if literal_language(tsv, text) {
                                    assert forall|j: int|
                                        0 <= j < k implies #[trigger] spec_cond_matches(
                                        conds[j],
                                        text[j],
                                    ) by {
                                        assert(class_accepts(tsv[0].elements[j], text[j]));
                                    }
                                    assert(conds_match_prefix(conds, text, k));
                                }
                            }
                        }
                    }
                }
                Ok(Regex { fsm })
            },
            None => Err(ParseError),
        }
    }

    /// Runs the text against the compiled automaton: total, never fails,
    /// and specified as a pure function of the pattern and the text, so
    /// repeated and interleaved calls on one compiled pattern always
    /// return the same boolean.
    pub fn matches(&self, text: &str) -> (r: bool)
        ensures
            r == self.spec_matches(text@),
    {
        proof {
            use_type_invariant(&*self);
        }
        let chars = str_chars(text);
        self.fsm.accepts(&chars)
    }
}

/// Matching is deterministic: any two results of `matches` on one compiled
/// pattern and one text are the same boolean, however the calls are
/// repeated or interleaved, since a compiled pattern is never mutated.
pub proof fn lemma_matches_deterministic(re: &Regex, text: Seq<char>, r1: bool, r2: bool)
    requires
        r1 == re.spec_matches(text),
        r2 == re.spec_matches(text),
    ensures
        r1 == r2,
{
}

} // verus!
