//! Thompson-style compilation of the syntax tree into the automaton. Every
//! fragment has one entry and one exit node; concatenation, alternation and
//! quantifiers splice fragments with epsilon edges, and anchors and word
//! boundaries become position-predicate epsilon edges. Lazy quantifiers
//! build the same graph as their greedy counterparts: active-state-set
//! matching has no single-path preference to express.

use vstd::prelude::*;

use crate::ast::{Element, Quantifier, Sign, SpecialSequence, Term, Token};
use crate::fsm::{chain_conds, chain_graph, CharCond, Edge, Eps, EpsCond, FSM, Transitions};

verus! {

/// The size of an element, for termination of compilation.
pub open spec fn size_elem(e: Element) -> nat
    decreases e,
{
    match e {
        Element::Class(_) => 1,
        Element::Sequence(_, _) => 1,
        Element::CaptureGroup(t, _) => 1 + size_term(t),
    }
}

/// The size of a term.
pub open spec fn size_term(t: Term) -> nat
    decreases t,
{
    1 + size_elems(t.elements@)
}

/// The summed size of a sequence of elements.
pub open spec fn size_elems(s: Seq<Element>) -> nat
    decreases s,
{
    if s.len() == 0 {
        0
    } else {
        size_elem(s[0]) + size_elems(s.subrange(1, s.len() as int))
    }
}

/// The quantifier an element carries, at the specification level.
pub open spec fn spec_quantifier_of(e: Element) -> Quantifier {
    match e {
        Element::Class(c) => c.quantifier,
        Element::Sequence(_, q) => q,
        Element::CaptureGroup(_, q) => q,
    }
}

/// An element that consumes exactly one character: a class taken once.
pub open spec fn is_plain_class(e: Element) -> bool {
    match e {
        Element::Class(c) => c.quantifier == Quantifier::Once,
        _ => false,
    }
}

/// Every element of the sequence is a class taken once.
pub open spec fn all_plain_classes(s: Seq<Element>) -> bool {
    forall|i: int| 0 <= i < s.len() ==> is_plain_class(#[trigger] s[i])
}

/// The condition compiled from a class element carries exactly the class's
/// sign and items.
pub open spec fn cond_of_class(e: Element, cond: CharCond) -> bool {
    match (e, cond) {
        (Element::Class(cc), CharCond::Member(sg, v)) => sg == cc.sign && v@ == cc.items@,
        _ => false,
    }
}

/// The graph block a term of `i` compiled plain classes occupies, starting
/// at node `base`: the term's entry, then per class an entry node with the
/// class's one consuming edge and an exit node, chained by epsilon edges;
/// the last exit still bare.
pub open spec fn plain_block(fsm: FSM, base: int, elems: Seq<Element>, i: int) -> bool {
    &&& fsm.graph@.len() == base + 1 + 2 * i
    &&& fsm.graph@[base].edges@.len() == 0
    &&& fsm.graph@[base].epsilons@.len() == (if i > 0 {
        1int
    } else {
        0int
    })
    &&& (i > 0 ==> fsm.graph@[base].epsilons@[0].cond == EpsCond::Always
        && fsm.graph@[base].epsilons@[0].target as int == base + 1)
    &&& (forall|j: int|
        #![trigger fsm.graph@[base + 1 + 2 * j]]
        0 <= j < i ==> fsm.graph@[base + 1 + 2 * j].edges@.len() == 1 && cond_of_class(
            elems[j],
            fsm.graph@[base + 1 + 2 * j].edges@[0].cond,
        ) && fsm.graph@[base + 1 + 2 * j].edges@[0].target as int == base + 2 + 2 * j
            && fsm.graph@[base + 1 + 2 * j].epsilons@.len() == 0)
    &&& (forall|j: int|
        #![trigger fsm.graph@[base + 2 + 2 * j]]
        0 <= j < i - 1 ==> fsm.graph@[base + 2 + 2 * j].edges@.len() == 0 && fsm.graph@[base + 2
            + 2 * j].epsilons@.len() == 1 && fsm.graph@[base + 2 + 2 * j].epsilons@[0].cond
            == EpsCond::Always && fsm.graph@[base + 2 + 2 * j].epsilons@[0].target as int == base
            + 3 + 2 * j)
    &&& (i > 0 ==> fsm.graph@[base + 2 * i].edges@.len() == 0 && fsm.graph@[base + 2
        * i].epsilons@.len() == 0)
}

/// Splicing one more compiled class onto a term's block extends the block
/// by one: the fresh fragment (in `mid`, two nodes past `before`) joined
/// to the block's cursor by one epsilon edge (in `after`).
proof fn lemma_block_extend(
    before: FSM,
    mid: FSM,
    after: FSM,
    base: int,
    elems: Seq<Element>,
    ii: int,
    cur: usize,
    en: usize,
    ex: usize,
)
    requires
        0 <= ii < elems.len(),
        0 <= base,
        plain_block(before, base, elems, ii),
        cur as int == (if ii == 0 {
            base
        } else {
            base + 2 * ii
        }),
        en as int == base + 1 + 2 * ii,
        ex as int == base + 2 + 2 * ii,
        mid.graph@.len() == before.graph@.len() + 2,
        forall|n: int| 0 <= n < before.graph@.len() ==> mid.graph@[n] == before.graph@[n],
        mid.graph@[en as int].epsilons@.len() == 0,
        mid.graph@[en as int].edges@.len() == 1,
        cond_of_class(elems[ii], mid.graph@[en as int].edges@[0].cond),
        mid.graph@[en as int].edges@[0].target == ex,
        mid.graph@[ex as int].edges@.len() == 0,
        mid.graph@[ex as int].epsilons@.len() == 0,
        after.graph@.len() == mid.graph@.len(),
        forall|n: int|
            0 <= n < mid.graph@.len() && n != cur as int ==> after.graph@[n] == mid.graph@[n],
        after.graph@[cur as int].edges@ == mid.graph@[cur as int].edges@,
        after.graph@[cur as int].epsilons@ == mid.graph@[cur as int].epsilons@.push(
            Eps { cond: EpsCond::Always, target: en },
        ),
    ensures
        plain_block(after, base, elems, ii + 1),
{
    assert forall|j: int|
        #![trigger after.graph@[base + 1 + 2 * j]]
        0 <= j < ii + 1 implies (after.graph@[base + 1 + 2 * j].edges@.len() == 1
        && cond_of_class(elems[j], after.graph@[base + 1 + 2 * j].edges@[0].cond)
        && after.graph@[base + 1 + 2 * j].edges@[0].target as int == base + 2 + 2 * j
        && after.graph@[base + 1 + 2 * j].epsilons@.len() == 0) by {
        if j < ii {
            assert(base + 1 + 2 * j != cur as int);
            assert(mid.graph@[base + 1 + 2 * j] == before.graph@[base + 1 + 2 * j]);
            assert(after.graph@[base + 1 + 2 * j] == before.graph@[base + 1 + 2 * j]);
            assert(before.graph@[base + 1 + 2 * j].edges@.len() == 1);
            assert(cond_of_class(elems[j], before.graph@[base + 1 + 2 * j].edges@[0].cond));
            assert(before.graph@[base + 1 + 2 * j].edges@[0].target as int == base + 2 + 2 * j);
            assert(before.graph@[base + 1 + 2 * j].epsilons@.len() == 0);
        } else {
            assert(j == ii);
            assert(base + 1 + 2 * j == en as int);
            assert(after.graph@[base + 1 + 2 * j] == mid.graph@[en as int]);
            assert(after.graph@[base + 1 + 2 * j].edges@.len() == 1);
            assert(cond_of_class(elems[j], after.graph@[base + 1 + 2 * j].edges@[0].cond));
            assert(after.graph@[base + 1 + 2 * j].edges@[0].target as int == base + 2 + 2 * j);
            assert(after.graph@[base + 1 + 2 * j].epsilons@.len() == 0);
        }
    }
    assert forall|j: int|
        #![trigger after.graph@[base + 2 + 2 * j]]
        0 <= j < ii implies (after.graph@[base + 2 + 2 * j].edges@.len() == 0
        && after.graph@[base + 2 + 2 * j].epsilons@.len() == 1 && after.graph@[base + 2 + 2
        * j].epsilons@[0].cond == EpsCond::Always && after.graph@[base + 2 + 2
        * j].epsilons@[0].target as int == base + 3 + 2 * j) by {
        if j < ii - 1 {
            assert(base + 2 + 2 * j != cur as int);
            assert(mid.graph@[base + 2 + 2 * j] == before.graph@[base + 2 + 2 * j]);
            assert(after.graph@[base + 2 + 2 * j] == before.graph@[base + 2 + 2 * j]);
        } else {
            assert(j == ii - 1);
            assert(base + 2 + 2 * j == cur as int);
            assert(mid.graph@[cur as int] == before.graph@[cur as int]);
            assert(after.graph@[cur as int].epsilons@[0] == (Eps {
                cond: EpsCond::Always,
                target: en,
            }));
        }
    }
    assert(after.graph@[base + 2 * (ii + 1)] == mid.graph@[ex as int]);
    if ii == 0 {
        assert(after.graph@[base].epsilons@[0] == (Eps { cond: EpsCond::Always, target: en }));
    } else {
        assert(after.graph@[base] == before.graph@[base]);
    }
}

/// Each element weighs no more than the whole sequence.
proof fn lemma_size_elems_index(s: Seq<Element>, i: int)
    requires
        0 <= i < s.len(),
    ensures
        size_elem(s[i]) <= size_elems(s),
    decreases i,
{
    if i == 0 {
    } else {
        lemma_size_elems_index(s.subrange(1, s.len() as int), i - 1);
        assert(s.subrange(1, s.len() as int)[i - 1] == s[i]);
    }
}

impl FSM {
    /// Appends a fresh node with no transitions; returns its index.
    pub(crate) fn add_state(&mut self) -> (i: usize)
        ensures
            final(self).graph@.len() == old(self).graph@.len() + 1,
            i as int == old(self).graph@.len(),
            forall|n: int|
                0 <= n < old(self).graph@.len() ==> final(self).graph@[n] == old(self).graph@[n],
            final(self).graph@[i as int].edges@.len() == 0,
            final(self).graph@[i as int].epsilons@.len() == 0,
            final(self).start == old(self).start,
            final(self).accept == old(self).accept,
            old(self).targets_ok() ==> final(self).targets_ok(),
    {
        let i = self.graph.len();
        self.graph.push(Transitions { edges: Vec::new(), epsilons: Vec::new() });
        assert(old(self).targets_ok() ==> self.targets_ok()) by {
            if old(self).targets_ok() {
                assert(forall|n: int, k: int|
                    0 <= n < self.graph@.len() && 0 <= k < self.graph@[n].edges@.len() ==> (
                    #[trigger] self.graph@[n].edges@[k].target as int) < self.graph@.len()) by {
                    assert(forall|n: int|
                        0 <= n < old(self).graph@.len() ==> self.graph@[n] == old(
                            self,
                        ).graph@[n]);
                }
                assert(forall|n: int, k: int|
                    0 <= n < self.graph@.len() && 0 <= k < self.graph@[n].epsilons@.len() ==> (
                    #[trigger] self.graph@[n].epsilons@[k].target as int)
                        < self.graph@.len()) by {
                    assert(forall|n: int|
                        0 <= n < old(self).graph@.len() ==> self.graph@[n] == old(
                            self,
                        ).graph@[n]);
                }
            }
        }
        i
    }

    /// Adds a consuming edge between existing nodes.
    pub(crate) fn add_edge(&mut self, from: usize, cond: CharCond, to: usize)
        requires
            (from as int) < old(self).graph@.len(),
            (to as int) < old(self).graph@.len(),
            old(self).targets_ok(),
        ensures
            final(self).graph@.len() == old(self).graph@.len(),
            forall|n: int|
                0 <= n < old(self).graph@.len() && n != from as int ==> final(self).graph@[n]
                    == old(self).graph@[n],
            final(self).graph@[from as int].edges@ == old(
                self,
            ).graph@[from as int].edges@.push(Edge { cond, target: to }),
            final(self).graph@[from as int].epsilons@ == old(
                self,
            ).graph@[from as int].epsilons@,
            final(self).start == old(self).start,
            final(self).accept == old(self).accept,
            final(self).targets_ok(),
    {
        self.graph[from].edges.push(Edge { cond, target: to });
        assert(self.targets_ok()) by {
            assert(forall|n: int|
                0 <= n < self.graph@.len() && n != from as int ==> self.graph@[n] == old(
                    self,
                ).graph@[n]);
            assert(self.graph@[from as int].edges@ == old(
                self,
            ).graph@[from as int].edges@.push(Edge { cond, target: to }));
        }
    }

    /// Adds an epsilon edge between existing nodes.
    pub(crate) fn add_eps(&mut self, from: usize, cond: EpsCond, to: usize)
        requires
            (from as int) < old(self).graph@.len(),
            (to as int) < old(self).graph@.len(),
            old(self).targets_ok(),
        ensures
            final(self).graph@.len() == old(self).graph@.len(),
            forall|n: int|
                0 <= n < old(self).graph@.len() && n != from as int ==> final(self).graph@[n]
                    == old(self).graph@[n],
            final(self).graph@[from as int].edges@ == old(self).graph@[from as int].edges@,
            final(self).graph@[from as int].epsilons@ == old(
                self,
            ).graph@[from as int].epsilons@.push(Eps { cond, target: to }),
            final(self).start == old(self).start,
            final(self).accept == old(self).accept,
            final(self).targets_ok(),
    {
        self.graph[from].epsilons.push(Eps { cond, target: to });
        assert(self.targets_ok()) by {
            assert(forall|n: int|
                0 <= n < self.graph@.len() && n != from as int ==> self.graph@[n] == old(
                    self,
                ).graph@[n]);
            assert(self.graph@[from as int].epsilons@ == old(
                self,
            ).graph@[from as int].epsilons@.push(Eps { cond, target: to }));
        }
    }
}

/// What compiling one special sequence puts on its entry node: a consuming
/// edge for the character kinds, a position-predicate epsilon edge for the
/// zero-width assertions, aimed at the exit node either way.
pub open spec fn seq_fragment(seq: SpecialSequence, entry: Transitions, exit: usize) -> bool {
    match seq {
        SpecialSequence::AnyCharacter => entry.epsilons@.len() == 0 && entry.edges@.len() == 1
            && entry.edges@[0] == (Edge { cond: CharCond::Any, target: exit }),
        SpecialSequence::Digit => entry.epsilons@.len() == 0 && entry.edges@.len() == 1
            && entry.edges@[0] == (Edge { cond: CharCond::Digit, target: exit }),
        SpecialSequence::NotDigit => entry.epsilons@.len() == 0 && entry.edges@.len() == 1
            && entry.edges@[0] == (Edge { cond: CharCond::NotDigit, target: exit }),
        SpecialSequence::Whitespace => entry.epsilons@.len() == 0 && entry.edges@.len() == 1
            && entry.edges@[0] == (Edge { cond: CharCond::Space, target: exit }),
        SpecialSequence::NotWhitespace => entry.epsilons@.len() == 0 && entry.edges@.len() == 1
            && entry.edges@[0] == (Edge { cond: CharCond::NotSpace, target: exit }),
        SpecialSequence::WordCharacter => entry.epsilons@.len() == 0 && entry.edges@.len() == 1
            && entry.edges@[0] == (Edge { cond: CharCond::Word, target: exit }),
        SpecialSequence::NotWordCharacter => entry.epsilons@.len() == 0 && entry.edges@.len()
            == 1 && entry.edges@[0] == (Edge { cond: CharCond::NotWord, target: exit }),
        SpecialSequence::Start => entry.edges@.len() == 0 && entry.epsilons@.len() == 1
            && entry.epsilons@[0] == (Eps { cond: EpsCond::AtStart, target: exit }),
        SpecialSequence::End => entry.edges@.len() == 0 && entry.epsilons@.len() == 1
            && entry.epsilons@[0] == (Eps { cond: EpsCond::AtEnd, target: exit }),
        SpecialSequence::WordBoundary => entry.edges@.len() == 0 && entry.epsilons@.len() == 1
            && entry.epsilons@[0] == (Eps { cond: EpsCond::AtWordBoundary, target: exit }),
        SpecialSequence::WithinWord => entry.edges@.len() == 0 && entry.epsilons@.len() == 1
            && entry.epsilons@[0] == (Eps { cond: EpsCond::NotAtWordBoundary, target: exit }),
    }
}

/// A fragment compiled from a class: one consuming edge from a fresh entry
/// to a fresh exit, guarded by membership in exactly the given items under
/// the given sign.
fn compile_class(fsm: &mut FSM, sign: Sign, items: &Vec<Token>) -> (r: (usize, usize))
    requires
        old(fsm).targets_ok(),
    ensures
        final(fsm).targets_ok(),
        final(fsm).graph@.len() == old(fsm).graph@.len() + 2,
        r.0 as int == old(fsm).graph@.len(),
        r.1 as int == old(fsm).graph@.len() + 1,
        forall|n: int|
            0 <= n < old(fsm).graph@.len() ==> final(fsm).graph@[n] == old(fsm).graph@[n],
        final(fsm).graph@[r.0 as int].epsilons@.len() == 0,
        final(fsm).graph@[r.0 as int].edges@.len() == 1,
        final(fsm).graph@[r.0 as int].edges@[0].target == r.1,
        (match final(fsm).graph@[r.0 as int].edges@[0].cond {
            CharCond::Member(sg, v) => sg == sign && v@ == items@,
            _ => false,
        }),
        final(fsm).graph@[r.1 as int].edges@.len() == 0,
        final(fsm).graph@[r.1 as int].epsilons@.len() == 0,
        final(fsm).start == old(fsm).start,
        final(fsm).accept == old(fsm).accept,
{
    let entry = fsm.add_state();
    let exit = fsm.add_state();
    let mut copy: Vec<Token> = Vec::new();
    let mut i: usize = 0;
    while i < items.len()
        invariant
            i <= items@.len(),
            copy@.len() == i,
            forall|j: int| 0 <= j < i ==> copy@[j] == items@[j],
        decreases items@.len() - i,
    {
        copy.push(items[i]);
        i += 1;
    }
    assert(copy@ =~= items@);
    fsm.add_edge(entry, CharCond::Member(sign, copy), exit);
    (entry, exit)
}

/// A fragment compiled from a special sequence: a fresh entry and exit
/// joined by exactly the transition `seq_fragment` describes.
fn compile_seq(fsm: &mut FSM, seq: SpecialSequence) -> (r: (usize, usize))
    requires
        old(fsm).targets_ok(),
    ensures
        final(fsm).targets_ok(),
        final(fsm).graph@.len() == old(fsm).graph@.len() + 2,
        r.0 as int == old(fsm).graph@.len(),
        r.1 as int == old(fsm).graph@.len() + 1,
        forall|n: int|
            0 <= n < old(fsm).graph@.len() ==> final(fsm).graph@[n] == old(fsm).graph@[n],
        seq_fragment(seq, final(fsm).graph@[r.0 as int], r.1),
        final(fsm).graph@[r.1 as int].edges@.len() == 0,
        final(fsm).graph@[r.1 as int].epsilons@.len() == 0,
        final(fsm).start == old(fsm).start,
        final(fsm).accept == old(fsm).accept,
{
    let entry = fsm.add_state();
    let exit = fsm.add_state();
    match seq {
        SpecialSequence::AnyCharacter => fsm.add_edge(entry, CharCond::Any, exit),
        SpecialSequence::Digit => fsm.add_edge(entry, CharCond::Digit, exit),
        SpecialSequence::NotDigit => fsm.add_edge(entry, CharCond::NotDigit, exit),
        SpecialSequence::Whitespace => fsm.add_edge(entry, CharCond::Space, exit),
        SpecialSequence::NotWhitespace => fsm.add_edge(entry, CharCond::NotSpace, exit),
        SpecialSequence::WordCharacter => fsm.add_edge(entry, CharCond::Word, exit),
        SpecialSequence::NotWordCharacter => fsm.add_edge(entry, CharCond::NotWord, exit),
        SpecialSequence::Start => fsm.add_eps(entry, EpsCond::AtStart, exit),
        SpecialSequence::End => fsm.add_eps(entry, EpsCond::AtEnd, exit),
        SpecialSequence::WordBoundary => fsm.add_eps(entry, EpsCond::AtWordBoundary, exit),
        SpecialSequence::WithinWord => fsm.add_eps(entry, EpsCond::NotAtWordBoundary, exit),
    }
    (entry, exit)
}

/// The quantifier an element carries.
fn quantifier_of(e: &Element) -> (q: Quantifier)
    ensures
        q == spec_quantifier_of(*e),
{
    match e {
        Element::Class(c) => c.quantifier,
        Element::Sequence(_, q) => *q,
        Element::CaptureGroup(_, q) => *q,
    }
}

/// One unquantified copy of an element's fragment; for a class, exactly
/// the two nodes and one edge of `compile_class`.
fn compile_element_core(fsm: &mut FSM, e: &Element) -> (r: (usize, usize))
    requires
        old(fsm).targets_ok(),
    ensures
        final(fsm).targets_ok(),
        old(fsm).graph@.len() <= final(fsm).graph@.len(),
        r.0 as int == old(fsm).graph@.len(),
        (r.0 as int) < final(fsm).graph@.len(),
        old(fsm).graph@.len() <= (r.1 as int) < final(fsm).graph@.len(),
        forall|n: int|
            0 <= n < old(fsm).graph@.len() ==> final(fsm).graph@[n] == old(fsm).graph@[n],
        final(fsm).start == old(fsm).start,
        final(fsm).accept == old(fsm).accept,
        is_plain_class(*e) ==> ({
            &&& final(fsm).graph@.len() == old(fsm).graph@.len() + 2
            &&& r.0 as int == old(fsm).graph@.len()
            &&& r.1 as int == old(fsm).graph@.len() + 1
            &&& final(fsm).graph@[r.0 as int].epsilons@.len() == 0
            &&& final(fsm).graph@[r.0 as int].edges@.len() == 1
            &&& cond_of_class(*e, final(fsm).graph@[r.0 as int].edges@[0].cond)
            &&& final(fsm).graph@[r.0 as int].edges@[0].target == r.1
            &&& final(fsm).graph@[r.1 as int].edges@.len() == 0
            &&& final(fsm).graph@[r.1 as int].epsilons@.len() == 0
        }),
    decreases size_elem(*e), 1int,
{
    match e {
        Element::Class(c) => compile_class(fsm, c.sign, &c.items),
        Element::Sequence(sq, _) => compile_seq(fsm, *sq),
        Element::CaptureGroup(t, _) => compile_term(fsm, t),
    }
}

/// An element's fragment with its quantifier applied. A skip edge lets the
/// body be passed over; a loop edge lets it repeat. Counted forms chain the
/// demanded copies and close with a starred or optional tail.
#[verifier::loop_isolation(false)]
fn compile_element(fsm: &mut FSM, e: &Element) -> (r: (usize, usize))
    requires
        old(fsm).targets_ok(),
    ensures
        final(fsm).targets_ok(),
        old(fsm).graph@.len() <= final(fsm).graph@.len(),
        r.0 as int == old(fsm).graph@.len(),
        (r.0 as int) < final(fsm).graph@.len(),
        old(fsm).graph@.len() <= (r.1 as int) < final(fsm).graph@.len(),
        forall|n: int|
            0 <= n < old(fsm).graph@.len() ==> final(fsm).graph@[n] == old(fsm).graph@[n],
        final(fsm).start == old(fsm).start,
        final(fsm).accept == old(fsm).accept,
        is_plain_class(*e) ==> ({
            &&& final(fsm).graph@.len() == old(fsm).graph@.len() + 2
            &&& r.0 as int == old(fsm).graph@.len()
            &&& r.1 as int == old(fsm).graph@.len() + 1
            &&& final(fsm).graph@[r.0 as int].epsilons@.len() == 0
            &&& final(fsm).graph@[r.0 as int].edges@.len() == 1
            &&& cond_of_class(*e, final(fsm).graph@[r.0 as int].edges@[0].cond)
            &&& final(fsm).graph@[r.0 as int].edges@[0].target == r.1
            &&& final(fsm).graph@[r.1 as int].edges@.len() == 0
            &&& final(fsm).graph@[r.1 as int].epsilons@.len() == 0
        }),
    decreases size_elem(*e), 2int,
{
    let q = quantifier_of(e);
    match q {
        Quantifier::Once => compile_element_core(fsm, e),
        Quantifier::ZeroOrMore | Quantifier::LazyZeroOrMore => {
            let (en, ex) = compile_element_core(fsm, e);
            fsm.add_eps(en, EpsCond::Always, ex);
            fsm.add_eps(ex, EpsCond::Always, en);
            (en, ex)
        },
        Quantifier::OneOrMore | Quantifier::LazyOneOrMore => {
            let (en, ex) = compile_element_core(fsm, e);
            fsm.add_eps(ex, EpsCond::Always, en);
            (en, ex)
        },
        Quantifier::Maybe | Quantifier::LazyMaybe => {
            let (en, ex) = compile_element_core(fsm, e);
            fsm.add_eps(en, EpsCond::Always, ex);
            (en, ex)
        },
        Quantifier::AtLeast(n) => {
            let entry = fsm.add_state();
            let mut cur = entry;
            let mut i: usize = 0;
            while i < n
                invariant
                    fsm.targets_ok(),
                    old(fsm).graph@.len() <= (cur as int) < fsm.graph@.len(),
                    old(fsm).graph@.len() <= (entry as int) < fsm.graph@.len(),
                    old(fsm).graph@.len() <= fsm.graph@.len(),
                    forall|n: int|
                        0 <= n < old(fsm).graph@.len() ==> fsm.graph@[n] == old(fsm).graph@[n],
                    fsm.start == old(fsm).start,
                    fsm.accept == old(fsm).accept,
                decreases n - i,
            {
                let (en, ex) = compile_element_core(fsm, e);
                fsm.add_eps(cur, EpsCond::Always, en);
                cur = ex;
                i += 1;
            }
            let (en, ex) = compile_element_core(fsm, e);
            fsm.add_eps(en, EpsCond::Always, ex);
            fsm.add_eps(ex, EpsCond::Always, en);
            fsm.add_eps(cur, EpsCond::Always, en);
            (entry, ex)
        },
        Quantifier::Between(n, m) => {
            let entry = fsm.add_state();
            let mut cur = entry;
            let mut i: usize = 0;
            while i < n
                invariant
                    fsm.targets_ok(),
                    old(fsm).graph@.len() <= (cur as int) < fsm.graph@.len(),
                    old(fsm).graph@.len() <= (entry as int) < fsm.graph@.len(),
                    old(fsm).graph@.len() <= fsm.graph@.len(),
                    forall|n: int|
                        0 <= n < old(fsm).graph@.len() ==> fsm.graph@[n] == old(fsm).graph@[n],
                    fsm.start == old(fsm).start,
                    fsm.accept == old(fsm).accept,
                decreases n - i,
            {
                let (en, ex) = compile_element_core(fsm, e);
                fsm.add_eps(cur, EpsCond::Always, en);
                cur = ex;
                i += 1;
            }
            let extra: usize = if m > n {
                m - n
            } else {
                0
            };
            let mut k: usize = 0;
            while k < extra
                invariant
                    fsm.targets_ok(),
                    old(fsm).graph@.len() <= (cur as int) < fsm.graph@.len(),
                    old(fsm).graph@.len() <= (entry as int) < fsm.graph@.len(),
                    old(fsm).graph@.len() <= fsm.graph@.len(),
                    forall|n: int|
                        0 <= n < old(fsm).graph@.len() ==> fsm.graph@[n] == old(fsm).graph@[n],
                    fsm.start == old(fsm).start,
                    fsm.accept == old(fsm).accept,
                decreases extra - k,
            {
                let (en, ex) = compile_element_core(fsm, e);
                fsm.add_eps(en, EpsCond::Always, ex);
                fsm.add_eps(cur, EpsCond::Always, en);
                cur = ex;
                k += 1;
            }
            (entry, cur)
        },
    }
}

/// A term's fragment: the optional left anchor, the elements in order, and
/// the optional right anchor, concatenated with epsilon edges.
#[verifier::loop_isolation(false)]
pub fn compile_term(fsm: &mut FSM, t: &Term) -> (r: (usize, usize))
    requires
        old(fsm).targets_ok(),
    ensures
        final(fsm).targets_ok(),
        old(fsm).graph@.len() <= final(fsm).graph@.len(),
        r.0 as int == old(fsm).graph@.len(),
        (r.0 as int) < final(fsm).graph@.len(),
        old(fsm).graph@.len() <= (r.1 as int) < final(fsm).graph@.len(),
        forall|n: int|
            0 <= n < old(fsm).graph@.len() ==> final(fsm).graph@[n] == old(fsm).graph@[n],
        final(fsm).start == old(fsm).start,
        final(fsm).accept == old(fsm).accept,
        (!t.left_anchored && !t.right_anchored && all_plain_classes(t.elements@)
            && t.elements@.len() >= 1) ==> (plain_block(
            *final(fsm),
            old(fsm).graph@.len() as int,
            t.elements@,
            t.elements@.len() as int,
        ) && r.0 as int == old(fsm).graph@.len() && r.1 as int == old(fsm).graph@.len() + 2
            * t.elements@.len()),
    decreases size_term(*t), 3int,
{
    let entry = fsm.add_state();
    let mut cur = entry;
    if t.left_anchored {
        let nx = fsm.add_state();
        fsm.add_eps(cur, EpsCond::AtStart, nx);
        cur = nx;
    }
    let ghost plain = !t.left_anchored && !t.right_anchored && all_plain_classes(t.elements@)
        && t.elements@.len() >= 1;
    let ghost base = old(fsm).graph@.len() as int;
    let mut i: usize = 0;
    while i < t.elements.len()
        invariant
            i <= t.elements@.len(),
            fsm.targets_ok(),
            old(fsm).graph@.len() <= (cur as int) < fsm.graph@.len(),
            entry as int == old(fsm).graph@.len(),
            old(fsm).graph@.len() < fsm.graph@.len(),
            forall|n: int|
                0 <= n < old(fsm).graph@.len() ==> fsm.graph@[n] == old(fsm).graph@[n],
            fsm.start == old(fsm).start,
            fsm.accept == old(fsm).accept,
            plain ==> (plain_block(*fsm, base, t.elements@, i as int) && cur as int == (
            if i == 0 {
                base
            } else {
                base + 2 * i
            })),
        decreases t.elements@.len() - i,
    {
        proof {
            lemma_size_elems_index(t.elements@, i as int);
        }
        let ghost before = *fsm;
        let (en, ex) = compile_element(fsm, &t.elements[i]);
        let ghost mid = *fsm;
        fsm.add_eps(cur, EpsCond::Always, en);
        proof {
            if plain {
                let elems = t.elements@;
                let ii = i as int;
                assert(is_plain_class(elems[ii]));
                lemma_block_extend(before, mid, *fsm, base, elems, ii, cur, en, ex);
            }
        }
        cur = ex;
        i += 1;
    }
    if t.right_anchored {
        let nx = fsm.add_state();
        fsm.add_eps(cur, EpsCond::AtEnd, nx);
        cur = nx;
    }
    (entry, cur)
}

/// The whole pattern's fragment: a fresh entry branches by epsilon into
/// every alternative, and every alternative's exit feeds a fresh common
/// exit.
#[verifier::loop_isolation(false)]
pub fn compile_pattern(fsm: &mut FSM, terms: &Vec<Term>) -> (r: (usize, usize))
    requires
        old(fsm).targets_ok(),
    ensures
        final(fsm).targets_ok(),
        old(fsm).graph@.len() + 2 <= final(fsm).graph@.len(),
        r.0 as int == old(fsm).graph@.len(),
        r.1 as int == old(fsm).graph@.len() + 1,
        forall|n: int|
            0 <= n < old(fsm).graph@.len() ==> final(fsm).graph@[n] == old(fsm).graph@[n],
        final(fsm).start == old(fsm).start,
        final(fsm).accept == old(fsm).accept,
        (old(fsm).graph@.len() == 0 && terms@.len() == 1 && !terms@[0].left_anchored
            && !terms@[0].right_anchored && all_plain_classes(terms@[0].elements@)
            && terms@[0].elements@.len() >= 1) ==> ({
            let k = terms@[0].elements@.len() as int;
            &&& r.0 == 0usize
            &&& r.1 == 1usize
            &&& chain_graph(*final(fsm), chain_conds(*final(fsm), k))
            &&& forall|q: int|
                0 <= q < k ==> cond_of_class(
                    terms@[0].elements@[q],
                    #[trigger] chain_conds(*final(fsm), k)[q],
                )
        }),
{
    let entry = fsm.add_state();
    let exit = fsm.add_state();
    let ghost plain = old(fsm).graph@.len() == 0 && terms@.len() == 1
        && !terms@[0].left_anchored && !terms@[0].right_anchored && all_plain_classes(
        terms@[0].elements@,
    ) && terms@[0].elements@.len() >= 1;
    let ghost k = terms@[0].elements@.len() as int;
    let mut i: usize = 0;
    while i < terms.len()
        invariant
            i <= terms@.len(),
            fsm.targets_ok(),
            entry as int == old(fsm).graph@.len(),
            exit as int == old(fsm).graph@.len() + 1,
            old(fsm).graph@.len() + 2 <= fsm.graph@.len(),
            forall|n: int|
                0 <= n < old(fsm).graph@.len() ==> fsm.graph@[n] == old(fsm).graph@[n],
            fsm.start == old(fsm).start,
            fsm.accept == old(fsm).accept,
            plain ==> ((i == 0 && fsm.graph@.len() == 2 && fsm.graph@[0].edges@.len() == 0
                && fsm.graph@[0].epsilons@.len() == 0 && fsm.graph@[1].edges@.len() == 0
                && fsm.graph@[1].epsilons@.len() == 0) || (i == 1 && chain_graph(
                *fsm,
                chain_conds(*fsm, k),
            ) && (forall|q: int|
                0 <= q < k ==> cond_of_class(
                    terms@[0].elements@[q],
                    #[trigger] chain_conds(*fsm, k)[q],
                )))),
        decreases terms@.len() - i,
    {
        let ghost bt = *fsm;
        let (en, ex) = compile_term(fsm, &terms[i]);
        let ghost at = *fsm;
        fsm.add_eps(entry, EpsCond::Always, en);
        let ghost m2 = *fsm;
        fsm.add_eps(ex, EpsCond::Always, exit);
        proof {
            if plain {
                let elems = terms@[0].elements@;
                assert(en as int == 2 && ex as int == 2 + 2 * k);
                lemma_chain_from_block(at, m2, *fsm, elems, en, exit);
            }
        }
        i += 1;
    }
    (entry, exit)
}

/// The chain automaton assembled: the term's block, the entry's epsilon
/// into it, and the last exit's epsilon into the accepting node.
proof fn lemma_chain_from_block(
    blockfsm: FSM,
    mid2: FSM,
    after: FSM,
    elems: Seq<Element>,
    en: usize,
    exit: usize,
)
    requires
        elems.len() >= 1,
        en as int == 2,
        exit as int == 1,
        blockfsm.graph@.len() == 3 + 2 * elems.len(),
        blockfsm.graph@[0].edges@.len() == 0,
        blockfsm.graph@[0].epsilons@.len() == 0,
        blockfsm.graph@[1].edges@.len() == 0,
        blockfsm.graph@[1].epsilons@.len() == 0,
        plain_block(blockfsm, 2, elems, elems.len() as int),
        mid2.graph@.len() == blockfsm.graph@.len(),
        forall|n: int|
            0 <= n < blockfsm.graph@.len() && n != 0 ==> mid2.graph@[n] == blockfsm.graph@[n],
        mid2.graph@[0].edges@ == blockfsm.graph@[0].edges@,
        mid2.graph@[0].epsilons@ == blockfsm.graph@[0].epsilons@.push(
            Eps { cond: EpsCond::Always, target: en },
        ),
        after.graph@.len() == mid2.graph@.len(),
        forall|n: int|
            0 <= n < mid2.graph@.len() && n != 2 + 2 * elems.len() as int ==> after.graph@[n]
                == mid2.graph@[n],
        after.graph@[2 + 2 * elems.len() as int].edges@ == mid2.graph@[2 + 2 * elems.len() as int].edges@,
        after.graph@[2 + 2 * elems.len() as int].epsilons@ == mid2.graph@[2 + 2 * elems.len() as int].epsilons@.push(
            Eps { cond: EpsCond::Always, target: exit },
        ),
    ensures
        chain_graph(after, chain_conds(after, elems.len() as int)),
        forall|q: int|
            0 <= q < elems.len() ==> cond_of_class(
                elems[q],
                #[trigger] chain_conds(after, elems.len() as int)[q],
            ),
{
    let k = elems.len() as int;
    let conds = chain_conds(after, k);
    let last = 2 + 2 * k;
    assert(after.graph@[0] == mid2.graph@[0]);
    assert(after.graph@[1] == mid2.graph@[1] && mid2.graph@[1] == blockfsm.graph@[1]);
    assert(after.graph@[2] == mid2.graph@[2] && mid2.graph@[2] == blockfsm.graph@[2]);
    assert forall|n: int|
        #![trigger after.graph@[n]]
        3 <= n < 3 + 2 * k && (n - 3) % 2 == 0 implies (after.graph@[n].edges@.len() == 1
        && after.graph@[n].edges@[0].cond == conds[(n - 3) / 2] && after.graph@[n].edges@[0].target
        as int == n + 1 && after.graph@[n].epsilons@.len() == 0 && cond_of_class(
        elems[(n - 3) / 2],
        after.graph@[n].edges@[0].cond,
    )) by {
        let j = (n - 3) / 2;
        assert(n == 3 + 2 * j && 0 <= j < k);
        assert(n != 0 && n != last);
        assert(after.graph@[2 + 1 + 2 * j] == mid2.graph@[2 + 1 + 2 * j]);
        assert(mid2.graph@[2 + 1 + 2 * j] == blockfsm.graph@[2 + 1 + 2 * j]);
        assert(blockfsm.graph@[2 + 1 + 2 * j].edges@.len() == 1);
        assert(cond_of_class(elems[j], blockfsm.graph@[2 + 1 + 2 * j].edges@[0].cond));
        assert(blockfsm.graph@[2 + 1 + 2 * j].edges@[0].target as int == 2 + 2 + 2 * j);
        assert(blockfsm.graph@[2 + 1 + 2 * j].epsilons@.len() == 0);
        assert(conds[j] == after.graph@[3 + 2 * j].edges@[0].cond);
    }
    assert forall|n: int|
        #![trigger after.graph@[n]]
        4 <= n < 3 + 2 * k && (n - 4) % 2 == 0 implies (after.graph@[n].edges@.len() == 0
        && after.graph@[n].epsilons@.len() == 1 && after.graph@[n].epsilons@[0].cond
        == EpsCond::Always && after.graph@[n].epsilons@[0].target as int == (if n == 3 + 2 * k
        - 1 {
        1int
    } else {
        n + 1
    })) by {
        let j = (n - 4) / 2;
        assert(n == 4 + 2 * j && 0 <= j < k);
        if n != last {
            assert(j < k - 1);
            assert(after.graph@[2 + 2 + 2 * j] == mid2.graph@[2 + 2 + 2 * j]);
            assert(mid2.graph@[2 + 2 + 2 * j] == blockfsm.graph@[2 + 2 + 2 * j]);
            assert(blockfsm.graph@[2 + 2 + 2 * j].epsilons@[0].target as int == 2 + 3 + 2 * j);
        } else {
            assert(mid2.graph@[last] == blockfsm.graph@[last]);
            assert(blockfsm.graph@[2 + 2 * k].edges@.len() == 0 && blockfsm.graph@[2 + 2
                * k].epsilons@.len() == 0);
            assert(after.graph@[last].epsilons@[0] == (Eps {
                cond: EpsCond::Always,
                target: exit,
            }));
        }
    }
    assert forall|q: int| 0 <= q < k implies cond_of_class(elems[q], #[trigger] conds[q]) by {
        assert(after.graph@[3 + 2 * q].edges@.len() == 1);
    }
}

} // verus!
