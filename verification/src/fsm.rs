//! The automaton model: a graph of states whose edges either consume one
//! character (guarded by a character condition) or are epsilon transitions
//! (guarded by a position predicate, for anchors and word boundaries).
//! Matching runs the whole active-state set forward over the text, closing
//! under epsilon transitions before the first symbol and after every step.

use vstd::prelude::*;

use crate::ast::{Sign, Token};

verus! {

/// The outcome of a single-state step: no transition applies, an ordinary
/// node by index, or the accepting node.
#[derive(Debug, PartialEq, Eq, Clone, Copy)]
pub enum State {
    Failed,
    Intermediate(usize),
    Success,
}

/// What a consuming edge demands of the character it consumes.
#[derive(Debug, PartialEq, Eq)]
pub enum CharCond {
    /// Membership in a character class; an `Exclusive` sign negates
    /// membership over the whole alphabet.
    Member(Sign, Vec<Token>),
    Any,
    Digit,
    NotDigit,
    Space,
    NotSpace,
    Word,
    NotWord,
}

/// What an epsilon edge demands of the current position in the text.
#[derive(Debug, PartialEq, Eq, Clone, Copy)]
pub enum EpsCond {
    Always,
    AtStart,
    AtEnd,
    AtWordBoundary,
    NotAtWordBoundary,
}

/// A consuming edge.
#[derive(Debug)]
pub struct Edge {
    pub cond: CharCond,
    pub target: usize,
}

/// An epsilon edge.
#[derive(Debug, Clone, Copy)]
pub struct Eps {
    pub cond: EpsCond,
    pub target: usize,
}

/// The outgoing transitions of one node.
#[derive(Debug)]
pub struct Transitions {
    pub edges: Vec<Edge>,
    pub epsilons: Vec<Eps>,
}

impl Default for Transitions {
    /// A node with no outgoing transitions.
    fn default() -> (r: Transitions)
        ensures
            r.edges@ == Seq::<Edge>::empty(),
            r.epsilons@ == Seq::<Eps>::empty(),
    {
        Transitions { edges: Vec::new(), epsilons: Vec::new() }
    }
}

/// The automaton: nodes indexed `0 .. graph.len()`, one start node and one
/// accepting node.
#[derive(Debug)]
pub struct FSM {
    pub graph: Vec<Transitions>,
    pub start: usize,
    pub accept: usize,
}

/// Decimal digit.
pub open spec fn is_digit_char(c: char) -> bool {
    '0' as u32 <= c as u32 && c as u32 <= '9' as u32
}

/// ASCII whitespace: space, tab, line feed, vertical tab, form feed,
/// carriage return. Character semantics are deliberately ASCII-only
/// throughout: full Unicode categories for digit, space and word classes
/// are out of this library's scope, and the same set governs the
/// whitespace tolerated around separators in pattern text.
pub open spec fn is_space_char(c: char) -> bool {
    c == ' ' || c == '\t' || c == '\n' || c == '\u{b}' || c == '\u{c}' || c == '\r'
}

/// Word character: ASCII letter, digit, or underscore.
pub open spec fn is_word_char(c: char) -> bool {
    ('a' as u32 <= c as u32 && c as u32 <= 'z' as u32) || ('A' as u32 <= c as u32 && c as u32
        <= 'Z' as u32) || is_digit_char(c) || c == '_'
}

/// Whether one class item accepts a character.
pub open spec fn token_matches(t: Token, c: char) -> bool {
    match t {
        Token::Literal(l) => l == c,
        Token::Range(a, b) => a as u32 <= c as u32 && c as u32 <= b as u32,
    }
}

/// Whether some item of a class accepts the character.
pub open spec fn class_has(items: Seq<Token>, c: char) -> bool {
    exists|k: int| 0 <= k < items.len() && token_matches(items[k], c)
}

/// Whether a consuming edge's condition accepts a character.
pub open spec fn spec_cond_matches(cond: CharCond, c: char) -> bool {
    match cond {
        CharCond::Member(Sign::Inclusive, items) => class_has(items@, c),
        CharCond::Member(Sign::Exclusive, items) => !class_has(items@, c),
        CharCond::Any => true,
        CharCond::Digit => is_digit_char(c),
        CharCond::NotDigit => !is_digit_char(c),
        CharCond::Space => is_space_char(c),
        CharCond::NotSpace => !is_space_char(c),
        CharCond::Word => is_word_char(c),
        CharCond::NotWord => !is_word_char(c),
    }
}

/// Whether a word character stands immediately before the position.
pub open spec fn word_before(text: Seq<char>, pos: int) -> bool {
    0 < pos <= text.len() && is_word_char(text[pos - 1])
}

/// Whether a word character stands immediately after the position.
pub open spec fn word_after(text: Seq<char>, pos: int) -> bool {
    0 <= pos < text.len() && is_word_char(text[pos])
}

/// Whether an epsilon edge's position predicate holds at a position.
pub open spec fn eps_ok(cond: EpsCond, text: Seq<char>, pos: int) -> bool {
    match cond {
        EpsCond::Always => true,
        EpsCond::AtStart => pos == 0,
        EpsCond::AtEnd => pos == text.len(),
        EpsCond::AtWordBoundary => word_before(text, pos) != word_after(text, pos),
        EpsCond::NotAtWordBoundary => word_before(text, pos) == word_after(text, pos),
    }
}

/// The set of node indices a boolean membership vector holds.
pub open spec fn bits(v: Seq<bool>) -> Set<int> {
    Set::new(|j: int| 0 <= j < v.len() && v[j])
}

impl FSM {
    /// Every edge of every node leads to a node of the graph.
    pub open spec fn targets_ok(self) -> bool {
        (forall|i: int, k: int|
            0 <= i < self.graph@.len() && 0 <= k < self.graph@[i].edges@.len() ==> (
            #[trigger] self.graph@[i].edges@[k].target as int) < self.graph@.len()) && (forall|
            i: int,
            k: int,
        |
            0 <= i < self.graph@.len() && 0 <= k < self.graph@[i].epsilons@.len() ==> (
            #[trigger] self.graph@[i].epsilons@[k].target as int) < self.graph@.len())
    }

    /// A runnable automaton: closed edges, and start and accepting nodes
    /// that exist.
    pub open spec fn wf(self) -> bool {
        self.targets_ok() && (self.start as int) < self.graph@.len() && (self.accept as int)
            < self.graph@.len()
    }

    /// An automaton with no nodes.
    pub fn new() -> (r: FSM)
        ensures
            r.graph@ == Seq::<Transitions>::empty(),
            r.start == 0usize,
            r.accept == 0usize,
    {
        FSM { graph: Vec::new(), start: 0, accept: 0 }
    }

    /// The index of the accepting node.
    pub fn final_state(&self) -> (r: usize)
        ensures
            r == self.accept,
    {
        self.accept
    }

    /// Appends one node and its outgoing transitions to the graph.
    pub fn push(&mut self, ts: Transitions)
        ensures
            final(self).graph@ == old(self).graph@.push(ts),
            final(self).start == old(self).start,
            final(self).accept == old(self).accept,
    {
        self.graph.push(ts);
    }

    /// The first consuming edge of node `i`, in edge order, whose condition
    /// accepts `c`; scanning from edge `k` on.
    pub open spec fn first_edge_from(self, i: int, c: char, k: int) -> Option<usize>
        decreases self.graph@[i].edges@.len() - k,
    {
        if !(0 <= i < self.graph@.len()) || !(0 <= k) || k >= self.graph@[i].edges@.len() {
            None
        } else if spec_cond_matches(self.graph@[i].edges@[k].cond, c) {
            Some(self.graph@[i].edges@[k].target)
        } else {
            self.first_edge_from(i, c, k + 1)
        }
    }

    /// What `next` returns: a deterministic single-state step along the
    /// first matching consuming edge, ignoring epsilon transitions.
    pub open spec fn spec_next(self, state: State, c: char) -> State {
        match state {
            State::Failed => State::Failed,
            State::Success => State::Success,
            State::Intermediate(i) => if i == self.accept {
                State::Success
            } else if i as int >= self.graph@.len() {
                State::Failed
            } else {
                match self.first_edge_from(i as int, c, 0) {
                    None => State::Failed,
                    Some(t) => if t == self.accept {
                        State::Success
                    } else {
                        State::Intermediate(t)
                    },
                }
            },
        }
    }

    /// Steps a single state along the first consuming edge that accepts
    /// `c`. This deterministic restriction ignores epsilon transitions; the
    /// matcher proper advances whole active-state sets instead.
    #[verifier::loop_isolation(false)]
    pub fn next(&self, state: State, c: char) -> (r: State)
        ensures
            r == self.spec_next(state, c),
    {
        match state {
            State::Failed => State::Failed,
            State::Success => State::Success,
            State::Intermediate(i) => {
                if i == self.accept {
                    return State::Success;
                }
                if i >= self.graph.len() {
                    return State::Failed;
                }
                let edges = &self.graph[i].edges;
                let mut k: usize = 0;
                while k < edges.len()
                    invariant
                        0 <= k <= edges@.len(),
                        edges@ == self.graph@[i as int].edges@,
                        i != self.accept,
                        (i as int) < self.graph@.len(),
                        self.first_edge_from(i as int, c, 0) == self.first_edge_from(
                            i as int,
                            c,
                            k as int,
                        ),
                    decreases edges@.len() - k,
                {
                    if cond_matches(&edges[k].cond, c) {
                        let t = edges[k].target;
                        assert(self.first_edge_from(i as int, c, 0) == Some(t));
                        if t == self.accept {
                            return State::Success;
                        }
                        return State::Intermediate(t);
                    }
                    assert(self.first_edge_from(i as int, c, k as int) == self.first_edge_from(
                        i as int,
                        c,
                        k as int + 1,
                    ));
                    k += 1;
                }
                State::Failed
            },
        }
    }
}

impl FSM {
    /// The nodes reachable from `s` by one epsilon edge whose position
    /// predicate holds at `pos`.
    pub open spec fn eps_targets(self, text: Seq<char>, pos: int, s: Set<int>) -> Set<int> {
        Set::new(
            |j: int|
                exists|i: int, k: int|
                    #![trigger self.graph@[i].epsilons@[k]]
                    s.contains(i) && 0 <= i < self.graph@.len() && 0 <= k
                        < self.graph@[i].epsilons@.len() && self.graph@[i].epsilons@[k].target
                        as int == j && eps_ok(self.graph@[i].epsilons@[k].cond, text, pos),
        )
    }

    /// One round of epsilon closure: add every node one epsilon edge away.
    pub open spec fn eps_step(self, text: Seq<char>, pos: int, s: Set<int>) -> Set<int> {
        s.union(self.eps_targets(text, pos, s))
    }

    /// `n` rounds of `eps_step`.
    pub open spec fn closure_iter(self, text: Seq<char>, pos: int, s: Set<int>, n: nat) -> Set<
        int,
    >
        decreases n,
    {
        if n == 0 {
            s
        } else {
            self.eps_step(text, pos, self.closure_iter(text, pos, s, (n - 1) as nat))
        }
    }

    /// The epsilon closure of `s` at position `pos`: epsilon-reachable nodes
    /// are added until no change, which as many rounds as there are nodes
    /// always reach, since a round that is not yet at the fixed point adds a
    /// node.
    pub open spec fn closure(self, text: Seq<char>, pos: int, s: Set<int>) -> Set<int> {
        self.closure_iter(text, pos, s, self.graph@.len() as nat)
    }

    /// The nodes reachable from `s` by one consuming edge that accepts the
    /// character at `pos`.
    pub open spec fn char_targets(self, text: Seq<char>, pos: int, s: Set<int>) -> Set<int> {
        Set::new(
            |j: int|
                exists|i: int, k: int|
                    #![trigger self.graph@[i].edges@[k]]
                    s.contains(i) && 0 <= i < self.graph@.len() && 0 <= k
                        < self.graph@[i].edges@.len() && self.graph@[i].edges@[k].target as int
                        == j && 0 <= pos < text.len() && spec_cond_matches(
                        self.graph@[i].edges@[k].cond,
                        text[pos],
                    ),
        )
    }

    /// Advancing the active set over the symbol at `pos`: follow consuming
    /// edges, then close under epsilon at the next position.
    pub open spec fn spec_advance(self, text: Seq<char>, pos: int, s: Set<int>) -> Set<int> {
        self.closure(text, pos + 1, self.char_targets(text, pos, s))
    }

    /// The start node alone.
    pub open spec fn start_set(self) -> Set<int> {
        Set::new(|j: int| j == self.start as int)
    }

    /// The active set after the first `n` symbols of the text: the closure
    /// of the start node, advanced once per symbol.
    pub open spec fn active_after(self, text: Seq<char>, n: int) -> Set<int>
        decreases n,
    {
        if n <= 0 {
            self.closure(text, 0, self.start_set())
        } else {
            self.spec_advance(text, n - 1, self.active_after(text, n - 1))
        }
    }

    /// Whether the automaton accepts the whole text: the accepting node is
    /// active after every symbol has been consumed.
    pub open spec fn spec_matches(self, text: Seq<char>) -> bool {
        self.active_after(text, text.len() as int).contains(self.accept as int)
    }
}

/// Whether a consuming edge's condition accepts a character.
pub fn cond_matches(cond: &CharCond, c: char) -> (b: bool)
    ensures
        b == spec_cond_matches(*cond, c),
{
    match cond {
        CharCond::Member(sign, items) => {
            let mut k: usize = 0;
            let mut found = false;
            while k < items.len()
                invariant
                    0 <= k <= items@.len(),
                    found == exists|j: int| 0 <= j < k && token_matches(items@[j], c),
                decreases items@.len() - k,
            {
                let hit = match items[k] {
                    Token::Literal(l) => l == c,
                    Token::Range(a, b) => a as u32 <= c as u32 && c as u32 <= b as u32,
                };
                if hit {
                    assert(token_matches(items@[k as int], c));
                    found = true;
                }
                k += 1;
            }
            assert(found == class_has(items@, c));
            match sign {
                Sign::Inclusive => found,
                Sign::Exclusive => !found,
            }
        },
        CharCond::Any => true,
        CharCond::Digit => is_digit(c),
        CharCond::NotDigit => !is_digit(c),
        CharCond::Space => is_space(c),
        CharCond::NotSpace => !is_space(c),
        CharCond::Word => is_word(c),
        CharCond::NotWord => !is_word(c),
    }
}

impl FSM {
    /// The epsilon contributions found by the pass so far: edges of nodes
    /// before `i_lim`, and of node `i_lim` before edge `k_lim`.
    pub open spec fn eps_found_upto(
        self,
        text: Seq<char>,
        pos: int,
        s: Set<int>,
        j: int,
        i_lim: int,
        k_lim: int,
    ) -> bool {
        exists|i: int, k: int|
            #![trigger self.graph@[i].epsilons@[k]]
            s.contains(i) && 0 <= i < self.graph@.len() && 0 <= k
                < self.graph@[i].epsilons@.len() && (i < i_lim || (i == i_lim && k < k_lim))
                && self.graph@[i].epsilons@[k].target as int == j && eps_ok(
                self.graph@[i].epsilons@[k].cond,
                text,
                pos,
            )
    }

    /// One executable round of epsilon closure.
    #[verifier::loop_isolation(false)]
    fn eps_pass(&self, text: &Vec<char>, pos: usize, cur: &Vec<bool>) -> (out: Vec<bool>)
        requires
            self.targets_ok(),
            pos <= text@.len(),
            cur@.len() == self.graph@.len(),
        ensures
            out@.len() == cur@.len(),
            bits(out@) == self.eps_step(text@, pos as int, bits(cur@)),
    {
        let n = self.graph.len();
        let mut out: Vec<bool> = Vec::new();
        let mut idx: usize = 0;
        while idx < n
            invariant
                out@.len() == idx,
                idx <= n,
                forall|j: int| 0 <= j < idx ==> out@[j] == cur@[j],
            decreases n - idx,
        {
            out.push(cur[idx]);
            idx += 1;
        }
        let mut i: usize = 0;
        while i < n
            invariant
                out@.len() == n,
                i <= n,
                forall|j: int|
                    0 <= j < n ==> (out@[j] <==> cur@[j] || self.eps_found_upto(
                        text@,
                        pos as int,
                        bits(cur@),
                        j,
                        i as int,
                        0,
                    )),
            decreases n - i,
        {
            if cur[i] {
                let eps = &self.graph[i].epsilons;
                let mut k: usize = 0;
                while k < eps.len()
                    invariant
                        out@.len() == n,
                        k <= eps@.len(),
                        eps@ == self.graph@[i as int].epsilons@,
                        forall|j: int|
                            0 <= j < n ==> (out@[j] <==> cur@[j] || self.eps_found_upto(
                                text@,
                                pos as int,
                                bits(cur@),
                                j,
                                i as int,
                                k as int,
                            )),
                    decreases eps@.len() - k,
                {
                    let ep = eps[k];
                    if eps_cond_holds(ep.cond, text, pos) {
                        assert(ep.target < n);
                        out.set(ep.target, true);
                        assert(self.eps_found_upto(
                            text@,
                            pos as int,
                            bits(cur@),
                            ep.target as int,
                            i as int,
                            k as int + 1,
                        )) by {
                            assert(bits(cur@).contains(i as int));
                            assert(self.graph@[i as int].epsilons@[k as int] == ep);
                        }
                    }
                    assert(forall|j: int|
                        self.eps_found_upto(
                            text@,
                            pos as int,
                            bits(cur@),
                            j,
                            i as int,
                            k as int + 1,
                        ) && j != ep.target as int ==> self.eps_found_upto(
                            text@,
                            pos as int,
                            bits(cur@),
                            j,
                            i as int,
                            k as int,
                        ));
                    k += 1;
                }
                assert(forall|j: int|
                    self.eps_found_upto(
                        text@,
                        pos as int,
                        bits(cur@),
                        j,
                        i as int + 1,
                        0,
                    ) ==> self.eps_found_upto(
                        text@,
                        pos as int,
                        bits(cur@),
                        j,
                        i as int,
                        eps@.len() as int,
                    ));
            } else {
                assert(!bits(cur@).contains(i as int));
                assert(forall|j: int|
                    self.eps_found_upto(
                        text@,
                        pos as int,
                        bits(cur@),
                        j,
                        i as int + 1,
                        0,
                    ) ==> self.eps_found_upto(text@, pos as int, bits(cur@), j, i as int, 0));
            }
            i += 1;
        }
        proof {
            assert forall|j: int|
                bits(out@).contains(j) <==> self.eps_step(
                    text@,
                    pos as int,
                    bits(cur@),
                ).contains(j) by {
                if self.eps_found_upto(text@, pos as int, bits(cur@), j, n as int, 0) {
                    assert(self.eps_targets(text@, pos as int, bits(cur@)).contains(j));
                }
                if self.eps_targets(text@, pos as int, bits(cur@)).contains(j) {
                    let (i2, k2) = choose|i2: int, k2: int|
                        #![trigger self.graph@[i2].epsilons@[k2]]
                        bits(cur@).contains(i2) && 0 <= i2 < self.graph@.len() && 0 <= k2
                            < self.graph@[i2].epsilons@.len()
                            && self.graph@[i2].epsilons@[k2].target as int == j && eps_ok(
                            self.graph@[i2].epsilons@[k2].cond,
                            text@,
                            pos as int,
                        );
                    assert(self.eps_found_upto(text@, pos as int, bits(cur@), j, n as int, 0));
                    assert(0 <= j < n);
                }
            }
            assert(bits(out@) =~= self.eps_step(text@, pos as int, bits(cur@)));
        }
        out
    }

    /// The epsilon closure of the active set, executably: as many rounds as
    /// there are nodes.
    #[verifier::loop_isolation(false)]
    pub fn epsilon_closure(&self, text: &Vec<char>, pos: usize, active: Vec<bool>) -> (out: Vec<
        bool,
    >)
        requires
            self.targets_ok(),
            pos <= text@.len(),
            active@.len() == self.graph@.len(),
        ensures
            out@.len() == active@.len(),
            bits(out@) == self.closure(text@, pos as int, bits(active@)),
    {
        let n = self.graph.len();
        let mut cur = active;
        let mut t: usize = 0;
        while t < n
            invariant
                cur@.len() == n,
                t <= n,
                bits(cur@) == self.closure_iter(text@, pos as int, bits(active@), t as nat),
            decreases n - t,
        {
            cur = self.eps_pass(text, pos, &cur);
            t += 1;
        }
        cur
    }
}

impl FSM {
    /// The consuming contributions found by the pass so far.
    pub open spec fn char_found_upto(
        self,
        text: Seq<char>,
        pos: int,
        s: Set<int>,
        j: int,
        i_lim: int,
        k_lim: int,
    ) -> bool {
        exists|i: int, k: int|
            #![trigger self.graph@[i].edges@[k]]
            s.contains(i) && 0 <= i < self.graph@.len() && 0 <= k < self.graph@[i].edges@.len()
                && (i < i_lim || (i == i_lim && k < k_lim)) && self.graph@[i].edges@[k].target
                as int == j && 0 <= pos < text.len() && spec_cond_matches(
                self.graph@[i].edges@[k].cond,
                text[pos],
            )
    }

    /// Advances the active set over the symbol at `pos`: union the targets
    /// of accepting consuming edges, then close under epsilon at `pos + 1`.
    #[verifier::loop_isolation(false)]
    pub fn advance(&self, text: &Vec<char>, pos: usize, active: &Vec<bool>) -> (out: Vec<bool>)
        requires
            self.targets_ok(),
            pos < text@.len(),
            active@.len() == self.graph@.len(),
        ensures
            out@.len() == active@.len(),
            bits(out@) == self.spec_advance(text@, pos as int, bits(active@)),
    {
        let n = self.graph.len();
        let text_len = text.len();
        let c = text[pos];
        let mut stepped: Vec<bool> = Vec::new();
        let mut idx: usize = 0;
        while idx < n
            invariant
                stepped@.len() == idx,
                idx <= n,
                forall|j: int| 0 <= j < idx ==> !stepped@[j],
            decreases n - idx,
        {
            stepped.push(false);
            idx += 1;
        }
        let mut i: usize = 0;
        while i < n
            invariant
                stepped@.len() == n,
                i <= n,
                forall|j: int|
                    0 <= j < n ==> (stepped@[j] <==> self.char_found_upto(
                        text@,
                        pos as int,
                        bits(active@),
                        j,
                        i as int,
                        0,
                    )),
            decreases n - i,
        {
            if active[i] {
                let edges = &self.graph[i].edges;
                let mut k: usize = 0;
                while k < edges.len()
                    invariant
                        stepped@.len() == n,
                        k <= edges@.len(),
                        edges@ == self.graph@[i as int].edges@,
                        forall|j: int|
                            0 <= j < n ==> (stepped@[j] <==> self.char_found_upto(
                                text@,
                                pos as int,
                                bits(active@),
                                j,
                                i as int,
                                k as int,
                            )),
                    decreases edges@.len() - k,
                {
                    if cond_matches(&edges[k].cond, c) {
                        let tgt = edges[k].target;
                        assert(tgt < n);
                        stepped.set(tgt, true);
                        assert(self.char_found_upto(
                            text@,
                            pos as int,
                            bits(active@),
                            tgt as int,
                            i as int,
                            k as int + 1,
                        )) by {
                            assert(bits(active@).contains(i as int));
                        }
                        assert(forall|j: int|
                            self.char_found_upto(
                                text@,
                                pos as int,
                                bits(active@),
                                j,
                                i as int,
                                k as int + 1,
                            ) && j != tgt as int ==> self.char_found_upto(
                                text@,
                                pos as int,
                                bits(active@),
                                j,
                                i as int,
                                k as int,
                            ));
                    } else {
                        assert(forall|j: int|
                            self.char_found_upto(
                                text@,
                                pos as int,
                                bits(active@),
                                j,
                                i as int,
                                k as int + 1,
                            ) ==> self.char_found_upto(
                                text@,
                                pos as int,
                                bits(active@),
                                j,
                                i as int,
                                k as int,
                            ));
                    }
                    k += 1;
                }
                assert(forall|j: int|
                    self.char_found_upto(
                        text@,
                        pos as int,
                        bits(active@),
                        j,
                        i as int + 1,
                        0,
                    ) ==> self.char_found_upto(
                        text@,
                        pos as int,
                        bits(active@),
                        j,
                        i as int,
                        edges@.len() as int,
                    ));
            } else {
                assert(!bits(active@).contains(i as int));
                assert(forall|j: int|
                    self.char_found_upto(
                        text@,
                        pos as int,
                        bits(active@),
                        j,
                        i as int + 1,
                        0,
                    ) ==> self.char_found_upto(text@, pos as int, bits(active@), j, i as int, 0));
            }
            i += 1;
        }
        proof {
            assert forall|j: int|
                bits(stepped@).contains(j) <==> self.char_targets(
                    text@,
                    pos as int,
                    bits(active@),
                ).contains(j) by {
                if self.char_found_upto(text@, pos as int, bits(active@), j, n as int, 0) {
                    assert(self.char_targets(text@, pos as int, bits(active@)).contains(j));
                }
                if self.char_targets(text@, pos as int, bits(active@)).contains(j) {
                    assert(self.char_found_upto(text@, pos as int, bits(active@), j, n as int, 0));
                    assert(0 <= j < n);
                }
            }
            assert(bits(stepped@) =~= self.char_targets(text@, pos as int, bits(active@)));
        }
        assert(pos < text_len);
        self.epsilon_closure(text, pos + 1, stepped)
    }

    /// Whether the active set holds the accepting node.
    pub fn is_accepting(&self, active: &Vec<bool>) -> (r: bool)
        requires
            (self.accept as int) < active@.len(),
        ensures
            r == bits(active@).contains(self.accept as int),
    {
        active[self.accept]
    }

    /// An empty active set stays empty under one advance.
    proof fn lemma_step_empty(self, text: Seq<char>, pos: int)
        ensures
            self.spec_advance(text, pos, Set::empty()) =~= Set::<int>::empty(),
    {
        assert(self.char_targets(text, pos, Set::empty()) =~= Set::<int>::empty());
        self.lemma_closure_iter_empty(text, pos + 1, self.graph@.len() as nat);
    }

    /// Epsilon closure of the empty set is empty.
    proof fn lemma_closure_iter_empty(self, text: Seq<char>, pos: int, n: nat)
        ensures
            self.closure_iter(text, pos, Set::empty(), n) =~= Set::<int>::empty(),
        decreases n,
    {
        if n > 0 {
            self.lemma_closure_iter_empty(text, pos, (n - 1) as nat);
            assert(self.eps_targets(text, pos, Set::empty()) =~= Set::<int>::empty());
        }
    }

    /// Once the active set is empty, it is empty after every further symbol.
    proof fn lemma_active_after_empty(self, text: Seq<char>, k: int, n: int)
        requires
            0 <= k <= n,
            self.active_after(text, k) == Set::<int>::empty(),
        ensures
            self.active_after(text, n) == Set::<int>::empty(),
        decreases n - k,
    {
        if n > k {
            self.lemma_active_after_empty(text, k, n - 1);
            self.lemma_step_empty(text, n - 1);
        }
    }

    /// Runs the whole text through the automaton: seed the closure of the
    /// start node, advance once per symbol (an empty active set can never
    /// match and returns at once), and accept iff the accepting node is
    /// active at the end.
    #[verifier::loop_isolation(false)]
    pub fn accepts(&self, text: &Vec<char>) -> (r: bool)
        requires
            self.wf(),
        ensures
            r == self.spec_matches(text@),
    {
        let n = self.graph.len();
        let mut seed: Vec<bool> = Vec::new();
        let mut idx: usize = 0;
        while idx < n
            invariant
                seed@.len() == idx,
                idx <= n,
                forall|j: int| 0 <= j < idx ==> (seed@[j] <==> j == self.start as int),
            decreases n - idx,
        {
            seed.push(idx == self.start);
            idx += 1;
        }
        assert(bits(seed@) =~= self.start_set());
        let mut active = self.epsilon_closure(text, 0, seed);
        let mut pos: usize = 0;
        while pos < text.len()
            invariant
                pos <= text@.len(),
                active@.len() == n,
                bits(active@) == self.active_after(text@, pos as int),
            decreases text@.len() - pos,
        {
            let mut any: bool = false;
            let mut j: usize = 0;
            while j < n
                invariant
                    j <= n,
                    any == exists|j2: int| 0 <= j2 < j && active@[j2],
                decreases n - j,
            {
                if active[j] {
                    any = true;
                }
                j += 1;
            }
            if !any {
                proof {
                    assert(bits(active@) =~= Set::<int>::empty());
                    self.lemma_active_after_empty(text@, pos as int, text@.len() as int);
                }
                return false;
            }
            active = self.advance(text, pos, &active);
            pos += 1;
        }
        self.is_accepting(&active)
    }
}

impl FSM {
    /// Iterating from a round that has reached a fixed point changes
    /// nothing further.
    proof fn lemma_closure_iter_from(
        self,
        text: Seq<char>,
        pos: int,
        s: Set<int>,
        t: Set<int>,
        j: nat,
        k: nat,
    )
        requires
            j <= k,
            self.closure_iter(text, pos, s, j) == t,
            self.eps_step(text, pos, t) == t,
        ensures
            self.closure_iter(text, pos, s, k) == t,
        decreases k,
    {
        if k > j {
            self.lemma_closure_iter_from(text, pos, s, t, j, (k - 1) as nat);
        }
    }
}

/// The node layout of a chain of consuming conditions, as the compiler
/// lays out a pattern of plain classes and ordinary characters once each:
/// node 0 the start, node 1 the accepting node, an epsilon lead-in 0 to 2
/// to 3, and for each condition `i` a consuming edge from node `3 + 2i` to
/// node `4 + 2i` followed by an epsilon edge to the next condition's entry,
/// the last one into the accepting node.
pub open spec fn chain_layout(fsm: FSM, conds: Seq<CharCond>) -> bool {
    chain_graph(fsm, conds) && fsm.start == 0usize && fsm.accept == 1usize
}

/// The graph half of `chain_layout`: everything but the choice of start
/// and accepting node.
pub open spec fn chain_graph(fsm: FSM, conds: Seq<CharCond>) -> bool {
    let k = conds.len() as int;
    let n_nodes = 3 + 2 * k;
    &&& k >= 1
    &&& fsm.graph@.len() == n_nodes
    &&& fsm.graph@[0].edges@.len() == 0
    &&& fsm.graph@[0].epsilons@.len() == 1
    &&& fsm.graph@[0].epsilons@[0].cond == EpsCond::Always
    &&& fsm.graph@[0].epsilons@[0].target as int == 2
    &&& fsm.graph@[1].edges@.len() == 0
    &&& fsm.graph@[1].epsilons@.len() == 0
    &&& fsm.graph@[2].edges@.len() == 0
    &&& fsm.graph@[2].epsilons@.len() == 1
    &&& fsm.graph@[2].epsilons@[0].cond == EpsCond::Always
    &&& fsm.graph@[2].epsilons@[0].target as int == 3
    &&& forall|n: int|
        #![trigger fsm.graph@[n]]
        3 <= n < n_nodes && (n - 3) % 2 == 0 ==> fsm.graph@[n].edges@.len() == 1
            && fsm.graph@[n].edges@[0].cond == conds[(n - 3) / 2] && fsm.graph@[n].edges@[0].target
            as int == n + 1 && fsm.graph@[n].epsilons@.len() == 0
    &&& forall|n: int|
        #![trigger fsm.graph@[n]]
        4 <= n < n_nodes && (n - 4) % 2 == 0 ==> fsm.graph@[n].edges@.len() == 0
            && fsm.graph@[n].epsilons@.len() == 1 && fsm.graph@[n].epsilons@[0].cond
            == EpsCond::Always && fsm.graph@[n].epsilons@[0].target as int == (if n == n_nodes
            - 1 {
            1int
        } else {
            n + 1
        })
}

/// The conditions a chain automaton carries, read off its entry nodes.
pub open spec fn chain_conds(fsm: FSM, k: int) -> Seq<CharCond> {
    Seq::new(k as nat, |i: int| fsm.graph@[3 + 2 * i].edges@[0].cond)
}

/// The active set the chain reaches after `i` matched symbols.
pub open spec fn chain_expected(k: int, i: int) -> Set<int> {
    if i == 0 {
        set![0int, 2int, 3int]
    } else if i < k {
        set![2 + 2 * i, 3 + 2 * i]
    } else {
        set![2 + 2 * k, 1int]
    }
}

/// The first `i` symbols each meet their condition.
pub open spec fn conds_match_prefix(conds: Seq<CharCond>, text: Seq<char>, i: int) -> bool {
    forall|j: int| 0 <= j < i ==> #[trigger] spec_cond_matches(conds[j], text[j])
}

/// In the chain layout, every epsilon target is the lead-in successor or
/// the successor of a condition's exit node.
proof fn lemma_chain_eps_only(fsm: FSM, conds: Seq<CharCond>, text: Seq<char>, pos: int, s: Set<
    int,
>)
    requires
        chain_layout(fsm, conds),
    ensures
        forall|j: int|
            fsm.eps_targets(text, pos, s).contains(j) ==> ((j == 2 && s.contains(0)) || (j == 3
                && s.contains(2)) || (exists|n: int|
                4 <= n < 3 + 2 * conds.len() && (n - 4) % 2 == 0 && s.contains(n) && j == (
                if n == 2 + 2 * conds.len() {
                    1int
                } else {
                    n + 1
                }))),
{
    let k = conds.len() as int;
    assert forall|j: int| fsm.eps_targets(text, pos, s).contains(j) implies ((j == 2
        && s.contains(0)) || (j == 3 && s.contains(2)) || (exists|n: int|
        4 <= n < 3 + 2 * k && (n - 4) % 2 == 0 && s.contains(n) && j == (if n == 2 + 2 * k {
            1int
        } else {
            n + 1
        }))) by {
        let (i0, k0) = choose|i0: int, k0: int|
            #![trigger fsm.graph@[i0].epsilons@[k0]]
            s.contains(i0) && 0 <= i0 < fsm.graph@.len() && 0 <= k0
                < fsm.graph@[i0].epsilons@.len() && fsm.graph@[i0].epsilons@[k0].target as int
                == j && eps_ok(fsm.graph@[i0].epsilons@[k0].cond, text, pos);
        if i0 >= 3 {
            assert((i0 - 3) % 2 == 0 || (i0 - 4) % 2 == 0);
            assert((i0 - 4) % 2 == 0);
            assert(4 <= i0 < 3 + 2 * k && (i0 - 4) % 2 == 0 && s.contains(i0) && j == (if i0 == 2
                + 2 * k {
                1int
            } else {
                i0 + 1
            }));
        }
    }
}

/// In the chain layout, every consuming step leaves some condition's entry
/// node in the set, lands on its exit node, and demands that the condition
/// accept the symbol.
proof fn lemma_chain_char_only(fsm: FSM, conds: Seq<CharCond>, text: Seq<char>, pos: int, s: Set<
    int,
>)
    requires
        chain_layout(fsm, conds),
    ensures
        forall|j: int|
            fsm.char_targets(text, pos, s).contains(j) ==> (exists|n: int|
                3 <= n < 3 + 2 * conds.len() && (n - 3) % 2 == 0 && s.contains(n) && j == n + 1
                    && 0 <= pos < text.len() && spec_cond_matches(conds[(n - 3) / 2], text[pos])),
{
    let k = conds.len() as int;
    assert forall|j: int| fsm.char_targets(text, pos, s).contains(j) implies (exists|n: int|
        3 <= n < 3 + 2 * k && (n - 3) % 2 == 0 && s.contains(n) && j == n + 1 && 0 <= pos
            < text.len() && spec_cond_matches(conds[(n - 3) / 2], text[pos])) by {
        let (i0, k0) = choose|i0: int, k0: int|
            #![trigger fsm.graph@[i0].edges@[k0]]
            s.contains(i0) && 0 <= i0 < fsm.graph@.len() && 0 <= k0
                < fsm.graph@[i0].edges@.len() && fsm.graph@[i0].edges@[k0].target as int == j
                && 0 <= pos < text.len() && spec_cond_matches(
                fsm.graph@[i0].edges@[k0].cond,
                text[pos],
            );
        assert(i0 >= 3);
        assert((i0 - 3) % 2 == 0 || (i0 - 4) % 2 == 0);
        assert((i0 - 3) % 2 == 0);
        assert(3 <= i0 < 3 + 2 * k && (i0 - 3) % 2 == 0 && s.contains(i0) && j == i0 + 1 && 0
            <= pos < text.len() && spec_cond_matches(conds[(i0 - 3) / 2], text[pos]));
    }
}

/// Each reached active set of the chain is closed under epsilon.
proof fn lemma_chain_eps_fixed(
    fsm: FSM,
    conds: Seq<CharCond>,
    text: Seq<char>,
    pos: int,
    i: int,
)
    requires
        chain_layout(fsm, conds),
        0 <= i <= conds.len(),
    ensures
        fsm.eps_step(text, pos, chain_expected(conds.len() as int, i)) == chain_expected(
            conds.len() as int,
            i,
        ),
{
    let k = conds.len() as int;
    let s = chain_expected(k, i);
    lemma_chain_eps_only(fsm, conds, text, pos, s);
    assert forall|j: int| fsm.eps_targets(text, pos, s).contains(j) implies s.contains(j) by {
        if !((j == 2 && s.contains(0)) || (j == 3 && s.contains(2))) {
            let n = choose|n: int|
                4 <= n < 3 + 2 * k && (n - 4) % 2 == 0 && s.contains(n) && j == (if n == 2 + 2
                    * k {
                    1int
                } else {
                    n + 1
                });
            if i == 0 {
                assert(n == 0 || n == 2 || n == 3);
                assert(false);
            } else if i < k {
                assert(n == 2 + 2 * i);
                assert(j == 3 + 2 * i);
            } else {
                assert(n == 2 + 2 * k);
                assert(j == 1);
            }
        }
    }
    assert(fsm.eps_step(text, pos, s) =~= s);
}

/// The chain's closure of its start node: the lead-in nodes and the first
/// condition's entry.
proof fn lemma_chain_seed(fsm: FSM, conds: Seq<CharCond>, text: Seq<char>)
    requires
        chain_layout(fsm, conds),
    ensures
        fsm.active_after(text, 0) == chain_expected(conds.len() as int, 0),
{
    let k = conds.len() as int;
    let s0: Set<int> = set![0int];
    let s1: Set<int> = set![0int, 2int];
    let s2 = chain_expected(k, 0);
    assert(fsm.start_set() =~= s0);
    assert(fsm.eps_step(text, 0, s0) =~= s1) by {
        assert(fsm.eps_targets(text, 0, s0).contains(2)) by {
            assert(s0.contains(0) && fsm.graph@[0].epsilons@[0].target as int == 2 && eps_ok(
                fsm.graph@[0].epsilons@[0].cond,
                text,
                0,
            ));
        }
        lemma_chain_eps_only(fsm, conds, text, 0, s0);
        assert forall|j: int| fsm.eps_targets(text, 0, s0).contains(j) implies j == 2 by {
            if j != 2 {
                let n = choose|n: int|
                    4 <= n < 3 + 2 * k && (n - 4) % 2 == 0 && s0.contains(n) && j == (if n == 2
                        + 2 * k {
                        1int
                    } else {
                        n + 1
                    });
                assert(false);
            }
        }
    }
    assert(fsm.eps_step(text, 0, s1) =~= s2) by {
        assert(fsm.eps_targets(text, 0, s1).contains(2)) by {
            assert(s1.contains(0) && fsm.graph@[0].epsilons@[0].target as int == 2 && eps_ok(
                fsm.graph@[0].epsilons@[0].cond,
                text,
                0,
            ));
        }
        assert(fsm.eps_targets(text, 0, s1).contains(3)) by {
            assert(s1.contains(2) && fsm.graph@[2].epsilons@[0].target as int == 3 && eps_ok(
                fsm.graph@[2].epsilons@[0].cond,
                text,
                0,
            ));
        }
        lemma_chain_eps_only(fsm, conds, text, 0, s1);
        assert forall|j: int| fsm.eps_targets(text, 0, s1).contains(j) implies (j == 2 || j
            == 3) by {
            if j != 2 && j != 3 {
                let n = choose|n: int|
                    4 <= n < 3 + 2 * k && (n - 4) % 2 == 0 && s1.contains(n) && j == (if n == 2
                        + 2 * k {
                        1int
                    } else {
                        n + 1
                    });
                assert(false);
            }
        }
    }
    lemma_chain_eps_fixed(fsm, conds, text, 0, 0);
    assert(fsm.closure_iter(text, 0, s0, 0) == s0);
    assert(fsm.closure_iter(text, 0, s0, 1) == fsm.eps_step(text, 0, s0));
    assert(fsm.closure_iter(text, 0, s0, 2) == fsm.eps_step(text, 0, s1));
    fsm.lemma_closure_iter_from(text, 0, s0, s2, 2, fsm.graph@.len() as nat);
}

/// Advancing the chain over one symbol: the set reached after `i` matched
/// symbols steps to the set after `i + 1` exactly when condition `i`
/// accepts the symbol, and dies otherwise.
proof fn lemma_chain_advance(fsm: FSM, conds: Seq<CharCond>, text: Seq<char>, i: int)
    requires
        chain_layout(fsm, conds),
        0 <= i < conds.len(),
        i < text.len(),
    ensures
        fsm.spec_advance(text, i, chain_expected(conds.len() as int, i)) == (if spec_cond_matches(
            conds[i],
            text[i],
        ) {
            chain_expected(conds.len() as int, i + 1)
        } else {
            Set::<int>::empty()
        }),
{
    let k = conds.len() as int;
    let s = chain_expected(k, i);
    let entry = 3 + 2 * i;
    let exit = 4 + 2 * i;
    lemma_chain_char_only(fsm, conds, text, i, s);
    if spec_cond_matches(conds[i], text[i]) {
        let hit: Set<int> = set![exit];
        assert(fsm.char_targets(text, i, s) =~= hit) by {
            assert(fsm.char_targets(text, i, s).contains(exit)) by {
                assert(s.contains(entry));
                assert((entry - 3) % 2 == 0 && (entry - 3) / 2 == i);
                assert(fsm.graph@[entry].edges@[0].target as int == exit && spec_cond_matches(
                    fsm.graph@[entry].edges@[0].cond,
                    text[i],
                ));
            }
            assert forall|j: int| fsm.char_targets(text, i, s).contains(j) implies j == exit by {
                let n = choose|n: int|
                    3 <= n < 3 + 2 * k && (n - 3) % 2 == 0 && s.contains(n) && j == n + 1 && 0
                        <= i < text.len() && spec_cond_matches(conds[(n - 3) / 2], text[i]);
                assert(n == entry);
            }
        }
        assert(fsm.eps_step(text, i + 1, hit) =~= chain_expected(k, i + 1)) by {
            assert((exit - 4) % 2 == 0);
            assert(fsm.eps_targets(text, i + 1, hit).contains(
                if exit == 2 + 2 * k {
                    1int
                } else {
                    exit + 1
                },
            )) by {
                assert(hit.contains(exit) && fsm.graph@[exit].epsilons@[0].target as int == (
                if exit == 2 + 2 * k {
                    1int
                } else {
                    exit + 1
                }) && eps_ok(fsm.graph@[exit].epsilons@[0].cond, text, i + 1));
            }
            lemma_chain_eps_only(fsm, conds, text, i + 1, hit);
            assert forall|j: int|
                #![trigger fsm.eps_targets(text, i + 1, hit).contains(j)]
                fsm.eps_targets(text, i + 1, hit).contains(j) implies j == (
            if exit == 2 + 2 * k {
                1int
            } else {
                exit + 1
            }) by {
                let n = choose|n: int|
                    4 <= n < 3 + 2 * k && (n - 4) % 2 == 0 && hit.contains(n) && j == (if n == 2
                        + 2 * k {
                        1int
                    } else {
                        n + 1
                    });
                assert(n == exit);
            }
        }
        lemma_chain_eps_fixed(fsm, conds, text, i + 1, i + 1);
        assert(fsm.closure_iter(text, i + 1, hit, 0) == hit);
        assert(fsm.closure_iter(text, i + 1, hit, 1) == fsm.eps_step(text, i + 1, hit));
        fsm.lemma_closure_iter_from(
            text,
            i + 1,
            hit,
            chain_expected(k, i + 1),
            1,
            fsm.graph@.len() as nat,
        );
    } else {
        assert(fsm.char_targets(text, i, s) =~= Set::<int>::empty()) by {
            assert forall|j: int| !fsm.char_targets(text, i, s).contains(j) by {
                if fsm.char_targets(text, i, s).contains(j) {
                    let n = choose|n: int|
                        3 <= n < 3 + 2 * k && (n - 3) % 2 == 0 && s.contains(n) && j == n + 1
                            && 0 <= i < text.len() && spec_cond_matches(
                            conds[(n - 3) / 2],
                            text[i],
                        );
                    assert(n == entry);
                    assert(false);
                }
            }
        }
        fsm.lemma_closure_iter_empty(text, i + 1, fsm.graph@.len() as nat);
    }
}

/// After all conditions are spent, the chain has no consuming step left.
proof fn lemma_chain_advance_end(fsm: FSM, conds: Seq<CharCond>, text: Seq<char>, pos: int)
    requires
        chain_layout(fsm, conds),
    ensures
        fsm.spec_advance(text, pos, chain_expected(conds.len() as int, conds.len() as int))
            == Set::<int>::empty(),
{
    let k = conds.len() as int;
    let s = chain_expected(k, k);
    lemma_chain_char_only(fsm, conds, text, pos, s);
    assert(fsm.char_targets(text, pos, s) =~= Set::<int>::empty()) by {
        assert forall|j: int| !fsm.char_targets(text, pos, s).contains(j) by {
            if fsm.char_targets(text, pos, s).contains(j) {
                let n = choose|n: int|
                    3 <= n < 3 + 2 * k && (n - 3) % 2 == 0 && s.contains(n) && j == n + 1 && 0
                        <= pos < text.len() && spec_cond_matches(conds[(n - 3) / 2], text[pos]);
                assert(false);
            }
        }
    }
    fsm.lemma_closure_iter_empty(text, pos + 1, fsm.graph@.len() as nat);
}

/// The chain's active set after `i` symbols: the expected pair of nodes
/// while every symbol so far met its condition and the conditions are not
/// spent, and the empty set otherwise.
proof fn lemma_chain_active(fsm: FSM, conds: Seq<CharCond>, text: Seq<char>, i: int)
    requires
        chain_layout(fsm, conds),
        0 <= i <= text.len(),
    ensures
        fsm.active_after(text, i) == (if i <= conds.len() && conds_match_prefix(conds, text, i) {
            chain_expected(conds.len() as int, i)
        } else {
            Set::<int>::empty()
        }),
    decreases i,
{
    let k = conds.len() as int;
    if i == 0 {
        lemma_chain_seed(fsm, conds, text);
    } else {
        lemma_chain_active(fsm, conds, text, i - 1);
        if i - 1 <= k && conds_match_prefix(conds, text, i - 1) {
            if i - 1 == k {
                lemma_chain_advance_end(fsm, conds, text, i - 1);
                assert(!(i <= k));
            } else {
                lemma_chain_advance(fsm, conds, text, i - 1);
                if spec_cond_matches(conds[i - 1], text[i - 1]) {
                    assert(conds_match_prefix(conds, text, i));
                } else {
                    assert(!conds_match_prefix(conds, text, i));
                }
            }
        } else {
            fsm.lemma_step_empty(text, i - 1);
            assert(!(i <= k && conds_match_prefix(conds, text, i))) by {
                if i <= k && conds_match_prefix(conds, text, i) {
                    assert(conds_match_prefix(conds, text, i - 1));
                }
            }
        }
    }
}

/// A chain of consuming conditions — the automaton of a pattern whose
/// elements are plain classes and ordinary characters, once each, with no
/// quantifiers or anchors — accepts a text exactly when the text is as long
/// as the chain and each character meets its condition, in order.
pub proof fn lemma_chain_matches(fsm: FSM, conds: Seq<CharCond>, text: Seq<char>)
    requires
        chain_layout(fsm, conds),
    ensures
        fsm.spec_matches(text) <==> (text.len() == conds.len() && conds_match_prefix(
            conds,
            text,
            conds.len() as int,
        )),
{
    let k = conds.len() as int;
    let n = text.len() as int;
    lemma_chain_active(fsm, conds, text, n);
    if n <= k && conds_match_prefix(conds, text, n) {
        assert(chain_expected(k, n).contains(1) <==> n == k);
    }
}

/// Whether an epsilon edge's position predicate holds at a position.
pub fn eps_cond_holds(cond: EpsCond, text: &Vec<char>, pos: usize) -> (b: bool)
    requires
        pos <= text@.len(),
    ensures
        b == eps_ok(cond, text@, pos as int),
{
    match cond {
        EpsCond::Always => true,
        EpsCond::AtStart => pos == 0,
        EpsCond::AtEnd => pos == text.len(),
        EpsCond::AtWordBoundary => {
            let before = pos > 0 && is_word(text[pos - 1]);
            let after = pos < text.len() && is_word(text[pos]);
            before != after
        },
        EpsCond::NotAtWordBoundary => {
            let before = pos > 0 && is_word(text[pos - 1]);
            let after = pos < text.len() && is_word(text[pos]);
            before == after
        },
    }
}

/// Decimal digit test.
pub fn is_digit(c: char) -> (b: bool)
    ensures
        b == is_digit_char(c),
{
    '0' as u32 <= c as u32 && c as u32 <= '9' as u32
}

/// ASCII whitespace test.
pub fn is_space(c: char) -> (b: bool)
    ensures
        b == is_space_char(c),
{
    c == ' ' || c == '\t' || c == '\n' || c == '\u{b}' || c == '\u{c}' || c == '\r'
}

/// Word-character test.
pub fn is_word(c: char) -> (b: bool)
    ensures
        b == is_word_char(c),
{
    ('a' as u32 <= c as u32 && c as u32 <= 'z' as u32) || ('A' as u32 <= c as u32 && c as u32
        <= 'Z' as u32) || is_digit(c) || c == '_'
}

} // verus!
