//! The graph builder: linking a node in front of a chain, and folding an
//! ordered sequence of nodes into one chain from a `Head` to an `Accept`.

use vstd::prelude::*;
use crate::node::{chains_view, Character, Choice, Dot, Group, Head, Node, Repeat, NFA};

verus! {

/// `node` with `tail` in the first unset continuation slot found by
/// following `node`'s own continuations. Alternatives and inner chains are
/// not entered, and an `Accept` takes no continuation.
pub open spec fn spec_concat(node: Node, tail: Node) -> Node
    decreases node,
{
    match node {
        Node::Head { next } => Node::Head {
            next: Some(
                Box::new(
                    match next {
                        Some(n) => spec_concat(*n, tail),
                        None => tail,
                    },
                ),
            ),
        },
        Node::Character { character, next } => Node::Character {
            character,
            next: Some(
                Box::new(
                    match next {
                        Some(n) => spec_concat(*n, tail),
                        None => tail,
                    },
                ),
            ),
        },
        Node::Dot { next } => Node::Dot {
            next: Some(
                Box::new(
                    match next {
                        Some(n) => spec_concat(*n, tail),
                        None => tail,
                    },
                ),
            ),
        },
        Node::Choice { choices, next } => Node::Choice {
            choices,
            next: Some(
                Box::new(
                    match next {
                        Some(n) => spec_concat(*n, tail),
                        None => tail,
                    },
                ),
            ),
        },
        Node::Repeat { nfa, next } => Node::Repeat {
            nfa,
            next: Some(
                Box::new(
                    match next {
                        Some(n) => spec_concat(*n, tail),
                        None => tail,
                    },
                ),
            ),
        },
        Node::Group { nfa, next } => Node::Group {
            nfa,
            next: Some(
                Box::new(
                    match next {
                        Some(n) => spec_concat(*n, tail),
                        None => tail,
                    },
                ),
            ),
        },
        Node::Accept => Node::Accept,
    }
}

/// `states[from..]` linked each to the next, with an `Accept` after the last.
pub open spec fn spec_chain(states: Seq<Node>, from: int) -> Node
    decreases states.len() - from,
{
    if from < 0 || from >= states.len() {
        Node::Accept
    } else {
        spec_concat(states[from], spec_chain(states, from + 1))
    }
}

/// The chain `Head`, `states` in order, `Accept`.
pub open spec fn spec_fold(states: Seq<Node>) -> Node {
    Node::Head { next: Some(Box::new(spec_chain(states, 0))) }
}

impl NFA {
    /// Links `nfa` behind this node's chain of continuations.
    pub fn concatnate(&mut self, nfa: Box<NFA>)
        ensures
            final(self)@ == spec_concat(old(self)@, nfa@),
        decreases *old(self),
    {
        match self {
            NFA::Head(head) => head.concatnate(nfa),
            NFA::Character(word) => word.concatnate(nfa),
            NFA::Dot(dot) => dot.concatnate(nfa),
            NFA::Choice(choice) => choice.concatnate(nfa),
            NFA::Repeat(repeat) => repeat.concatnate(nfa),
            NFA::Group(group) => group.concatnate(nfa),
            NFA::Accept => {},
        }
    }
}

impl Head {
    /// Links `nfa` behind this node's chain of continuations.
    pub fn concatnate(&mut self, nfa: Box<NFA>)
        ensures
            final(self)@ == spec_concat(old(self)@, nfa@),
        decreases *old(self),
    {
        match self.next {
            Some(ref mut next) => next.concatnate(nfa),
            None => self.next = Some(nfa),
        }
    }
}

impl Character {
    /// Links `nfa` behind this node's chain of continuations.
    pub fn concatnate(&mut self, nfa: Box<NFA>)
        ensures
            final(self)@ == spec_concat(old(self)@, nfa@),
        decreases *old(self),
    {
        match self.next {
            Some(ref mut next) => next.concatnate(nfa),
            None => self.next = Some(nfa),
        }
    }
}

impl Dot {
    /// Links `nfa` behind this node's chain of continuations.
    pub fn concatnate(&mut self, nfa: Box<NFA>)
        ensures
            final(self)@ == spec_concat(old(self)@, nfa@),
        decreases *old(self),
    {
        match self.next {
            Some(ref mut next) => next.concatnate(nfa),
            None => self.next = Some(nfa),
        }
    }
}

impl Choice {
    /// Links `nfa` behind this node's chain of continuations.
    pub fn concatnate(&mut self, nfa: Box<NFA>)
        ensures
            final(self)@ == spec_concat(old(self)@, nfa@),
        decreases *old(self),
    {
        match self.next {
            Some(ref mut next) => next.concatnate(nfa),
            None => self.next = Some(nfa),
        }
    }
}

impl Repeat {
    /// Links `nfa` behind this node's chain of continuations.
    pub fn concatnate(&mut self, nfa: Box<NFA>)
        ensures
            final(self)@ == spec_concat(old(self)@, nfa@),
        decreases *old(self),
    {
        match self.next {
            Some(ref mut next) => next.concatnate(nfa),
            None => self.next = Some(nfa),
        }
    }
}

impl Group {
    /// Links `nfa` behind this node's chain of continuations.
    pub fn concatnate(&mut self, nfa: Box<NFA>)
        ensures
            final(self)@ == spec_concat(old(self)@, nfa@),
        decreases *old(self),
    {
        match self.next {
            Some(ref mut next) => next.concatnate(nfa),
            None => self.next = Some(nfa),
        }
    }
}

/// Folds `states`, in order, into one chain: a fresh `Head`, each state
/// linked to the one after it, and an `Accept` behind the last.
pub fn fold_nfa_states(states: Vec<Box<NFA>>) -> (r: Box<NFA>)
    ensures
        r@ == spec_fold(chains_view(states)),
{
    let ghost models = chains_view(states);
    let mut states = states;
    let mut nfa = NFA::accept();
    while states.len() > 0
        invariant
            states@.len() <= models.len(),
            forall|i: int| 0 <= i < states@.len() ==> (#[trigger] states@[i])@ == models[i],
            nfa@ == spec_chain(models, states@.len() as int),
        decreases states.len(),
    {
        let mut state = states.pop().unwrap();
        state.concatnate(nfa);
        nfa = state;
    }
    let mut head = NFA::head();
    head.concatnate(nfa);
    head
}

} // verus!
