//! The node model: the closed set of node kinds, their mathematical view,
//! and the constructors of fresh, not yet linked nodes.

use vstd::prelude::*;

verus! {

/// The mathematical model of a node: the same seven kinds, with the
/// alternatives of a choice as a sequence.
pub ghost enum Node {
    Head { next: Option<Box<Node>> },
    Character { character: char, next: Option<Box<Node>> },
    Dot { next: Option<Box<Node>> },
    Choice { choices: Seq<Node>, next: Option<Box<Node>> },
    Repeat { nfa: Box<Node>, next: Option<Box<Node>> },
    Group { nfa: Box<Node>, next: Option<Box<Node>> },
    Accept,
}

/// A node of the graph. Every kind but `Accept` owns its continuation.
#[derive(Debug)]
pub enum NFA {
    Head(Head),
    Character(Character),
    Dot(Dot),
    Choice(Choice),
    Repeat(Repeat),
    Group(Group),
    Accept,
}

/// The entry point of a chain; it consumes nothing.
#[derive(Debug)]
pub struct Head {
    pub next: Option<Box<NFA>>,
}

/// Matches one character, whatever it is.
#[derive(Debug)]
pub struct Dot {
    pub next: Option<Box<NFA>>,
}

/// Matches one given character.
#[derive(Debug)]
pub struct Character {
    pub character: char,
    pub next: Option<Box<NFA>>,
}

/// Tries its alternatives in order; each is a complete chain.
#[derive(Debug)]
pub struct Choice {
    pub choices: Vec<Box<NFA>>,
    pub next: Option<Box<NFA>>,
}

/// Applies its inner chain zero or more times.
#[derive(Debug)]
pub struct Repeat {
    pub nfa: Box<NFA>,
    pub next: Option<Box<NFA>>,
}

/// Requires its inner chain to complete, then continues.
#[derive(Debug)]
pub struct Group {
    pub nfa: Box<NFA>,
    pub next: Option<Box<NFA>>,
}

/// The model of a continuation slot.
pub open spec fn next_view(next: Option<Box<NFA>>) -> Option<Box<Node>> {
    match next {
        Some(n) => Some(Box::new(n.view())),
        None => None,
    }
}

/// The models of a list of chains, in order.
pub open spec fn chains_view(chains: Vec<Box<NFA>>) -> Seq<Node>
    decreases chains,
{
    Seq::new(
        chains@.len(),
        |i: int|
            if 0 <= i < chains@.len() {
                chains[i].view()
            } else {
                Node::Accept
            },
    )
}

impl Head {
    pub open spec fn view(&self) -> Node {
        Node::Head { next: next_view(self.next) }
    }
}

impl Dot {
    pub open spec fn view(&self) -> Node {
        Node::Dot { next: next_view(self.next) }
    }
}

impl Character {
    pub open spec fn view(&self) -> Node {
        Node::Character { character: self.character, next: next_view(self.next) }
    }
}

impl Choice {
    pub open spec fn view(&self) -> Node {
        Node::Choice { choices: chains_view(self.choices), next: next_view(self.next) }
    }
}

impl Repeat {
    pub open spec fn view(&self) -> Node {
        Node::Repeat { nfa: Box::new(self.nfa.view()), next: next_view(self.next) }
    }
}

impl Group {
    pub open spec fn view(&self) -> Node {
        Node::Group { nfa: Box::new(self.nfa.view()), next: next_view(self.next) }
    }
}

impl NFA {
    pub open spec fn view(&self) -> Node
        decreases self,
    {
        match self {
            NFA::Head(head) => Node::Head { next: match head.next {
                    Some(n) => Some(Box::new(n.view())),
                    None => None,
                } },
            NFA::Character(character) => Node::Character {
                character: character.character,
                next: match character.next {
                    Some(n) => Some(Box::new(n.view())),
                    None => None,
                },
            },
            NFA::Dot(dot) => Node::Dot { next: match dot.next {
                    Some(n) => Some(Box::new(n.view())),
                    None => None,
                } },
            NFA::Choice(choice) => Node::Choice {
                choices: chains_view(choice.choices),
                next: match choice.next {
                    Some(n) => Some(Box::new(n.view())),
                    None => None,
                },
            },
            NFA::Repeat(repeat) => Node::Repeat {
                nfa: Box::new(repeat.nfa.view()),
                next: match repeat.next {
                    Some(n) => Some(Box::new(n.view())),
                    None => None,
                },
            },
            NFA::Group(group) => Node::Group {
                nfa: Box::new(group.nfa.view()),
                next: match group.next {
                    Some(n) => Some(Box::new(n.view())),
                    None => None,
                },
            },
            NFA::Accept => Node::Accept,
        }
    }

    /// A fresh head with no continuation.
    pub fn head() -> (r: Box<NFA>)
        ensures
            r@ == (Node::Head { next: None }),
    {
        Box::new(NFA::Head(Head { next: None }))
    }

    /// A fresh literal for `character`, with no continuation.
    pub fn character(character: char) -> (r: Box<NFA>)
        ensures
            r@ == (Node::Character { character, next: None }),
    {
        Box::new(NFA::Character(Character { character, next: None }))
    }

    /// A fresh wildcard with no continuation.
    pub fn dot() -> (r: Box<NFA>)
        ensures
            r@ == (Node::Dot { next: None }),
    {
        Box::new(NFA::Dot(Dot { next: None }))
    }

    /// A fresh choice over `choices`, in their order, with no continuation.
    pub fn choice(choices: Vec<Box<NFA>>) -> (r: Box<NFA>)
        ensures
            r@ == (Node::Choice { choices: chains_view(choices), next: None }),
    {
        Box::new(NFA::Choice(Choice { choices, next: None }))
    }

    /// A fresh repetition of the chain `nfa`, with no continuation.
    pub fn repeat(nfa: Box<NFA>) -> (r: Box<NFA>)
        ensures
            r@ == (Node::Repeat { nfa: Box::new(nfa@), next: None }),
    {
        Box::new(NFA::Repeat(Repeat { nfa, next: None }))
    }

    /// A fresh group around the chain `nfa`, with no continuation.
    pub fn group(nfa: Box<NFA>) -> (r: Box<NFA>)
        ensures
            r@ == (Node::Group { nfa: Box::new(nfa@), next: None }),
    {
        Box::new(NFA::Group(Group { nfa, next: None }))
    }

    /// The terminal node.
    pub fn accept() -> (r: Box<NFA>)
        ensures
            r@ == Node::Accept,
    {
        Box::new(NFA::Accept)
    }
}

} // verus!
