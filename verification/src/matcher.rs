//! The backtracking matcher: what a walk of a node over an input yields,
//! stated on the model, and the executable walk that computes it.
//!
//! A walk starts at a position of the input and, where it succeeds, ends at
//! the position of the first character it did not consume. Every call uses
//! one level of a depth budget; a walk that would go deeper than the budget
//! ends with [`MatchError::RecursionLimitExceeded`] in place of exhausting
//! the stack.

use vstd::prelude::*;
use crate::node::{chains_view, Character, Choice, Dot, Group, Head, Node, Repeat, NFA};

verus! {

/// The one way a walk can end without an answer.
#[derive(Debug, Clone, Copy, PartialEq, Eq, Structural)]
pub enum MatchError {
    /// The walk needed more nested calls than the budget allows.
    RecursionLimitExceeded,
}

/// The result of an executable walk, with its position as an `int`.
pub open spec fn verdict(r: Result<Option<usize>, MatchError>) -> Result<Option<int>, MatchError> {
    match r {
        Ok(Some(p)) => Ok(Some(p as int)),
        Ok(None) => Ok(None),
        Err(e) => Err(e),
    }
}

/// What walking `node` over `input` from `pos` yields within `depth` levels:
/// `Ok(Some(end))` where the walk reaches the chain's `Accept` with
/// `input[pos..end]` consumed, `Ok(None)` where it fails, and
/// `Err(RecursionLimitExceeded)` where it runs out of levels.
///
/// A node whose continuation is unset fails. A choice takes the first
/// alternative that completes, and a group the first completion of its inner
/// chain; neither is tried again if the continuation then fails.
pub open spec fn spec_test(node: Node, input: Seq<char>, pos: int, depth: nat) -> Result<
    Option<int>,
    MatchError,
>
    decreases depth, 0nat,
{
    if depth == 0 {
        Err(MatchError::RecursionLimitExceeded)
    } else {
        let d = (depth - 1) as nat;
        match node {
            Node::Accept => Ok(Some(pos)),
            Node::Head { next } => match next {
                Some(n) => spec_test(*n, input, pos, d),
                None => Ok(None),
            },
            Node::Character { character, next } => match next {
                Some(n) => if 0 <= pos < input.len() && input[pos] == character {
                    spec_test(*n, input, pos + 1, d)
                } else {
                    Ok(None)
                },
                None => Ok(None),
            },
            Node::Dot { next } => match next {
                Some(n) => if 0 <= pos < input.len() {
                    spec_test(*n, input, pos + 1, d)
                } else {
                    Ok(None)
                },
                None => Ok(None),
            },
            Node::Choice { choices, next } => match next {
                Some(n) => match spec_first_match(choices, 0, input, pos, d) {
                    Ok(Some(p)) => spec_test(*n, input, p, d),
                    Ok(None) => Ok(None),
                    Err(e) => Err(e),
                },
                None => Ok(None),
            },
            Node::Repeat { nfa, next } => match next {
                Some(n) => spec_go(*nfa, *n, input, pos, d),
                None => Ok(None),
            },
            Node::Group { nfa, next } => match next {
                Some(n) => match spec_test(*nfa, input, pos, d) {
                    Ok(Some(p)) => spec_test(*n, input, p, d),
                    Ok(None) => Ok(None),
                    Err(e) => Err(e),
                },
                None => Ok(None),
            },
        }
    }
}

/// The first of `choices[from..]`, in order, that completes from `pos`.
pub open spec fn spec_first_match(
    choices: Seq<Node>,
    from: int,
    input: Seq<char>,
    pos: int,
    depth: nat,
) -> Result<Option<int>, MatchError>
    decreases depth, 1 + choices.len() - from,
{
    if from < 0 || from >= choices.len() {
        Ok(None)
    } else {
        match spec_test(choices[from], input, pos, depth) {
            Ok(Some(p)) => Ok(Some(p)),
            Ok(None) => spec_first_match(choices, from + 1, input, pos, depth),
            Err(e) => Err(e),
        }
    }
}

/// Zero or more applications of `inner`, then `next`: the largest number of
/// applications is tried first, and one fewer each time the rest fails.
pub open spec fn spec_go(inner: Node, next: Node, input: Seq<char>, pos: int, depth: nat) -> Result<
    Option<int>,
    MatchError,
>
    decreases depth, 0nat,
{
    if depth == 0 {
        Err(MatchError::RecursionLimitExceeded)
    } else {
        let d = (depth - 1) as nat;
        match spec_test(inner, input, pos, d) {
            Ok(Some(p)) => match spec_go(inner, next, input, p, d) {
                Ok(Some(q)) => Ok(Some(q)),
                Ok(None) => spec_test(next, input, pos, d),
                Err(e) => Err(e),
            },
            Ok(None) => spec_test(next, input, pos, d),
            Err(e) => Err(e),
        }
    }
}

impl NFA {
    /// Walks this node over `input` from `pos`.
    pub fn test(&self, input: &[char], pos: usize, depth: usize) -> (r: Result<
        Option<usize>,
        MatchError,
    >)
        ensures
            verdict(r) == spec_test(self@, input@, pos as int, depth as nat),
            r matches Ok(Some(p)) ==> pos <= p && (pos <= input@.len() ==> p <= input@.len()),
        decreases depth, 1nat,
    {
        match self {
            NFA::Head(head) => head.test(input, pos, depth),
            NFA::Character(character) => character.test(input, pos, depth),
            NFA::Dot(dot) => dot.test(input, pos, depth),
            NFA::Choice(choice) => choice.test(input, pos, depth),
            NFA::Repeat(repeat) => repeat.test(input, pos, depth),
            NFA::Group(group) => group.test(input, pos, depth),
            NFA::Accept => {
                if depth == 0 {
                    Err(MatchError::RecursionLimitExceeded)
                } else {
                    Ok(Some(pos))
                }
            },
        }
    }
}

impl Head {
    /// Hands the walk on to the continuation.
    pub fn test(&self, input: &[char], pos: usize, depth: usize) -> (r: Result<
        Option<usize>,
        MatchError,
    >)
        ensures
            verdict(r) == spec_test(self@, input@, pos as int, depth as nat),
            r matches Ok(Some(p)) ==> pos <= p && (pos <= input@.len() ==> p <= input@.len()),
        decreases depth, 0nat,
    {
        if depth == 0 {
            return Err(MatchError::RecursionLimitExceeded);
        }
        match &self.next {
            Some(next) => next.test(input, pos, depth - 1),
            None => Ok(None),
        }
    }
}

impl Dot {
    /// Consumes one character, then hands the walk on.
    pub fn test(&self, input: &[char], pos: usize, depth: usize) -> (r: Result<
        Option<usize>,
        MatchError,
    >)
        ensures
            verdict(r) == spec_test(self@, input@, pos as int, depth as nat),
            r matches Ok(Some(p)) ==> pos <= p && (pos <= input@.len() ==> p <= input@.len()),
        decreases depth, 0nat,
    {
        if depth == 0 {
            return Err(MatchError::RecursionLimitExceeded);
        }
        match &self.next {
            Some(next) => {
                if pos < input.len() {
                    next.test(input, pos + 1, depth - 1)
                } else {
                    Ok(None)
                }
            },
            None => Ok(None),
        }
    }
}

impl Character {
    /// Consumes one character if it is this node's, then hands the walk on.
    pub fn test(&self, input: &[char], pos: usize, depth: usize) -> (r: Result<
        Option<usize>,
        MatchError,
    >)
        ensures
            verdict(r) == spec_test(self@, input@, pos as int, depth as nat),
            r matches Ok(Some(p)) ==> pos <= p && (pos <= input@.len() ==> p <= input@.len()),
        decreases depth, 0nat,
    {
        if depth == 0 {
            return Err(MatchError::RecursionLimitExceeded);
        }
        match &self.next {
            Some(next) => {
                if pos < input.len() && input[pos] == self.character {
                    next.test(input, pos + 1, depth - 1)
                } else {
                    Ok(None)
                }
            },
            None => Ok(None),
        }
    }
}

impl Choice {
    /// Takes the first alternative that completes, then hands the walk on.
    pub fn test(&self, input: &[char], pos: usize, depth: usize) -> (r: Result<
        Option<usize>,
        MatchError,
    >)
        ensures
            verdict(r) == spec_test(self@, input@, pos as int, depth as nat),
            r matches Ok(Some(p)) ==> pos <= p && (pos <= input@.len() ==> p <= input@.len()),
        decreases depth, 0nat,
    {
        if depth == 0 {
            return Err(MatchError::RecursionLimitExceeded);
        }
        let next = match &self.next {
            Some(next) => next,
            None => {
                return Ok(None);
            },
        };
        let ghost models = chains_view(self.choices);
        let ghost d = (depth - 1) as nat;
        let mut i: usize = 0;
        while i < self.choices.len()
            invariant
                i <= self.choices.len(),
                depth > 0,
                d == depth - 1,
                models == chains_view(self.choices),
                self.next == Some(*next),
                spec_first_match(models, 0, input@, pos as int, d) == spec_first_match(
                    models,
                    i as int,
                    input@,
                    pos as int,
                    d,
                ),
            decreases self.choices.len() - i,
        {
            match self.choices[i].test(input, pos, depth - 1) {
                Ok(Some(p)) => {
                    return next.test(input, p, depth - 1);
                },
                Ok(None) => {
                    i += 1;
                },
                Err(e) => {
                    return Err(e);
                },
            }
        }
        Ok(None)
    }
}

/// Applies `nfa` as often as it completes, then `next`, giving back one
/// application at a time while `next` fails.
pub fn go(input: &[char], pos: usize, nfa: &Box<NFA>, next: &Box<NFA>, depth: usize) -> (r: Result<
    Option<usize>,
    MatchError,
>)
    ensures
        verdict(r) == spec_go(nfa@, next@, input@, pos as int, depth as nat),
        r matches Ok(Some(p)) ==> pos <= p && (pos <= input@.len() ==> p <= input@.len()),
    decreases depth, 0nat,
{
    if depth == 0 {
        return Err(MatchError::RecursionLimitExceeded);
    }
    match nfa.test(input, pos, depth - 1) {
        Ok(Some(p)) => match go(input, p, nfa, next, depth - 1) {
            Ok(Some(q)) => Ok(Some(q)),
            Ok(None) => next.test(input, pos, depth - 1),
            Err(e) => Err(e),
        },
        Ok(None) => next.test(input, pos, depth - 1),
        Err(e) => Err(e),
    }
}

impl Repeat {
    /// Applies the inner chain zero or more times, then hands the walk on.
    pub fn test(&self, input: &[char], pos: usize, depth: usize) -> (r: Result<
        Option<usize>,
        MatchError,
    >)
        ensures
            verdict(r) == spec_test(self@, input@, pos as int, depth as nat),
            r matches Ok(Some(p)) ==> pos <= p && (pos <= input@.len() ==> p <= input@.len()),
        decreases depth, 0nat,
    {
        if depth == 0 {
            return Err(MatchError::RecursionLimitExceeded);
        }
        match &self.next {
            Some(next) => go(input, pos, &self.nfa, next, depth - 1),
            None => Ok(None),
        }
    }
}

impl Group {
    /// Requires the inner chain to complete, then hands the walk on.
    pub fn test(&self, input: &[char], pos: usize, depth: usize) -> (r: Result<
        Option<usize>,
        MatchError,
    >)
        ensures
            verdict(r) == spec_test(self@, input@, pos as int, depth as nat),
            r matches Ok(Some(p)) ==> pos <= p && (pos <= input@.len() ==> p <= input@.len()),
        decreases depth, 0nat,
    {
        if depth == 0 {
            return Err(MatchError::RecursionLimitExceeded);
        }
        let next = match &self.next {
            Some(next) => next,
            None => {
                return Ok(None);
            },
        };
        match self.nfa.test(input, pos, depth - 1) {
            Ok(Some(p)) => next.test(input, p, depth - 1),
            Ok(None) => Ok(None),
            Err(e) => Err(e),
        }
    }
}

} // verus!
