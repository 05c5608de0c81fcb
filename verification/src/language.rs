//! The words of a chain, stated without any order of trial, and the proof
//! that the matcher reports no match that is none.
//!
//! The converse does not hold, and is not meant to: a choice and a group
//! keep their first completion, so the matcher can fail on an input of
//! which some prefix is a word of the chain.

use vstd::prelude::*;
use crate::matcher::{spec_first_match, spec_go, spec_test};
use crate::node::Node;

verus! {

/// Whether the chain from `node` to its `Accept` can consume exactly `w`.
pub open spec fn consumes(node: Node, w: Seq<char>) -> bool
    decreases node, w.len(), 1nat,
{
    match node {
        Node::Accept => w.len() == 0,
        Node::Head { next } => next matches Some(n) && consumes(*n, w),
        Node::Character { character, next } => {
            &&& next matches Some(n) && w.len() > 0 && w[0] == character && consumes(
                *n,
                w.skip(1),
            )
        },
        Node::Dot { next } => next matches Some(n) && w.len() > 0 && consumes(*n, w.skip(1)),
        Node::Choice { choices, next } => {
            &&& next matches Some(n) && exists|i: int, j: int|
                #![trigger choices[i], w.take(j)]
                0 <= i < choices.len() && 0 <= j <= w.len() && consumes(choices[i], w.take(j))
                    && consumes(*n, w.skip(j))
        },
        Node::Group { nfa, next } => {
            &&& next matches Some(n) && exists|j: int|
                #![trigger w.take(j)]
                0 <= j <= w.len() && consumes(*nfa, w.take(j)) && consumes(*n, w.skip(j))
        },
        Node::Repeat { nfa, next } => repeats(node, w),
    }
}

/// Whether a repetition `node` and what follows it can consume exactly
/// `w`: its continuation does, or its inner chain consumes a non-empty
/// prefix and the repetition the rest.
pub open spec fn repeats(node: Node, w: Seq<char>) -> bool
    decreases node, w.len(), 0nat,
{
    match node {
        Node::Repeat { nfa, next } => {
            &&& next matches Some(n) && (consumes(*n, w) || exists|j: int|
                #![trigger w.take(j)]
                0 < j <= w.len() && consumes(*nfa, w.take(j)) && repeats(node, w.skip(j)))
        },
        _ => false,
    }
}

/// Where a walk from `pos` ends at `end`, the characters between the two
/// are a word of the chain.
pub proof fn law_match_is_sound(node: Node, input: Seq<char>, pos: int, depth: nat)
    requires
        0 <= pos <= input.len(),
        spec_test(node, input, pos, depth) matches Ok(Some(_)),
    ensures
        spec_test(node, input, pos, depth) matches Ok(Some(end)) && pos <= end <= input.len()
            && consumes(node, input.subrange(pos, end)),
    decreases depth, 0nat,
{
    let d = (depth - 1) as nat;
    let end = spec_test(node, input, pos, depth)->Ok_0->Some_0;
    match node {
        Node::Accept => {},
        Node::Head { next } => {
            let n = next->Some_0;
            law_match_is_sound(*n, input, pos, d);
        },
        Node::Character { character, next } => {
            let n = next->Some_0;
            law_match_is_sound(*n, input, pos + 1, d);
            let w = input.subrange(pos, end);
            assert(w.skip(1) =~= input.subrange(pos + 1, end));
        },
        Node::Dot { next } => {
            let n = next->Some_0;
            law_match_is_sound(*n, input, pos + 1, d);
            let w = input.subrange(pos, end);
            assert(w.skip(1) =~= input.subrange(pos + 1, end));
        },
        Node::Choice { choices, next } => {
            let n = next->Some_0;
            let i = lemma_first_match_is_sound(choices, 0, input, pos, d);
            let p = spec_first_match(choices, 0, input, pos, d)->Ok_0->Some_0;
            law_match_is_sound(*n, input, p, d);
            let w = input.subrange(pos, end);
            let j = p - pos;
            assert(w.take(j) =~= input.subrange(pos, p));
            assert(w.skip(j) =~= input.subrange(p, end));
            assert(consumes(choices[i], w.take(j)) && consumes(*n, w.skip(j)));
        },
        Node::Group { nfa, next } => {
            let n = next->Some_0;
            law_match_is_sound(*nfa, input, pos, d);
            let p = spec_test(*nfa, input, pos, d)->Ok_0->Some_0;
            law_match_is_sound(*n, input, p, d);
            let w = input.subrange(pos, end);
            let j = p - pos;
            assert(w.take(j) =~= input.subrange(pos, p));
            assert(w.skip(j) =~= input.subrange(p, end));
            assert(consumes(*nfa, w.take(j)) && consumes(*n, w.skip(j)));
        },
        Node::Repeat { nfa, next } => {
            let n = next->Some_0;
            lemma_go_is_sound(*nfa, *n, input, pos, d);
            assert(node == (Node::Repeat { nfa: Box::new(*nfa), next: Some(Box::new(*n)) }));
        },
    }
}

proof fn lemma_first_match_is_sound(
    choices: Seq<Node>,
    from: int,
    input: Seq<char>,
    pos: int,
    depth: nat,
) -> (i: int)
    requires
        0 <= pos <= input.len(),
        0 <= from,
        spec_first_match(choices, from, input, pos, depth) matches Ok(Some(_)),
    ensures
        from <= i < choices.len(),
        spec_first_match(choices, from, input, pos, depth) matches Ok(Some(end)) && pos <= end
            <= input.len() && consumes(choices[i], input.subrange(pos, end)),
    decreases depth, 1 + choices.len() - from,
{
    if spec_test(choices[from], input, pos, depth) matches Ok(Some(_)) {
        law_match_is_sound(choices[from], input, pos, depth);
        from
    } else {
        lemma_first_match_is_sound(choices, from + 1, input, pos, depth)
    }
}

proof fn lemma_go_is_sound(inner: Node, next: Node, input: Seq<char>, pos: int, depth: nat)
    requires
        0 <= pos <= input.len(),
        spec_go(inner, next, input, pos, depth) matches Ok(Some(_)),
    ensures
        spec_go(inner, next, input, pos, depth) matches Ok(Some(end)) && pos <= end <= input.len()
            && repeats(
            Node::Repeat { nfa: Box::new(inner), next: Some(Box::new(next)) },
            input.subrange(pos, end),
        ),
    decreases depth, 0nat,
{
    let d = (depth - 1) as nat;
    let node = Node::Repeat { nfa: Box::new(inner), next: Some(Box::new(next)) };
    let end = spec_go(inner, next, input, pos, depth)->Ok_0->Some_0;
    if let Ok(Some(p)) = spec_test(inner, input, pos, d) {
        law_match_is_sound(inner, input, pos, d);
        if spec_go(inner, next, input, p, d) matches Ok(Some(_)) {
            lemma_go_is_sound(inner, next, input, p, d);
            let w = input.subrange(pos, end);
            let j = p - pos;
            if j > 0 {
                assert(w.take(j) =~= input.subrange(pos, p));
                assert(w.skip(j) =~= input.subrange(p, end));
                assert(consumes(inner, w.take(j)) && repeats(node, w.skip(j)));
            }
        } else {
            law_match_is_sound(next, input, pos, d);
        }
    } else {
        law_match_is_sound(next, input, pos, d);
    }
}

} // verus!
