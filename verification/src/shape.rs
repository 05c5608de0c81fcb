//! The shape of a graph: what it means for a chain to be complete, and the
//! proof that folding and parsing yield complete chains only.

use vstd::prelude::*;
use crate::builder::{spec_chain, spec_concat, spec_fold};
use crate::node::Node;
use crate::parser::{
    spec_alternative,
    spec_alternatives,
    spec_atom,
    spec_group,
    spec_parse,
    spec_pattern,
    spec_repeatable,
    spec_repeatables,
};

verus! {

/// `node` and every node behind it have their continuation set, down to an
/// `Accept`; no `Head` stands among them; every choice has two alternatives
/// or more; and every alternative and inner chain is complete.
pub open spec fn linked(node: Node) -> bool
    decreases node, 0nat,
{
    match node {
        Node::Accept => true,
        Node::Head { next } => false,
        Node::Character { character, next } => next matches Some(n) && linked(*n),
        Node::Dot { next } => next matches Some(n) && linked(*n),
        Node::Choice { choices, next } => {
            &&& choices.len() >= 2
            &&& forall|i: int| 0 <= i < choices.len() ==> complete(#[trigger] choices[i])
            &&& next matches Some(n) && linked(*n)
        },
        Node::Repeat { nfa, next } => {
            &&& complete(*nfa)
            &&& next matches Some(n) && linked(*n)
        },
        Node::Group { nfa, next } => {
            &&& complete(*nfa)
            &&& next matches Some(n) && linked(*n)
        },
    }
}

/// `node` is a complete chain: one `Head`, then linked nodes down to one
/// `Accept`.
pub open spec fn complete(node: Node) -> bool
    decreases node, 1nat,
{
    node matches Node::Head { next: Some(n) } && linked(*n)
}

/// `node` is fresh: it has no continuation yet, and what it wraps is
/// complete.
pub open spec fn fresh(node: Node) -> bool {
    match node {
        Node::Accept => false,
        Node::Head { next } => false,
        Node::Character { character, next } => next is None,
        Node::Dot { next } => next is None,
        Node::Choice { choices, next } => {
            &&& choices.len() >= 2
            &&& forall|i: int| 0 <= i < choices.len() ==> complete(#[trigger] choices[i])
            &&& next is None
        },
        Node::Repeat { nfa, next } => complete(*nfa) && next is None,
        Node::Group { nfa, next } => complete(*nfa) && next is None,
    }
}

/// Every node of `nodes` is fresh.
pub open spec fn all_fresh(nodes: Seq<Node>) -> bool {
    forall|i: int| 0 <= i < nodes.len() ==> fresh(#[trigger] nodes[i])
}

/// Every node of `nodes` is a complete chain.
pub open spec fn all_complete(nodes: Seq<Node>) -> bool {
    forall|i: int| 0 <= i < nodes.len() ==> complete(#[trigger] nodes[i])
}

/// A fresh node in front of a linked one is linked.
pub proof fn lemma_concat_fresh(node: Node, tail: Node)
    requires
        fresh(node),
        linked(tail),
    ensures
        linked(spec_concat(node, tail)),
{
}

/// Fresh nodes linked one to the next, with an `Accept` behind them, are
/// linked.
pub proof fn lemma_chain_linked(states: Seq<Node>, from: int)
    requires
        all_fresh(states),
        0 <= from,
    ensures
        linked(spec_chain(states, from)),
    decreases states.len() - from,
{
    if from < states.len() {
        lemma_chain_linked(states, from + 1);
        lemma_concat_fresh(states[from], spec_chain(states, from + 1));
    }
}

/// Folding fresh nodes yields a complete chain.
pub proof fn lemma_fold_complete(states: Seq<Node>)
    requires
        all_fresh(states),
    ensures
        complete(spec_fold(states)),
{
    lemma_chain_linked(states, 0);
}

proof fn lemma_group_shape(s: Seq<char>, pos: int)
    requires
        0 <= pos <= s.len(),
    ensures
        spec_group(s, pos) matches Ok((node, end)) ==> fresh(node) && pos < end <= s.len(),
    decreases s.len() - pos, 0nat,
{
    if pos < s.len() && s[pos] == '(' {
        lemma_pattern_shape(s, pos + 1, true);
    }
}

pub proof fn lemma_atom_shape(s: Seq<char>, pos: int)
    requires
        0 <= pos <= s.len(),
    ensures
        spec_atom(s, pos) matches Ok((node, end)) ==> fresh(node) && pos < end <= s.len(),
    decreases s.len() - pos, 1nat,
{
    lemma_group_shape(s, pos);
}

pub proof fn lemma_repeatable_shape(s: Seq<char>, pos: int)
    requires
        0 <= pos <= s.len(),
    ensures
        spec_repeatable(s, pos) matches Ok((node, end)) ==> fresh(node) && pos < end <= s.len(),
    decreases s.len() - pos, 2nat,
{
    lemma_atom_shape(s, pos);
    if let Ok((atom, end)) = spec_atom(s, pos) {
        lemma_fold_complete(seq![atom]);
    }
}

proof fn lemma_repeatables_shape(s: Seq<char>, pos: int, done: Seq<Node>)
    requires
        0 <= pos <= s.len(),
        all_fresh(done),
    ensures
        spec_repeatables(s, pos, done) matches Ok((nodes, end)) ==> {
            &&& all_fresh(nodes)
            &&& pos <= end <= s.len()
            &&& nodes.len() >= done.len()
            &&& (nodes.len() > 0 && done.len() == 0 ==> pos < end)
        },
    decreases s.len() - pos, 3nat,
{
    if pos < s.len() && crate::parser::starts_atom(s[pos]) {
        lemma_repeatable_shape(s, pos);
        if let Ok((node, end)) = spec_repeatable(s, pos) {
            lemma_repeatables_shape(s, end, done.push(node));
        }
    }
}

pub proof fn lemma_alternative_shape(s: Seq<char>, pos: int, nested: bool)
    requires
        0 <= pos <= s.len(),
    ensures
        spec_alternative(s, pos, nested) matches Ok((node, end)) ==> complete(node) && pos < end
            <= s.len(),
    decreases s.len() - pos, 4nat,
{
    lemma_repeatables_shape(s, pos, Seq::empty());
    if let Ok((atoms, end)) = spec_repeatables(s, pos, Seq::empty()) {
        lemma_fold_complete(atoms);
    }
}

proof fn lemma_alternatives_shape(s: Seq<char>, pos: int, nested: bool, done: Seq<Node>)
    requires
        0 <= pos <= s.len(),
        all_complete(done),
    ensures
        spec_alternatives(s, pos, nested, done) matches Ok((chains, end)) ==> {
            &&& all_complete(chains)
            &&& pos < end <= s.len()
            &&& chains.len() > done.len()
        },
    decreases s.len() - pos, 5nat,
{
    lemma_alternative_shape(s, pos, nested);
    if let Ok((chain, end)) = spec_alternative(s, pos, nested) {
        if end < s.len() && s[end] == '|' {
            lemma_alternatives_shape(s, end + 1, nested, done.push(chain));
        }
    }
}

proof fn lemma_pattern_shape(s: Seq<char>, pos: int, nested: bool)
    requires
        0 <= pos <= s.len(),
    ensures
        spec_pattern(s, pos, nested) matches Ok((node, end)) ==> complete(node) && pos < end
            <= s.len(),
    decreases s.len() - pos, 6nat,
{
    lemma_alternatives_shape(s, pos, nested, Seq::empty());
    if let Ok((chains, end)) = spec_alternatives(s, pos, nested, Seq::empty()) {
        if chains.len() != 1 {
            lemma_fold_complete(seq![Node::Choice { choices: chains, next: None }]);
        }
    }
}

/// Every graph that a pattern compiles to is a complete chain.
pub proof fn lemma_parse_complete(s: Seq<char>)
    ensures
        spec_parse(s) matches Ok(node) ==> complete(node),
{
    lemma_pattern_shape(s, 0, false);
}

} // verus!
