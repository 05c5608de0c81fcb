//! The text of a graph: the pattern that a chain spells out, and the proof
//! that a pattern compiles to a graph that spells out that very pattern.

use vstd::prelude::*;
use crate::builder::{spec_chain, spec_concat, spec_fold};
use crate::node::Node;
use crate::parser::{
    spec_alternative,
    spec_alternatives,
    spec_atom,
    spec_group,
    spec_parse,
    spec_pattern,
    spec_repeatable,
    spec_repeatables,
    starts_atom,
};
use crate::shape::{
    all_fresh,
    fresh,
    lemma_alternative_shape,
    lemma_atom_shape,
    lemma_repeatable_shape,
};

verus! {

/// The pattern that `node` and the nodes behind it spell out. A `Head` and
/// an `Accept` spell nothing, a group its inner chain in parentheses, a
/// repetition its inner chain and a `*`, a choice its alternatives with a
/// `|` between them.
pub open spec fn spec_text(node: Node) -> Seq<char>
    decreases node, 1nat,
{
    match node {
        Node::Accept => Seq::empty(),
        Node::Head { next } => match next {
            Some(n) => spec_text(*n),
            None => Seq::empty(),
        },
        Node::Character { character, next } => seq![character] + match next {
            Some(n) => spec_text(*n),
            None => Seq::empty(),
        },
        Node::Dot { next } => seq!['.'] + match next {
            Some(n) => spec_text(*n),
            None => Seq::empty(),
        },
        Node::Choice { choices, next } => spec_join(spec_texts(choices), choices.len() as int)
            + match next {
            Some(n) => spec_text(*n),
            None => Seq::empty(),
        },
        Node::Repeat { nfa, next } => spec_text(*nfa) + seq!['*'] + match next {
            Some(n) => spec_text(*n),
            None => Seq::empty(),
        },
        Node::Group { nfa, next } => seq!['('] + spec_text(*nfa) + seq![')'] + match next {
            Some(n) => spec_text(*n),
            None => Seq::empty(),
        },
    }
}

/// The texts of `chains`, in order.
pub open spec fn spec_texts(chains: Seq<Node>) -> Seq<Seq<char>>
    decreases chains, 0nat,
{
    Seq::new(
        chains.len(),
        |i: int|
            if 0 <= i < chains.len() {
                spec_text(chains[i])
            } else {
                Seq::empty()
            },
    )
}

/// The first `upto` of `texts` with a `|` between each two.
pub open spec fn spec_join(texts: Seq<Seq<char>>, upto: int) -> Seq<char>
    decreases upto,
{
    if upto <= 0 || upto > texts.len() {
        Seq::empty()
    } else if upto == 1 {
        texts[0]
    } else {
        spec_join(texts, upto - 1) + seq!['|'] + texts[upto - 1]
    }
}

proof fn lemma_join_agrees(a: Seq<Seq<char>>, b: Seq<Seq<char>>, upto: int)
    requires
        upto <= a.len(),
        upto <= b.len(),
        forall|i: int| 0 <= i < upto ==> a[i] == b[i],
    ensures
        spec_join(a, upto) == spec_join(b, upto),
    decreases upto,
{
    if upto > 1 {
        lemma_join_agrees(a, b, upto - 1);
    }
}

proof fn lemma_concat_text(node: Node, tail: Node)
    requires
        fresh(node),
    ensures
        spec_text(spec_concat(node, tail)) =~= spec_text(node) + spec_text(tail),
{
}

proof fn lemma_chain_push_text(done: Seq<Node>, node: Node, from: int)
    requires
        all_fresh(done),
        fresh(node),
        0 <= from <= done.len(),
    ensures
        spec_text(spec_chain(done.push(node), from)) =~= spec_text(spec_chain(done, from))
            + spec_text(node),
    decreases done.len() - from,
{
    let more = done.push(node);
    if from < done.len() {
        lemma_chain_push_text(done, node, from + 1);
        assert(more[from] == done[from]);
        lemma_concat_text(done[from], spec_chain(more, from + 1));
        lemma_concat_text(done[from], spec_chain(done, from + 1));
    } else {
        assert(more[from] == node);
        assert(spec_chain(more, from + 1) == Node::Accept);
        lemma_concat_text(node, Node::Accept);
    }
}

proof fn lemma_group_text(s: Seq<char>, pos: int)
    requires
        0 <= pos <= s.len(),
    ensures
        spec_group(s, pos) matches Ok((node, end)) ==> pos < end <= s.len() && spec_text(node)
            =~= s.subrange(pos, end),
    decreases s.len() - pos, 0nat,
{
    if pos < s.len() && s[pos] == '(' {
        lemma_pattern_text(s, pos + 1, true);
    }
}

proof fn lemma_atom_text(s: Seq<char>, pos: int)
    requires
        0 <= pos <= s.len(),
    ensures
        spec_atom(s, pos) matches Ok((node, end)) ==> pos < end <= s.len() && spec_text(node)
            =~= s.subrange(pos, end),
    decreases s.len() - pos, 1nat,
{
    lemma_group_text(s, pos);
}

proof fn lemma_repeatable_text(s: Seq<char>, pos: int)
    requires
        0 <= pos <= s.len(),
    ensures
        spec_repeatable(s, pos) matches Ok((node, end)) ==> pos < end <= s.len() && spec_text(node)
            =~= s.subrange(pos, end),
    decreases s.len() - pos, 2nat,
{
    lemma_atom_text(s, pos);
    lemma_atom_shape(s, pos);
    if let Ok((atom, end)) = spec_atom(s, pos) {
        let states = seq![atom];
        assert(spec_chain(states, 1) == Node::Accept);
        assert(spec_chain(states, 0) == spec_concat(atom, Node::Accept));
        lemma_concat_text(atom, Node::Accept);
        assert(spec_text(spec_fold(states)) =~= spec_text(atom));
    }
}

proof fn lemma_repeatables_text(s: Seq<char>, pos: int, done: Seq<Node>)
    requires
        0 <= pos <= s.len(),
        all_fresh(done),
    ensures
        spec_repeatables(s, pos, done) matches Ok((nodes, end)) ==> pos <= end <= s.len()
            && spec_text(spec_chain(nodes, 0)) =~= spec_text(spec_chain(done, 0)) + s.subrange(
            pos,
            end,
        ),
    decreases s.len() - pos, 3nat,
{
    if pos < s.len() && starts_atom(s[pos]) {
        lemma_repeatable_text(s, pos);
        lemma_repeatable_shape(s, pos);
        if let Ok((node, mid)) = spec_repeatable(s, pos) {
            lemma_repeatables_text(s, mid, done.push(node));
            lemma_chain_push_text(done, node, 0);
            if let Ok((nodes, end)) = spec_repeatables(s, mid, done.push(node)) {
                assert(s.subrange(pos, mid) + s.subrange(mid, end) =~= s.subrange(pos, end));
            }
        }
    }
}

proof fn lemma_alternative_text(s: Seq<char>, pos: int, nested: bool)
    requires
        0 <= pos <= s.len(),
    ensures
        spec_alternative(s, pos, nested) matches Ok((node, end)) ==> pos < end <= s.len()
            && spec_text(node) =~= s.subrange(pos, end),
    decreases s.len() - pos, 4nat,
{
    lemma_repeatables_text(s, pos, Seq::empty());
    lemma_alternative_shape(s, pos, nested);
    assert(spec_chain(Seq::<Node>::empty(), 0) == Node::Accept);
}

/// The text that the alternatives read so far spell out, with the `|`
/// that the next one follows.
pub open spec fn spec_begun(done: Seq<Node>) -> Seq<char> {
    if done.len() == 0 {
        Seq::empty()
    } else {
        spec_join(spec_texts(done), done.len() as int) + seq!['|']
    }
}

proof fn lemma_alternatives_text(s: Seq<char>, pos: int, nested: bool, done: Seq<Node>)
    requires
        0 <= pos <= s.len(),
    ensures
        spec_alternatives(s, pos, nested, done) matches Ok((chains, end)) ==> pos < end <= s.len()
            && chains.len() > done.len() && spec_join(spec_texts(chains), chains.len() as int)
            =~= spec_begun(done) + s.subrange(pos, end),
    decreases s.len() - pos, 5nat,
{
    lemma_alternative_text(s, pos, nested);
    if let Ok((chain, mid)) = spec_alternative(s, pos, nested) {
        let more = done.push(chain);
        let len = done.len() as int;
        assert(spec_texts(more)[len] == spec_text(chain));
        assert forall|i: int| 0 <= i < len implies spec_texts(more)[i] == spec_texts(done)[i] by {
            assert(more[i] == done[i]);
        }
        lemma_join_agrees(spec_texts(more), spec_texts(done), len);
        assert(spec_join(spec_texts(more), len + 1) =~= spec_begun(done) + s.subrange(pos, mid));
        if mid < s.len() && s[mid] == '|' {
            lemma_alternatives_text(s, mid + 1, nested, more);
            if let Ok((chains, end)) = spec_alternatives(s, mid + 1, nested, more) {
                assert(s.subrange(pos, mid) + seq!['|'] + s.subrange(mid + 1, end) =~= s.subrange(
                    pos,
                    end,
                ));
            }
        }
    }
}

proof fn lemma_pattern_text(s: Seq<char>, pos: int, nested: bool)
    requires
        0 <= pos <= s.len(),
    ensures
        spec_pattern(s, pos, nested) matches Ok((node, end)) ==> pos < end <= s.len() && spec_text(
            node,
        ) =~= s.subrange(pos, end),
    decreases s.len() - pos, 6nat,
{
    lemma_alternatives_text(s, pos, nested, Seq::empty());
    if let Ok((chains, end)) = spec_alternatives(s, pos, nested, Seq::empty()) {
        if chains.len() != 1 {
            let choice = Node::Choice { choices: chains, next: None };
            let states = seq![choice];
            assert(spec_chain(states, 1) == Node::Accept);
            let linked = spec_concat(choice, Node::Accept);
            assert(spec_chain(states, 0) == linked);
            assert(spec_text(Node::Accept) =~= Seq::empty());
            assert(spec_text(linked) =~= spec_join(spec_texts(chains), chains.len() as int));
            assert(spec_text(spec_fold(states)) == spec_text(linked));
            assert(spec_text(spec_fold(states)) =~= spec_join(
                spec_texts(chains),
                chains.len() as int,
            ));
        }
    }
}

/// A pattern compiles to a graph that spells out the pattern, character
/// for character. So two patterns that compile to the same graph are the
/// same text.
pub proof fn law_graph_spells_pattern(s: Seq<char>)
    ensures
        spec_parse(s) matches Ok(node) ==> spec_text(node) == s,
{
    lemma_pattern_text(s, 0, false);
    assert(s.subrange(0, s.len() as int) =~= s);
}

} // verus!
