//! What holds of parsing and matching together: a pattern of literals and
//! wildcards matches the texts it describes, compiling is a function of the
//! pattern's text, and a larger budget never changes an answer.

use vstd::prelude::*;
use crate::builder::{spec_chain, spec_concat, spec_fold};
use crate::matcher::{spec_first_match, spec_go, spec_test, MatchError};
use crate::node::Node;
use crate::parser::{
    is_meta,
    spec_alternative,
    spec_alternatives,
    spec_atom,
    spec_parse,
    spec_pattern,
    spec_repeatable,
    spec_repeatables,
    ParseError,
};
use crate::regex::{spec_matches, Regex};

verus! {

/// `p` holds literals and wildcards only.
pub open spec fn plain(p: Seq<char>) -> bool {
    forall|i: int| 0 <= i < p.len() ==> #[trigger] p[i] == '.' || !is_meta(p[i])
}

/// `p` holds literals only.
pub open spec fn literal_only(p: Seq<char>) -> bool {
    forall|i: int| 0 <= i < p.len() ==> !is_meta(#[trigger] p[i])
}

/// `h` starts with a text that `p` describes character by character.
pub open spec fn fits(p: Seq<char>, h: Seq<char>) -> bool {
    &&& p.len() <= h.len()
    &&& forall|i: int| 0 <= i < p.len() ==> #[trigger] p[i] == '.' || h[i] == p[i]
}

/// The unlinked node for one character of a plain pattern.
pub open spec fn plain_atom(c: char) -> Node {
    if c == '.' {
        Node::Dot { next: None }
    } else {
        Node::Character { character: c, next: None }
    }
}

/// The unlinked nodes of a plain pattern, in order.
pub open spec fn plain_atoms(p: Seq<char>) -> Seq<Node> {
    Seq::new(p.len(), |i: int| plain_atom(p[i]))
}

proof fn lemma_plain_repeatables(p: Seq<char>, pos: int, done: Seq<Node>)
    requires
        plain(p),
        0 <= pos <= p.len(),
    ensures
        spec_repeatables(p, pos, done) == Ok::<(Seq<Node>, int), ParseError>(
            (done + plain_atoms(p).subrange(pos, p.len() as int), p.len() as int),
        ),
    decreases p.len() - pos,
{
    let atoms = plain_atoms(p);
    let len = p.len() as int;
    if pos < len {
        assert(p[pos] == '.' || !is_meta(p[pos]));
        assert(spec_atom(p, pos) == Ok::<(Node, int), ParseError>((plain_atom(p[pos]), pos + 1)));
        if pos + 1 < len {
            assert(p[pos + 1] == '.' || !is_meta(p[pos + 1]));
        }
        assert(spec_repeatable(p, pos) == spec_atom(p, pos));
        lemma_plain_repeatables(p, pos + 1, done.push(plain_atom(p[pos])));
        assert(done.push(plain_atom(p[pos])) + atoms.subrange(pos + 1, len) =~= done
            + atoms.subrange(pos, len));
    } else {
        assert(done + atoms.subrange(pos, len) =~= done);
    }
}

/// A non-empty plain pattern compiles to the chain of its characters.
pub proof fn lemma_plain_parse(p: Seq<char>)
    requires
        plain(p),
        p.len() > 0,
    ensures
        spec_parse(p) == Ok::<Node, ParseError>(spec_fold(plain_atoms(p))),
{
    let atoms = plain_atoms(p);
    let len = p.len() as int;
    lemma_plain_repeatables(p, 0, Seq::empty());
    assert(Seq::<Node>::empty() + atoms.subrange(0, len) =~= atoms);
    assert(spec_alternative(p, 0, false) == Ok::<(Node, int), ParseError>((spec_fold(atoms), len)));
    assert(spec_alternatives(p, 0, false, Seq::empty()) == Ok::<(Seq<Node>, int), ParseError>(
        (Seq::<Node>::empty().push(spec_fold(atoms)), len),
    ));
    assert(spec_pattern(p, 0, false) == Ok::<(Node, int), ParseError>((spec_fold(atoms), len)));
}

proof fn lemma_plain_chain(p: Seq<char>, h: Seq<char>, from: int, depth: nat)
    requires
        plain(p),
        fits(p, h),
        0 <= from <= p.len(),
        depth >= p.len() - from + 1,
    ensures
        spec_test(spec_chain(plain_atoms(p), from), h, from, depth) == Ok::<
            Option<int>,
            MatchError,
        >(Some(p.len() as int)),
    decreases p.len() - from,
{
    let atoms = plain_atoms(p);
    if from < p.len() {
        let rest = spec_chain(atoms, from + 1);
        lemma_plain_chain(p, h, from + 1, (depth - 1) as nat);
        assert(p[from] == '.' || h[from] == p[from]);
        assert(atoms[from] == plain_atom(p[from]));
        assert(spec_chain(atoms, from) == spec_concat(atoms[from], rest));
    }
}

/// A non-empty pattern of literals and wildcards matches every input that
/// starts with a text it describes, and consumes exactly that text,
/// whenever the budget covers one level for each of its characters and two
/// for the ends of the chain.
pub proof fn law_plain_pattern_matches_prefix(p: Seq<char>, h: Seq<char>, depth: nat)
    requires
        plain(p),
        p.len() > 0,
        fits(p, h),
        depth >= p.len() + 2,
    ensures
        spec_parse(p) is Ok,
        spec_test(spec_parse(p)->Ok_0, h, 0, depth) == Ok::<Option<int>, MatchError>(
            Some(p.len() as int),
        ),
{
    lemma_plain_parse(p);
    lemma_plain_chain(p, h, 0, (depth - 1) as nat);
}

/// A non-empty pattern of literals and wildcards matches its own text.
pub proof fn law_plain_pattern_matches_itself(p: Seq<char>, depth: nat)
    requires
        plain(p),
        p.len() > 0,
        depth >= p.len() + 2,
    ensures
        spec_parse(p) is Ok,
        spec_matches(spec_parse(p)->Ok_0, p, depth),
{
    law_plain_pattern_matches_prefix(p, p, depth);
}

/// A non-empty pattern of literals and wildcards matches its own text with
/// anything behind it: a match is not anchored at the end.
pub proof fn law_plain_pattern_matches_with_suffix(p: Seq<char>, s: Seq<char>, depth: nat)
    requires
        plain(p),
        p.len() > 0,
        depth >= p.len() + 2,
    ensures
        spec_parse(p) is Ok,
        spec_matches(spec_parse(p)->Ok_0, p + s, depth),
        spec_test(spec_parse(p)->Ok_0, p + s, 0, depth) == Ok::<Option<int>, MatchError>(
            Some(p.len() as int),
        ),
{
    assert forall|i: int| 0 <= i < p.len() implies #[trigger] p[i] == '.' || (p + s)[i] == p[i] by {}
    law_plain_pattern_matches_prefix(p, p + s, depth);
}

/// A non-empty pattern of literals does not match the empty input.
pub proof fn law_literal_pattern_rejects_empty(p: Seq<char>, depth: nat)
    requires
        literal_only(p),
        p.len() > 0,
    ensures
        spec_parse(p) is Ok,
        !spec_matches(spec_parse(p)->Ok_0, Seq::empty(), depth),
        depth >= 2 ==> spec_test(spec_parse(p)->Ok_0, Seq::empty(), 0, depth) == Ok::<
            Option<int>,
            MatchError,
        >(None),
{
    assert(plain(p)) by {
        assert forall|i: int| 0 <= i < p.len() implies #[trigger] p[i] == '.' || !is_meta(p[i]) by {
            assert(!is_meta(p[i]));
        }
    }
    lemma_plain_parse(p);
    let atoms = plain_atoms(p);
    assert(!is_meta(p[0]));
    assert(atoms[0] == plain_atom(p[0]));
    assert(spec_chain(atoms, 0) == spec_concat(atoms[0], spec_chain(atoms, 1)));
    if depth >= 2 {
        assert(spec_test(spec_chain(atoms, 0), Seq::empty(), 0, (depth - 1) as nat) == Ok::<
            Option<int>,
            MatchError,
        >(None));
    }
}

/// Compiling is a function of the pattern's text: two graphs compiled from
/// the same text are equal, node for node.
pub proof fn law_parse_is_deterministic(s: Seq<char>, a: Regex, b: Regex)
    requires
        spec_parse(s) == Ok::<Node, ParseError>(a@),
        spec_parse(s) == Ok::<Node, ParseError>(b@),
    ensures
        a@ == b@,
{
}

/// A walk that ends with an answer within a budget ends with the same
/// answer within every larger one: the budget decides whether there is an
/// answer, never which.
pub proof fn law_budget_is_monotone(node: Node, input: Seq<char>, pos: int, depth: nat, more: nat)
    requires
        spec_test(node, input, pos, depth) is Ok,
        more >= depth,
    ensures
        spec_test(node, input, pos, more) == spec_test(node, input, pos, depth),
    decreases depth, 0nat,
{
    let d = (depth - 1) as nat;
    let m = (more - 1) as nat;
    match node {
        Node::Accept => {},
        Node::Head { next } => {
            if let Some(n) = next {
                law_budget_is_monotone(*n, input, pos, d, m);
            }
        },
        Node::Character { character, next } => {
            if let Some(n) = next {
                if 0 <= pos < input.len() && input[pos] == character {
                    law_budget_is_monotone(*n, input, pos + 1, d, m);
                }
            }
        },
        Node::Dot { next } => {
            if let Some(n) = next {
                if 0 <= pos < input.len() {
                    law_budget_is_monotone(*n, input, pos + 1, d, m);
                }
            }
        },
        Node::Choice { choices, next } => {
            if let Some(n) = next {
                lemma_first_match_is_monotone(choices, 0, input, pos, d, m);
                if let Ok(Some(p)) = spec_first_match(choices, 0, input, pos, d) {
                    law_budget_is_monotone(*n, input, p, d, m);
                }
            }
        },
        Node::Repeat { nfa, next } => {
            if let Some(n) = next {
                lemma_go_is_monotone(*nfa, *n, input, pos, d, m);
            }
        },
        Node::Group { nfa, next } => {
            if let Some(n) = next {
                law_budget_is_monotone(*nfa, input, pos, d, m);
                if let Ok(Some(p)) = spec_test(*nfa, input, pos, d) {
                    law_budget_is_monotone(*n, input, p, d, m);
                }
            }
        },
    }
}

proof fn lemma_first_match_is_monotone(
    choices: Seq<Node>,
    from: int,
    input: Seq<char>,
    pos: int,
    depth: nat,
    more: nat,
)
    requires
        spec_first_match(choices, from, input, pos, depth) is Ok,
        more >= depth,
    ensures
        spec_first_match(choices, from, input, pos, more) == spec_first_match(
            choices,
            from,
            input,
            pos,
            depth,
        ),
    decreases depth, 1 + choices.len() - from,
{
    if 0 <= from < choices.len() {
        law_budget_is_monotone(choices[from], input, pos, depth, more);
        if spec_test(choices[from], input, pos, depth) == Ok::<Option<int>, MatchError>(None) {
            lemma_first_match_is_monotone(choices, from + 1, input, pos, depth, more);
        }
    }
}

proof fn lemma_go_is_monotone(
    inner: Node,
    next: Node,
    input: Seq<char>,
    pos: int,
    depth: nat,
    more: nat,
)
    requires
        spec_go(inner, next, input, pos, depth) is Ok,
        more >= depth,
    ensures
        spec_go(inner, next, input, pos, more) == spec_go(inner, next, input, pos, depth),
    decreases depth, 0nat,
{
    let d = (depth - 1) as nat;
    let m = (more - 1) as nat;
    law_budget_is_monotone(inner, input, pos, d, m);
    match spec_test(inner, input, pos, d) {
        Ok(Some(p)) => {
            lemma_go_is_monotone(inner, next, input, p, d, m);
            if spec_go(inner, next, input, p, d) == Ok::<Option<int>, MatchError>(None) {
                law_budget_is_monotone(next, input, pos, d, m);
            }
        },
        _ => {
            law_budget_is_monotone(next, input, pos, d, m);
        },
    }
}

} // verus!
