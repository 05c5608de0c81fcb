//! The parser: a single-pass recursive descent over the characters of a
//! pattern.
//!
//! ```text
//! pattern      := alternative ('|' alternative)*
//! alternative  := repeatable+
//! repeatable   := atom '*'?
//! atom         := group | literal | wildcard
//! group        := '(' pattern ')'
//! wildcard     := '.'
//! literal      := any character but '.', '*', '(', ')', '|'
//! ```
//!
//! The grammar is stated once on sequences of characters (the `spec_`
//! functions) and the executable functions are proved to compute it. A
//! parse starts at a position and, where it succeeds, yields a node and the
//! position behind what it read. The first rule that cannot go on decides
//! the error.

use vstd::prelude::*;
use crate::builder::{fold_nfa_states, spec_fold};
use crate::node::{chains_view, Node, NFA};

verus! {

/// Why a pattern is refused.
#[derive(Debug, Clone, Copy, PartialEq, Eq, Structural)]
pub enum ParseError {
    /// A `(` is not closed where its pattern ends, or a `)` closes nothing.
    UnbalancedGroup,
    /// An alternative holds no atom.
    EmptyAlternative,
    /// Characters are left behind a complete pattern.
    TrailingInput,
}

/// The characters that are never literals.
pub open spec fn is_meta(c: char) -> bool {
    c == '.' || c == '*' || c == '(' || c == ')' || c == '|'
}

/// The characters with which an atom can begin.
pub open spec fn starts_atom(c: char) -> bool {
    c != '*' && c != ')' && c != '|'
}

/// The error of an alternative that finds no atom at `pos`: an unbalanced
/// group where a group is open at the end of the pattern, or where a `)`
/// stands outside every group; an empty alternative otherwise.
pub open spec fn spec_missing_atom(s: Seq<char>, pos: int, nested: bool) -> ParseError {
    if nested && pos >= s.len() {
        ParseError::UnbalancedGroup
    } else if !nested && 0 <= pos < s.len() && s[pos] == ')' {
        ParseError::UnbalancedGroup
    } else {
        ParseError::EmptyAlternative
    }
}

/// `pattern`, read from `pos`; `nested` says whether a group is open. One
/// alternative is its own chain; two or more stand in a `Choice` that is
/// folded into a chain of its own.
pub open spec fn spec_pattern(s: Seq<char>, pos: int, nested: bool) -> Result<(Node, int), ParseError>
    decreases s.len() - pos, 6nat,
{
    match spec_alternatives(s, pos, nested, Seq::empty()) {
        Ok((chains, end)) => if chains.len() == 1 {
            Ok((chains[0], end))
        } else {
            Ok((spec_fold(seq![Node::Choice { choices: chains, next: None }]), end))
        },
        Err(e) => Err(e),
    }
}

/// The alternatives from `pos` on, separated by `|`, behind those already
/// read (`done`).
pub open spec fn spec_alternatives(s: Seq<char>, pos: int, nested: bool, done: Seq<Node>) -> Result<
    (Seq<Node>, int),
    ParseError,
>
    decreases s.len() - pos, 5nat,
{
    match spec_alternative(s, pos, nested) {
        Ok((chain, end)) => if pos < end < s.len() && s[end] == '|' {
            spec_alternatives(s, end + 1, nested, done.push(chain))
        } else {
            Ok((done.push(chain), end))
        },
        Err(e) => Err(e),
    }
}

/// `alternative`, read from `pos`: one or more repeatables, folded into a
/// chain.
pub open spec fn spec_alternative(s: Seq<char>, pos: int, nested: bool) -> Result<
    (Node, int),
    ParseError,
>
    decreases s.len() - pos, 4nat,
{
    match spec_repeatables(s, pos, Seq::empty()) {
        Ok((atoms, end)) => if atoms.len() == 0 {
            Err(spec_missing_atom(s, pos, nested))
        } else {
            Ok((spec_fold(atoms), end))
        },
        Err(e) => Err(e),
    }
}

/// The repeatables from `pos` on, as many as there are, behind those
/// already read (`done`).
pub open spec fn spec_repeatables(s: Seq<char>, pos: int, done: Seq<Node>) -> Result<
    (Seq<Node>, int),
    ParseError,
>
    decreases s.len() - pos, 3nat,
{
    if 0 <= pos < s.len() && starts_atom(s[pos]) {
        match spec_repeatable(s, pos) {
            Ok((node, end)) => if pos < end <= s.len() {
                spec_repeatables(s, end, done.push(node))
            } else {
                Ok((done.push(node), end))
            },
            Err(e) => Err(e),
        }
    } else {
        Ok((done, pos))
    }
}

/// `repeatable`, read from `pos`: an atom, and behind a `*` the repetition
/// of that atom folded into a chain of its own.
pub open spec fn spec_repeatable(s: Seq<char>, pos: int) -> Result<(Node, int), ParseError>
    decreases s.len() - pos, 2nat,
{
    match spec_atom(s, pos) {
        Ok((atom, end)) => if 0 <= end < s.len() && s[end] == '*' {
            Ok((Node::Repeat { nfa: Box::new(spec_fold(seq![atom])), next: None }, end + 1))
        } else {
            Ok((atom, end))
        },
        Err(e) => Err(e),
    }
}

/// `atom`, read from `pos`: a group, a wildcard or a literal, not yet
/// linked to anything.
pub open spec fn spec_atom(s: Seq<char>, pos: int) -> Result<(Node, int), ParseError>
    decreases s.len() - pos, 1nat,
{
    if !(0 <= pos < s.len()) || !starts_atom(s[pos]) {
        Err(ParseError::EmptyAlternative)
    } else if s[pos] == '(' {
        spec_group(s, pos)
    } else if s[pos] == '.' {
        Ok((Node::Dot { next: None }, pos + 1))
    } else {
        Ok((Node::Character { character: s[pos], next: None }, pos + 1))
    }
}

/// `group`, read from `pos`: a `(`, a pattern, and the `)` that must stand
/// where the pattern ends.
pub open spec fn spec_group(s: Seq<char>, pos: int) -> Result<(Node, int), ParseError>
    decreases s.len() - pos, 0nat,
{
    if 0 <= pos < s.len() && s[pos] == '(' {
        match spec_pattern(s, pos + 1, true) {
            Ok((inner, end)) => if 0 <= end < s.len() && s[end] == ')' {
                Ok((Node::Group { nfa: Box::new(inner), next: None }, end + 1))
            } else {
                Err(ParseError::UnbalancedGroup)
            },
            Err(e) => Err(e),
        }
    } else {
        Err(ParseError::UnbalancedGroup)
    }
}

/// The whole of `s` as one pattern.
pub open spec fn spec_parse(s: Seq<char>) -> Result<Node, ParseError> {
    match spec_pattern(s, 0, false) {
        Ok((node, end)) => if end == s.len() {
            Ok(node)
        } else {
            Err(ParseError::TrailingInput)
        },
        Err(e) => Err(e),
    }
}

/// The result of an executable parse, on the model.
pub open spec fn parsed_view(r: Result<(Box<NFA>, usize), ParseError>) -> Result<
    (Node, int),
    ParseError,
> {
    match r {
        Ok((nfa, end)) => Ok((nfa@, end as int)),
        Err(e) => Err(e),
    }
}

/// Whether an atom can begin with `c`.
pub fn can_start_atom(c: char) -> (r: bool)
    ensures
        r == starts_atom(c),
{
    c != '*' && c != ')' && c != '|'
}

/// A wildcard, where a `.` stands at `pos`.
pub fn dot(input: &[char], pos: usize) -> (r: Option<(Box<NFA>, usize)>)
    ensures
        r is Some <==> pos < input@.len() && input@[pos as int] == '.',
        r matches Some((nfa, end)) ==> nfa@ == (Node::Dot { next: None }) && end == pos + 1,
{
    if pos < input.len() && input[pos] == '.' {
        Some((NFA::dot(), pos + 1))
    } else {
        None
    }
}

/// A literal, where a character that is no metacharacter stands at `pos`.
pub fn character(input: &[char], pos: usize) -> (r: Option<(Box<NFA>, usize)>)
    ensures
        r is Some <==> pos < input@.len() && !is_meta(input@[pos as int]),
        r matches Some((nfa, end)) ==> nfa@ == (Node::Character {
            character: input@[pos as int],
            next: None,
        }) && end == pos + 1,
{
    if pos < input.len() {
        let c = input[pos];
        if c != '.' && c != '*' && c != '(' && c != ')' && c != '|' {
            return Some((NFA::character(c), pos + 1));
        }
    }
    None
}

/// A group at `pos`: a `(`, the pattern behind it and the `)` that closes
/// it.
pub fn group(input: &[char], pos: usize) -> (r: Result<(Box<NFA>, usize), ParseError>)
    ensures
        parsed_view(r) == spec_group(input@, pos as int),
        r matches Ok((_, end)) ==> pos < end <= input@.len(),
    decreases input@.len() - pos, 0nat,
{
    if pos >= input.len() || input[pos] != '(' {
        return Err(ParseError::UnbalancedGroup);
    }
    match parse_as_nfa(input, pos + 1, true) {
        Ok((nfa, end)) => {
            if end < input.len() && input[end] == ')' {
                Ok((NFA::group(nfa), end + 1))
            } else {
                Err(ParseError::UnbalancedGroup)
            }
        },
        Err(e) => Err(e),
    }
}

/// One repeatable at `pos`: an atom, wrapped in a repetition where a `*`
/// follows it.
pub fn maybe_repeat(input: &[char], pos: usize) -> (r: Result<(Box<NFA>, usize), ParseError>)
    ensures
        parsed_view(r) == spec_repeatable(input@, pos as int),
        r matches Ok((_, end)) ==> pos < end <= input@.len(),
    decreases input@.len() - pos, 2nat,
{
    if pos >= input.len() || !can_start_atom(input[pos]) {
        return Err(ParseError::EmptyAlternative);
    }
    let (partial, remain) = if input[pos] == '(' {
        match group(input, pos) {
            Ok(found) => found,
            Err(e) => {
                return Err(e);
            },
        }
    } else {
        match character(input, pos) {
            Some(found) => found,
            None => match dot(input, pos) {
                Some(found) => found,
                None => {
                    return Err(ParseError::EmptyAlternative);
                },
            },
        }
    };
    if remain < input.len() && input[remain] == '*' {
        let ghost atom = partial@;
        let states = vec![partial];
        proof {
            assert(chains_view(states) =~= seq![atom]);
        }
        let nfa = fold_nfa_states(states);
        Ok((NFA::repeat(nfa), remain + 1))
    } else {
        Ok((partial, remain))
    }
}

/// One alternative at `pos`: its repeatables, folded into a chain.
pub fn alternative(input: &[char], pos: usize, nested: bool) -> (r: Result<
    (Box<NFA>, usize),
    ParseError,
>)
    ensures
        parsed_view(r) == spec_alternative(input@, pos as int, nested),
        r matches Ok((_, end)) ==> pos < end <= input@.len(),
    decreases input@.len() - pos, 4nat,
{
    let mut states: Vec<Box<NFA>> = Vec::new();
    let mut at = pos;
    proof {
        assert(chains_view(states) =~= Seq::empty());
    }
    while at < input.len() && can_start_atom(input[at])
        invariant
            pos <= at,
            at <= input@.len() || at == pos,
            (at == pos) == (states@.len() == 0),
            spec_repeatables(input@, pos as int, Seq::empty()) == spec_repeatables(
                input@,
                at as int,
                chains_view(states),
            ),
        decreases input@.len() - at,
    {
        match maybe_repeat(input, at) {
            Ok((nfa, end)) => {
                let ghost before = chains_view(states);
                let ghost atom = nfa@;
                states.push(nfa);
                proof {
                    assert(chains_view(states) =~= before.push(atom));
                }
                at = end;
            },
            Err(e) => {
                return Err(e);
            },
        }
    }
    if states.len() == 0 {
        if nested && at >= input.len() {
            Err(ParseError::UnbalancedGroup)
        } else if !nested && at < input.len() && input[at] == ')' {
            Err(ParseError::UnbalancedGroup)
        } else {
            Err(ParseError::EmptyAlternative)
        }
    } else {
        Ok((fold_nfa_states(states), at))
    }
}

/// One pattern at `pos`: its alternatives, wrapped in a choice where there
/// are two or more.
pub fn maybe_choice(input: &[char], pos: usize, nested: bool) -> (r: Result<
    (Box<NFA>, usize),
    ParseError,
>)
    ensures
        parsed_view(r) == spec_pattern(input@, pos as int, nested),
        r matches Ok((_, end)) ==> pos < end <= input@.len(),
    decreases input@.len() - pos, 6nat,
{
    let mut choices: Vec<Box<NFA>> = Vec::new();
    let mut at = pos;
    proof {
        assert(chains_view(choices) =~= Seq::empty());
    }
    loop
        invariant
            pos <= at,
            at <= input@.len() || at == pos,
            spec_alternatives(input@, pos as int, nested, Seq::empty()) == spec_alternatives(
                input@,
                at as int,
                nested,
                chains_view(choices),
            ),
        decreases input@.len() - at,
    {
        match alternative(input, at, nested) {
            Ok((nfa, end)) => {
                let ghost before = chains_view(choices);
                let ghost chain = nfa@;
                choices.push(nfa);
                proof {
                    assert(chains_view(choices) =~= before.push(chain));
                }
                if end < input.len() && input[end] == '|' {
                    at = end + 1;
                } else if choices.len() == 1 {
                    let first = choices.pop().unwrap();
                    return Ok((first, end));
                } else {
                    let ghost chains = chains_view(choices);
                    let states = vec![NFA::choice(choices)];
                    proof {
                        assert(chains_view(states) =~= seq![
                            Node::Choice { choices: chains, next: None },
                        ]);
                    }
                    return Ok((fold_nfa_states(states), end));
                }
            },
            Err(e) => {
                return Err(e);
            },
        }
    }
}

/// One pattern at `pos`; `nested` says whether a group is open around it.
pub fn parse_as_nfa(input: &[char], pos: usize, nested: bool) -> (r: Result<
    (Box<NFA>, usize),
    ParseError,
>)
    ensures
        parsed_view(r) == spec_pattern(input@, pos as int, nested),
        r matches Ok((_, end)) ==> pos < end <= input@.len(),
    decreases input@.len() - pos, 7nat,
{
    maybe_choice(input, pos, nested)
}

} // verus!
