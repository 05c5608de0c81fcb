//! The compiled pattern and its two operations: `parse` and `test`.

use vstd::prelude::*;
use vstd::string::*;
use crate::matcher::{spec_test, MatchError};
use crate::node::{Node, NFA};
use crate::parser::{parse_as_nfa, spec_parse, ParseError};
use crate::shape::{complete, lemma_parse_complete};
use crate::text::{law_graph_spells_pattern, spec_text};

verus! {

/// The depth budget of [`Regex::test`].
pub const RECURSION_LIMIT: usize = 1024;

/// A compiled pattern: the root chain of its graph.
#[derive(Debug)]
pub struct Regex {
    pub nfa: Box<NFA>,
}

/// Whether walking `node` over `input` from its first character reaches the
/// chain's `Accept` within `depth` levels. What follows the consumed prefix
/// does not matter.
pub open spec fn spec_matches(node: Node, input: Seq<char>, depth: nat) -> bool {
    spec_test(node, input, 0, depth) matches Ok(Some(_))
}

/// The characters of `s`, in order.
pub fn to_chars(s: &str) -> (r: Vec<char>)
    ensures
        r@ == s@,
{
    let len = s.unicode_len();
    let mut chars: Vec<char> = Vec::new();
    let mut i: usize = 0;
    while i < len
        invariant
            len == s@.len(),
            i <= len,
            chars@ == s@.subrange(0, i as int),
        decreases len - i,
    {
        chars.push(s.get_char(i));
        i += 1;
        proof {
            assert(chars@ =~= s@.subrange(0, i as int));
        }
    }
    proof {
        assert(s@.subrange(0, len as int) =~= s@);
    }
    chars
}

impl Regex {
    /// The model of the pattern: that of its root chain.
    pub open spec fn view(&self) -> Node {
        self.nfa@
    }

    /// Whether the graph is a complete chain, as every compiled one is.
    pub open spec fn wf(&self) -> bool {
        complete(self@)
    }

    /// Compiles the pattern `input`, all of it. The graph is complete and
    /// spells out `input`.
    pub fn parse(input: &str) -> (r: Result<Regex, ParseError>)
        ensures
            match r {
                Ok(re) => spec_parse(input@) == Ok::<Node, ParseError>(re@) && re.wf()
                    && spec_text(re@) == input@,
                Err(e) => spec_parse(input@) == Err::<Node, ParseError>(e),
            },
    {
        proof {
            lemma_parse_complete(input@);
            law_graph_spells_pattern(input@);
        }
        let chars = to_chars(input);
        match parse_as_nfa(chars.as_slice(), 0, false) {
            Ok((nfa, end)) => {
                if end == chars.len() {
                    Ok(Regex { nfa })
                } else {
                    Err(ParseError::TrailingInput)
                }
            },
            Err(e) => Err(e),
        }
    }

    /// Whether the pattern matches a prefix of `input`, within a budget of
    /// `depth` nested calls; an error where the budget does not suffice.
    pub fn test_with_limit(&self, input: &str, depth: usize) -> (r: Result<bool, MatchError>)
        ensures
            match r {
                Ok(found) => found == spec_matches(self@, input@, depth as nat) && spec_test(
                    self@,
                    input@,
                    0,
                    depth as nat,
                ) is Ok,
                Err(e) => spec_test(self@, input@, 0, depth as nat) == Err::<Option<int>, MatchError>(e),
            },
    {
        let chars = to_chars(input);
        match self.nfa.test(chars.as_slice(), 0, depth) {
            Ok(rest) => Ok(rest.is_some()),
            Err(e) => Err(e),
        }
    }

    /// Whether the pattern matches a prefix of `input` within
    /// [`RECURSION_LIMIT`] nested calls. A walk that needs more counts as no
    /// match.
    pub fn test(&self, input: &str) -> (r: bool)
        ensures
            r == spec_matches(self@, input@, RECURSION_LIMIT as nat),
    {
        match self.test_with_limit(input, RECURSION_LIMIT) {
            Ok(found) => found,
            Err(_) => false,
        }
    }
}

} // verus!
