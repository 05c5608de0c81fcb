//! A minimal regular-expression engine: a recursive-descent parser that
//! builds a tree of self-terminated node chains, and a backtracking matcher
//! that walks such a tree over a sequence of characters.
//!
//! Every executable function carries a contract over the mathematical model
//! [`node::Node`], and the contracts are proved. Beside them stand proofs of
//! what the functions give together: compiled graphs are complete chains
//! ([`shape`]) that spell out their pattern ([`text`]), a reported match is a
//! word of the chain ([`language`]), and the laws of [`laws`].

pub mod node;
pub mod builder;
pub mod matcher;
pub mod parser;
pub mod regex;
pub mod shape;
pub mod language;
pub mod text;
pub mod laws;

pub use builder::fold_nfa_states;
pub use matcher::MatchError;
pub use node::NFA;
pub use parser::ParseError;
pub use regex::{Regex, RECURSION_LIMIT};
