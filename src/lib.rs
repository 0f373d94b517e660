//! Finite-state automata whose transitions and accepting states are read
//! from declarative sources: the capability traits that automata implement,
//! a reader for the source notation, a compiler from sources to total
//! transition tables and acceptance predicates, and a bounded cache of
//! source texts.
use vstd::prelude::*;

pub mod automaton;
pub mod names;
pub mod lexer;
pub mod source;
pub mod parser;
pub mod compile;
pub mod cache;
pub mod machine;

verus! {

} // verus!
