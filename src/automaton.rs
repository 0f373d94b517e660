use std::collections::HashSet;
use std::hash::Hash;
use vstd::prelude::*;

verus! {

/// A type whose values are the states of an automaton.
pub trait State {}

/// A type whose values are the input symbols of an automaton.
pub trait Alphabet {}

impl<T: Eq + PartialEq + Hash + Copy + Clone> State for T {}

impl<T: Copy + Clone> Alphabet for T {}

/// An alphabet with a distinguished empty symbol.
pub trait Epsilon: Alphabet + Sized {
    fn epsilon() -> Self;
}

/// Why a transition or an acceptance query did not produce a state.
///
/// A rejection is ordinary data: every query returns it as a value, and none
/// of them aborts.
#[derive(Debug, Clone, Copy, PartialEq, Eq)]
pub enum Reject<S, I> {
    /// The state is not an accepting one.
    NotAccept(S),
    /// No transition leaves the current state on this symbol.
    InvalidInput(I),
    /// The automaton cannot go on at all.
    ThisCannotContinue,
}

/// A type is an automaton over the state type `S`; the other capabilities
/// build on this one.
pub trait Automaton<S: State> {}

/// An automaton with a single initial state and at most one successor for
/// each pair of state and symbol.
///
/// `delta` is total and pure: every pair gives a successor or a rejection,
/// and the same pair always gives the same answer.
pub trait Deterministic<S: State, I: Alphabet>: Automaton<S> {
    fn initial() -> S;

    fn delta(state: &S, input: I) -> Result<S, Reject<S, I>>;
}

/// An automaton that tracks a set of active states at once.
///
/// `delta` returns the union of the successors of the active states; where
/// that union is empty, no path survives and the result is
/// `Err(Reject::InvalidInput(input))` rather than an empty set.
pub trait NonDeterministic<S: State, I: Alphabet>: Automaton<S> {
    fn initial() -> HashSet<S>;

    fn delta(states: &HashSet<S>, input: I) -> Result<HashSet<S>, Reject<S, I>>;
}

/// Classifies states as accepting (the state comes back) or not
/// (`Reject::NotAccept`).
pub trait Acceptor<S: State>: Automaton<S> {
    fn accept(state: &S) -> Result<S, Reject<S, ()>>;
}

/// An automaton whose transitions also produce an output value.
pub trait Transducer<S: State, I: Alphabet, O>: Automaton<S> {
    fn omega(state: &S, input: O) -> Result<O, Reject<S, I>>;
}

} // verus!
