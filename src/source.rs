use vstd::prelude::*;

verus! {

/// One transition of a declarative source: from the state named `from`, on
/// the symbol named `symbol`, to the state named `to`.
#[derive(Debug, Clone)]
pub struct Transition {
    pub from: String,
    pub symbol: String,
    pub to: String,
}

impl View for Transition {
    type V = (Seq<char>, Seq<char>, Seq<char>);

    open spec fn view(&self) -> Self::V {
        (self.from@, self.symbol@, self.to@)
    }
}

/// What a transition source declares: the initial state and the transition
/// relation, still by name.
///
/// The relation is read as a set: a transition listed twice counts once.
#[derive(Debug, Clone)]
pub struct TransitionSpec {
    pub initial_state: String,
    pub transitions: Vec<Transition>,
}

/// What an acceptance source declares: the accepting states, by name.
#[derive(Debug, Clone)]
pub struct AcceptanceSpec {
    pub accept_states: Vec<String>,
}

} // verus!
