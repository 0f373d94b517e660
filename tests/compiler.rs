use nier::automaton::Reject;
use nier::compile::{compile_acceptance, compile_transitions, CompileError};
use nier::source::{AcceptanceSpec, Transition, TransitionSpec};

fn names(v: &[&str]) -> Vec<String> {
    v.iter().map(|s| s.to_string()).collect()
}

fn tr(from: &str, symbol: &str, to: &str) -> Transition {
    Transition { from: from.to_string(), symbol: symbol.to_string(), to: to.to_string() }
}

fn spec(initial: &str, ts: Vec<Transition>) -> TransitionSpec {
    TransitionSpec { initial_state: initial.to_string(), transitions: ts }
}

#[test]
fn compiles_listed_transitions() {
    let src = spec("Zero", vec![tr("Zero", "A", "One"), tr("Zero", "B", "Zero"), tr("One", "B", "One")]);
    let t = compile_transitions(&src, &names(&["Zero", "One"]), &names(&["A", "B"])).unwrap();
    assert_eq!(t.initial(), 0);
    assert_eq!(t.delta(0, 0), Ok(1));
    assert_eq!(t.delta(0, 1), Ok(0));
    assert_eq!(t.delta(1, 1), Ok(1));
    assert_eq!(t.delta(1, 0), Err(Reject::InvalidInput(0)));
    assert_eq!(t.state_index(&"One".to_string()), Some(1));
    assert_eq!(t.symbol_index(&"C".to_string()), None);
}

#[test]
fn initial_state_follows_source() {
    let src = spec("One", vec![]);
    let t = compile_transitions(&src, &names(&["Zero", "One"]), &names(&["A"])).unwrap();
    assert_eq!(t.initial(), 1);
    assert_eq!(t.delta(1, 0), Err(Reject::InvalidInput(0)));
}

#[test]
fn conflicting_transitions_fail() {
    let src = spec("Zero", vec![tr("Zero", "A", "One"), tr("Zero", "A", "Zero")]);
    let r = compile_transitions(&src, &names(&["Zero", "One"]), &names(&["A", "B"]));
    assert_eq!(
        r.err(),
        Some(CompileError::ConflictingTransition { state: "Zero".to_string(), symbol: "A".to_string() })
    );
}

#[test]
fn repeated_transition_is_no_conflict() {
    let src = spec("Zero", vec![tr("Zero", "A", "One"), tr("Zero", "A", "One")]);
    let t = compile_transitions(&src, &names(&["Zero", "One"]), &names(&["A"])).unwrap();
    assert_eq!(t.delta(0, 0), Ok(1));
}

#[test]
fn unknown_names_fail() {
    let states = names(&["Zero", "One"]);
    let symbols = names(&["A", "B"]);
    let r = compile_transitions(&spec("Two", vec![]), &states, &symbols);
    assert_eq!(r.err(), Some(CompileError::UnknownName("Two".to_string())));
    let r = compile_transitions(&spec("Zero", vec![tr("Zero", "C", "One")]), &states, &symbols);
    assert_eq!(r.err(), Some(CompileError::UnknownName("C".to_string())));
    let r = compile_transitions(&spec("Zero", vec![tr("Zero", "A", "Three")]), &states, &symbols);
    assert_eq!(r.err(), Some(CompileError::UnknownName("Three".to_string())));
    let r = compile_transitions(&spec("Zero", vec![tr("Four", "A", "One")]), &states, &symbols);
    assert_eq!(r.err(), Some(CompileError::UnknownName("Four".to_string())));
}

#[test]
fn duplicate_declared_names_fail() {
    let r = compile_transitions(&spec("Zero", vec![]), &names(&["Zero", "Zero"]), &names(&["A"]));
    assert_eq!(r.err(), Some(CompileError::DuplicateName("Zero".to_string())));
    let r = compile_transitions(&spec("Zero", vec![]), &names(&["Zero"]), &names(&["A", "B", "A"]));
    assert_eq!(r.err(), Some(CompileError::DuplicateName("A".to_string())));
    let r = compile_acceptance(&AcceptanceSpec { accept_states: vec![] }, &names(&["X", "X"]));
    assert_eq!(r.err(), Some(CompileError::DuplicateName("X".to_string())));
}

#[test]
fn acceptance_classifies_every_state() {
    let src = AcceptanceSpec { accept_states: names(&["One"]) };
    let c = compile_acceptance(&src, &names(&["Zero", "One"])).unwrap();
    assert_eq!(c.accept(0), Err(Reject::NotAccept(0)));
    assert_eq!(c.accept(1), Ok(1));
    assert_eq!(c.accept(2), Err(Reject::ThisCannotContinue));
}

#[test]
fn acceptance_with_no_states() {
    let src = AcceptanceSpec { accept_states: vec![] };
    let c = compile_acceptance(&src, &names(&["Zero", "One"])).unwrap();
    assert_eq!(c.accept(0), Err(Reject::NotAccept(0)));
    assert_eq!(c.accept(1), Err(Reject::NotAccept(1)));
}

#[test]
fn acceptance_unknown_state_fails() {
    let src = AcceptanceSpec { accept_states: names(&["One", "Two"]) };
    let r = compile_acceptance(&src, &names(&["Zero", "One"]));
    assert_eq!(r.err(), Some(CompileError::UnknownName("Two".to_string())));
}
