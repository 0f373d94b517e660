use nier::automaton::{Acceptor, Automaton, Deterministic, Reject};
use nier::machine::{build_automaton, AutomatonConfig, BuildError, ConfigKey, GeneratedAutomaton};

const TRANSITIONS: &str = r#"(
    initial_state: "Zero",
    transitions: [("Zero", "A", "One"), ("Zero", "B", "Zero"), ("One", "B", "One")]
)"#;

const ACCEPTANCE: &str = r#"(accept_states: ["One"])"#;

fn names(v: &[&str]) -> Vec<String> {
    v.iter().map(|s| s.to_string()).collect()
}

fn config() -> AutomatonConfig {
    AutomatonConfig {
        state: Some("SimpleState".to_string()),
        alphabet: Some("SimpleAlphabet".to_string()),
        source: Some("dfa.ron".to_string()),
    }
}

fn simple() -> GeneratedAutomaton {
    build_automaton(
        &config(),
        &names(&["Zero", "One"]),
        &names(&["A", "B"]),
        TRANSITIONS,
        Some(ACCEPTANCE),
    )
    .unwrap()
}

#[test]
fn generated_scenario() {
    let m = simple();
    let zero = m.state_id(&"Zero".to_string()).unwrap();
    let one = m.state_id(&"One".to_string()).unwrap();
    let a = m.symbol_id(&"A".to_string()).unwrap();
    let b = m.symbol_id(&"B".to_string()).unwrap();
    assert_eq!(m.initial(), zero);
    assert_eq!(m.delta(zero, a), Ok(one));
    assert_eq!(m.delta(one, a), Err(Reject::InvalidInput(a)));
    assert_eq!(m.accept(one), Ok(one));
    assert_eq!(m.accept(zero), Err(Reject::NotAccept(zero)));
    let mut current = m.initial();
    current = m.delta(current, a).unwrap();
    current = m.delta(current, b).unwrap();
    assert_eq!(current, one);
    assert_eq!(m.accept(current), Ok(one));
    assert_eq!(m.state_name(current), Some("One".to_string()));
    assert_eq!(m.state_type(), "SimpleState");
    assert_eq!(m.alphabet_type(), "SimpleAlphabet");
}

#[test]
fn generated_delta_is_total() {
    let m = simple();
    for s in 0..2 {
        for a in 0..2 {
            match m.delta(s, a) {
                Ok(t) => assert!(t < 2),
                Err(e) => assert_eq!(e, Reject::InvalidInput(a)),
            }
        }
    }
}

#[test]
fn generated_delta_is_repeatable() {
    let m = simple();
    for s in 0..3 {
        for a in 0..3 {
            assert_eq!(m.delta(s, a), m.delta(s, a));
        }
    }
}

#[test]
fn positions_out_of_range_cannot_continue() {
    let m = simple();
    assert_eq!(m.delta(2, 0), Err(Reject::ThisCannotContinue));
    assert_eq!(m.delta(0, 2), Err(Reject::ThisCannotContinue));
    assert_eq!(m.accept(5), Err(Reject::ThisCannotContinue));
    assert_eq!(m.state_name(2), None);
}

#[test]
fn without_acceptance_source_nothing_is_classified() {
    let m = build_automaton(
        &config(),
        &names(&["Zero", "One"]),
        &names(&["A", "B"]),
        TRANSITIONS,
        None,
    )
    .unwrap();
    assert_eq!(m.accept(1), Err(Reject::ThisCannotContinue));
    assert_eq!(m.delta(0, 0), Ok(1));
}

#[test]
fn builder_requires_state_and_alphabet() {
    let mut c = config();
    c.state = None;
    let r = build_automaton(&c, &names(&["Zero"]), &names(&["A"]), TRANSITIONS, None);
    assert_eq!(r.err(), Some(BuildError::MissingKey(ConfigKey::State)));
    let mut c = config();
    c.alphabet = None;
    let r = build_automaton(&c, &names(&["Zero"]), &names(&["A"]), TRANSITIONS, None);
    assert_eq!(r.err(), Some(BuildError::MissingKey(ConfigKey::Alphabet)));
}

#[test]
fn builder_reports_parse_errors() {
    let r = build_automaton(
        &config(),
        &names(&["Zero", "One"]),
        &names(&["A", "B"]),
        "(initial_state: \"Zero\")",
        None,
    );
    assert!(matches!(r, Err(BuildError::Parse(_))));
    let r = build_automaton(
        &config(),
        &names(&["Zero", "One"]),
        &names(&["A", "B"]),
        TRANSITIONS,
        Some("(accept: [\"One\"])"),
    );
    assert!(matches!(r, Err(BuildError::Parse(_))));
}

#[test]
fn builder_reports_compile_errors() {
    let r = build_automaton(
        &config(),
        &names(&["Zero"]),
        &names(&["A", "B"]),
        TRANSITIONS,
        None,
    );
    assert!(matches!(r, Err(BuildError::Compile(_))));
    let r = build_automaton(
        &config(),
        &names(&["Zero", "One"]),
        &names(&["A", "B"]),
        TRANSITIONS,
        Some("(accept_states: [\"Two\"])"),
    );
    assert!(matches!(r, Err(BuildError::Compile(_))));
}

#[test]
fn config_from_attrs_keeps_known_keys() {
    let attrs = vec![
        ("state".to_string(), "S1".to_string()),
        ("other".to_string(), "x".to_string()),
        ("alphabet".to_string(), "Abc".to_string()),
        ("state".to_string(), "S2".to_string()),
    ];
    let c = AutomatonConfig::from_attrs(&attrs);
    assert_eq!(c.state, Some("S2".to_string()));
    assert_eq!(c.alphabet, Some("Abc".to_string()));
    assert_eq!(c.source, None);
    let c = AutomatonConfig::from_attrs(&vec![("source".to_string(), "f.ron".to_string())]);
    assert_eq!(c.source, Some("f.ron".to_string()));
    assert_eq!(c.state, None);
}

#[derive(Debug, Hash, Eq, PartialEq, Copy, Clone)]
enum SimpleState {
    Zero,
    One,
}

#[derive(Debug, Copy, Clone, PartialEq)]
enum SimpleAlphabet {
    A,
    B,
}

struct Machine {
    current: SimpleState,
}

impl Automaton<SimpleState> for Machine {}

impl Deterministic<SimpleState, SimpleAlphabet> for Machine {
    fn initial() -> SimpleState {
        SimpleState::Zero
    }

    fn delta(
        state: &SimpleState,
        input: SimpleAlphabet,
    ) -> Result<SimpleState, Reject<SimpleState, SimpleAlphabet>> {
        match (state, input) {
            (SimpleState::Zero, SimpleAlphabet::A) => Ok(SimpleState::One),
            (SimpleState::Zero, SimpleAlphabet::B) => Ok(SimpleState::Zero),
            (SimpleState::One, SimpleAlphabet::B) => Ok(SimpleState::One),
            _ => Err(Reject::InvalidInput(input)),
        }
    }
}

impl Acceptor<SimpleState> for Machine {
    fn accept(current: &SimpleState) -> Result<SimpleState, Reject<SimpleState, ()>> {
        match current {
            SimpleState::Zero => Err(Reject::NotAccept(*current)),
            SimpleState::One => Ok(*current),
        }
    }
}

#[test]
fn hand_written_machine() {
    let mut machine = Machine { current: Machine::initial() };
    assert_eq!(machine.current, SimpleState::Zero);
    machine.current = Machine::delta(&machine.current, SimpleAlphabet::A).unwrap();
    assert_eq!(machine.current, SimpleState::One);
    assert!(Machine::accept(&machine.current).is_ok());
    machine.current = Machine::delta(&machine.current, SimpleAlphabet::B).unwrap();
    assert_eq!(machine.current, SimpleState::One);
    assert_eq!(
        Machine::delta(&machine.current, SimpleAlphabet::A),
        Err(Reject::InvalidInput(SimpleAlphabet::A))
    );
    assert_eq!(Machine::accept(&SimpleState::Zero), Err(Reject::NotAccept(SimpleState::Zero)));
    machine.current = Machine::initial();
    assert_eq!(machine.current, SimpleState::Zero);
}
