use crate::automaton::Reject;
use crate::compile::{
    acceptance_describes, acceptance_refs_declared, compile_acceptance, compile_transitions,
    has_conflict, table_describes, transition_refs_declared, CompileError, CompiledAcceptance,
    CompiledTable,
};
use crate::lexer::lex;
use crate::names::distinct;
use crate::parser::{
    acceptance_toks, is_acceptance_text, is_transition_text, parse_acceptance_spec,
    parse_transition_spec, strs_of, transition_toks, triples_of, ParseError,
};
use crate::source::{AcceptanceSpec, TransitionSpec};
use vstd::prelude::*;

verus! {

/// The settings that name an automaton's state type, alphabet type and
/// source file.
#[derive(Debug, Clone)]
pub struct AutomatonConfig {
    pub state: Option<String>,
    pub alphabet: Option<String>,
    pub source: Option<String>,
}

/// The name held by an optional string.
pub open spec fn opt_name(o: Option<String>) -> Option<Seq<char>> {
    match o {
        Some(s) => Some(s@),
        None => None,
    }
}

/// The value of the last setting named `key`, if there is one.
pub open spec fn setting(attrs: Seq<(String, String)>, key: Seq<char>) -> Option<Seq<char>>
    decreases attrs.len(),
{
    if attrs.len() == 0 {
        None
    } else if attrs.last().0@ == key {
        Some(attrs.last().1@)
    } else {
        setting(attrs.drop_last(), key)
    }
}

impl AutomatonConfig {
    /// Collects the settings `state`, `alphabet` and `source` from a list of
    /// name and value pairs; a later pair wins over an earlier one of the
    /// same name, and other names are ignored.
    pub fn from_attrs(attrs: &Vec<(String, String)>) -> (r: AutomatonConfig)
        ensures
            opt_name(r.state) == setting(attrs@, "state"@),
            opt_name(r.alphabet) == setting(attrs@, "alphabet"@),
            opt_name(r.source) == setting(attrs@, "source"@),
    {
        let state_key = "state".to_owned();
        let alphabet_key = "alphabet".to_owned();
        let source_key = "source".to_owned();
        let mut r = AutomatonConfig { state: None, alphabet: None, source: None };
        let mut i: usize = 0;
        while i < attrs.len()
            invariant
                i <= attrs.len(),
                state_key@ == "state"@,
                alphabet_key@ == "alphabet"@,
                source_key@ == "source"@,
                opt_name(r.state) == setting(attrs@.subrange(0, i as int), "state"@),
                opt_name(r.alphabet) == setting(attrs@.subrange(0, i as int), "alphabet"@),
                opt_name(r.source) == setting(attrs@.subrange(0, i as int), "source"@),
            decreases attrs.len() - i,
        {
            let ghost next = attrs@.subrange(0, i + 1);
            assert(next.drop_last() =~= attrs@.subrange(0, i as int));
            assert(next.last() == attrs@[i as int]);
            let (name, value) = &attrs[i];
            if *name == state_key {
                r.state = Some(value.clone());
            }
            if *name == alphabet_key {
                r.alphabet = Some(value.clone());
            }
            if *name == source_key {
                r.source = Some(value.clone());
            }
            i = i + 1;
        }
        assert(attrs@.subrange(0, attrs.len() as int) =~= attrs@);
        r
    }
}

/// A setting that an automaton cannot be built without.
#[derive(Debug, Clone, Copy, PartialEq, Eq)]
pub enum ConfigKey {
    State,
    Alphabet,
    Source,
}

/// Why an automaton could not be built.
#[derive(Debug, Clone, PartialEq, Eq)]
pub enum BuildError {
    MissingKey(ConfigKey),
    Parse(ParseError),
    Compile(CompileError),
}

/// An automaton built from sources: its transition table and, where an
/// acceptance source was given, its accepting states.
pub struct GeneratedAutomaton {
    state_type: String,
    alphabet_type: String,
    table: CompiledTable,
    acceptance: Option<CompiledAcceptance>,
}

impl GeneratedAutomaton {
    pub closed spec fn table(&self) -> CompiledTable {
        self.table
    }

    pub closed spec fn acceptance(&self) -> Option<CompiledAcceptance> {
        self.acceptance
    }

    pub closed spec fn state_type_name(&self) -> Seq<char> {
        self.state_type@
    }

    pub closed spec fn alphabet_type_name(&self) -> Seq<char> {
        self.alphabet_type@
    }

    pub open spec fn wf(&self) -> bool {
        &&& self.table().wf()
        &&& self.acceptance() matches Some(c) ==> c.wf()
    }

    /// What `accept` returns.
    pub open spec fn spec_accept(&self, s: usize) -> Result<usize, Reject<usize, ()>> {
        match self.acceptance() {
            Some(c) => c.spec_accept(s),
            None => Err(Reject::ThisCannotContinue),
        }
    }

    /// The name of the state type.
    pub fn state_type(&self) -> (r: &String)
        ensures
            r@ == self.state_type_name(),
    {
        &self.state_type
    }

    /// The name of the alphabet type.
    pub fn alphabet_type(&self) -> (r: &String)
        ensures
            r@ == self.alphabet_type_name(),
    {
        &self.alphabet_type
    }

    pub fn initial(&self) -> (r: usize)
        requires
            self.wf(),
        ensures
            r == self.table().initial_state(),
    {
        self.table.initial()
    }

    pub fn delta(&self, state: usize, symbol: usize) -> (r: Result<usize, Reject<usize, usize>>)
        requires
            self.wf(),
        ensures
            r == self.table().spec_delta(state, symbol),
    {
        self.table.delta(state, symbol)
    }

    /// Classifies a state; an automaton built without an acceptance source
    /// cannot classify any (`ThisCannotContinue`).
    pub fn accept(&self, state: usize) -> (r: Result<usize, Reject<usize, ()>>)
        requires
            self.wf(),
        ensures
            r == self.spec_accept(state),
    {
        match &self.acceptance {
            Some(c) => c.accept(state),
            None => Err(Reject::ThisCannotContinue),
        }
    }

    /// The position of the state named `name`.
    pub fn state_id(&self, name: &String) -> (r: Option<usize>)
        ensures
            match r {
                Some(i) => i < self.table().state_names().len() && self.table().state_names()[i as int]@
                    == name@,
                None => !crate::names::declares(self.table().state_names(), name@),
            },
    {
        self.table.state_index(name)
    }

    /// The position of the symbol named `name`.
    pub fn symbol_id(&self, name: &String) -> (r: Option<usize>)
        ensures
            match r {
                Some(i) => i < self.table().symbol_names().len()
                    && self.table().symbol_names()[i as int]@ == name@,
                None => !crate::names::declares(self.table().symbol_names(), name@),
            },
    {
        self.table.symbol_index(name)
    }

    /// The name of the state at position `state`.
    pub fn state_name(&self, state: usize) -> (r: Option<String>)
        ensures
            match r {
                Some(n) => state < self.table().state_names().len() && n@ == self.table().state_names()[state as int]@,
                None => state >= self.table().state_names().len(),
            },
    {
        self.table.state_name(state)
    }
}

/// `src` is what the text reads as.
pub open spec fn reads_as_transitions(text: Seq<char>, src: TransitionSpec) -> bool {
    lex(text) == Some(transition_toks(src.initial_state@, triples_of(src.transitions@)))
}

/// `src` is what the text reads as.
pub open spec fn reads_as_acceptance(text: Seq<char>, src: AcceptanceSpec) -> bool {
    lex(text) == Some(acceptance_toks(strs_of(src.accept_states@)))
}

/// The transition source compiles against the declared names.
pub open spec fn transitions_compile(src: TransitionSpec, states: Seq<String>, symbols: Seq<String>) -> bool {
    distinct(states) && distinct(symbols) && transition_refs_declared(src, states, symbols)
        && !has_conflict(src.transitions@)
}

/// The acceptance source compiles against the declared state names.
pub open spec fn acceptance_compiles(src: AcceptanceSpec, states: Seq<String>) -> bool {
    distinct(states) && acceptance_refs_declared(src, states)
}

/// Builds an automaton from the text of its transition source and, if given,
/// of its acceptance source, over the declared state and symbol names.
///
/// The settings `state` and `alphabet` must be present; then both texts
/// must read as sources; then both must compile. The first failing step
/// gives the error.
pub fn build_automaton(
    config: &AutomatonConfig,
    states: &Vec<String>,
    symbols: &Vec<String>,
    transition_text: &str,
    acceptance_text: Option<&str>,
) -> (r: Result<GeneratedAutomaton, BuildError>)
    ensures
        config.state is None ==> r == Err::<GeneratedAutomaton, BuildError>(
            BuildError::MissingKey(ConfigKey::State),
        ),
        config.state is Some && config.alphabet is None ==> r == Err::<
            GeneratedAutomaton,
            BuildError,
        >(BuildError::MissingKey(ConfigKey::Alphabet)),
        r matches Err(BuildError::MissingKey(_)) ==> config.state is None || config.alphabet is None,
        r matches Err(BuildError::Parse(_)) <==> config.state is Some && config.alphabet is Some && (
        !is_transition_text(transition_text@) || (acceptance_text matches Some(a)
            && !is_acceptance_text(a@))),
        r matches Err(BuildError::Compile(_)) ==> config.state is Some && config.alphabet is Some
            && exists|src: TransitionSpec|
            #[trigger] reads_as_transitions(transition_text@, src) && (!transitions_compile(
                src,
                states@,
                symbols@,
            ) || (acceptance_text matches Some(a) && exists|acc: AcceptanceSpec|
                #[trigger] reads_as_acceptance(a@, acc) && !acceptance_compiles(acc, states@))),
        r matches Ok(m) ==> {
            &&& m.wf()
            &&& opt_name(config.state) == Some(m.state_type_name())
            &&& opt_name(config.alphabet) == Some(m.alphabet_type_name())
            &&& exists|src: TransitionSpec|
                #[trigger] reads_as_transitions(transition_text@, src) && transitions_compile(
                    src,
                    states@,
                    symbols@,
                ) && table_describes(m.table(), src, states@, symbols@)
            &&& (acceptance_text is None <==> m.acceptance() is None)
            &&& acceptance_text matches Some(a) ==> exists|acc: AcceptanceSpec|
                #[trigger] reads_as_acceptance(a@, acc) && acceptance_compiles(acc, states@)
                    && acceptance_describes(m.acceptance()->Some_0, acc, states@)
        },
{
    let state_type = match &config.state {
        Some(s) => s.clone(),
        None => return Err(BuildError::MissingKey(ConfigKey::State)),
    };
    let alphabet_type = match &config.alphabet {
        Some(s) => s.clone(),
        None => return Err(BuildError::MissingKey(ConfigKey::Alphabet)),
    };
    let tsrc = match parse_transition_spec(transition_text) {
        Ok(src) => src,
        Err(e) => return Err(BuildError::Parse(e)),
    };
    assert(reads_as_transitions(transition_text@, tsrc));
    let asrc = match acceptance_text {
        Some(a) => match parse_acceptance_spec(a) {
            Ok(src) => {
                assert(reads_as_acceptance(a@, src));
                Some(src)
            },
            Err(e) => return Err(BuildError::Parse(e)),
        },
        None => None,
    };
    let table = match compile_transitions(&tsrc, states, symbols) {
        Ok(t) => t,
        Err(e) => return Err(BuildError::Compile(e)),
    };
    let acceptance = match &asrc {
        Some(src) => match compile_acceptance(src, states) {
            Ok(c) => Some(c),
            Err(e) => {
                assert(!acceptance_compiles(*src, states@));
                return Err(BuildError::Compile(e));
            },
        },
        None => None,
    };
    Ok(GeneratedAutomaton { state_type, alphabet_type, table, acceptance })
}

} // verus!
