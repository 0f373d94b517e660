use crate::automaton::Reject;
use crate::names::{declares, distinct, index_of, lemma_distinct_index, repeated_name};
use crate::source::{AcceptanceSpec, Transition, TransitionSpec};
use vstd::prelude::*;

verus! {

/// Why a source could not be compiled against the declared states and
/// symbols.
#[derive(Debug, Clone, PartialEq, Eq)]
pub enum CompileError {
    /// A declared state or symbol name is listed twice.
    DuplicateName(String),
    /// The source names a state or symbol that is not declared.
    UnknownName(String),
    /// Two transitions leave `state` on `symbol` for different states.
    ConflictingTransition { state: String, symbol: String },
}

/// `n` is listed at two different places of `v`.
pub open spec fn repeated(v: Seq<String>, n: Seq<char>) -> bool {
    exists|i: int, j: int|
        0 <= i < v.len() && 0 <= j < v.len() && i != j && #[trigger] v[i]@ == n && #[trigger] v[j]@
            == n
}

/// The names of one transition are declared.
pub open spec fn transition_declared(t: Transition, states: Seq<String>, symbols: Seq<String>) -> bool {
    &&& declares(states, t.from@)
    &&& declares(symbols, t.symbol@)
    &&& declares(states, t.to@)
}

/// Every name that a transition source uses is declared.
pub open spec fn transition_refs_declared(
    src: TransitionSpec,
    states: Seq<String>,
    symbols: Seq<String>,
) -> bool {
    &&& declares(states, src.initial_state@)
    &&& forall|i: int|
        0 <= i < src.transitions.len() ==> #[trigger] transition_declared(
            src.transitions@[i],
            states,
            symbols,
        )
}

/// `n` is used by the transition `t` and is not declared in its role.
pub open spec fn unknown_in_transition(
    t: Transition,
    states: Seq<String>,
    symbols: Seq<String>,
    n: Seq<char>,
) -> bool {
    ||| (t.from@ == n && !declares(states, n))
    ||| (t.symbol@ == n && !declares(symbols, n))
    ||| (t.to@ == n && !declares(states, n))
}

/// `n` is used by the transition source and is not declared in its role.
pub open spec fn unknown_in_transition_spec(
    src: TransitionSpec,
    states: Seq<String>,
    symbols: Seq<String>,
    n: Seq<char>,
) -> bool {
    ||| (src.initial_state@ == n && !declares(states, n))
    ||| exists|i: int|
        0 <= i < src.transitions.len() && #[trigger] unknown_in_transition(
            src.transitions@[i],
            states,
            symbols,
            n,
        )
}

/// Two transitions leave `from` on `symbol` for different states.
pub open spec fn conflicts_at(ts: Seq<Transition>, from: Seq<char>, symbol: Seq<char>) -> bool {
    exists|i: int, j: int|
        0 <= i < ts.len() && 0 <= j < ts.len() && #[trigger] ts[i].from@ == from && ts[i].symbol@
            == symbol && #[trigger] ts[j].from@ == from && ts[j].symbol@ == symbol && ts[i].to@
            != ts[j].to@
}

/// Some state and symbol have two transitions to different states.
pub open spec fn has_conflict(ts: Seq<Transition>) -> bool {
    exists|i: int, j: int|
        0 <= i < ts.len() && 0 <= j < ts.len() && #[trigger] ts[i].from@ == #[trigger] ts[j].from@
            && ts[i].symbol@ == ts[j].symbol@ && ts[i].to@ != ts[j].to@
}

/// The relation holds the transition `(from, symbol, to)`.
pub open spec fn has_transition(
    ts: Seq<Transition>,
    from: Seq<char>,
    symbol: Seq<char>,
    to: Seq<char>,
) -> bool {
    exists|i: int| 0 <= i < ts.len() && #[trigger] ts[i]@ == (from, symbol, to)
}

/// The relation holds some transition from `from` on `symbol`.
pub open spec fn has_move(ts: Seq<Transition>, from: Seq<char>, symbol: Seq<char>) -> bool {
    exists|i: int| 0 <= i < ts.len() && #[trigger] ts[i].from@ == from && ts[i].symbol@ == symbol
}

/// The positions `x` resolve the names of `t`.
pub open spec fn resolves(
    t: Transition,
    x: (usize, usize, usize),
    states: Seq<String>,
    symbols: Seq<String>,
) -> bool {
    &&& x.0 < states.len() && states[x.0 as int]@ == t.from@
    &&& x.1 < symbols.len() && symbols[x.1 as int]@ == t.symbol@
    &&& x.2 < states.len() && states[x.2 as int]@ == t.to@
}

/// Two resolved transitions leave `s` on `a` for different states.
pub open spec fn resolved_conflict(res: Seq<(usize, usize, usize)>, s: usize, a: usize) -> bool {
    exists|i: int, j: int|
        0 <= i < res.len() && 0 <= j < res.len() && #[trigger] res[i].0 == s && res[i].1 == a
            && #[trigger] res[j].0 == s && res[j].1 == a && res[i].2 != res[j].2
}

/// `c` is what the resolved transitions give `s` on `a`: their one
/// successor, or `None` where none leaves `s` on `a`.
pub open spec fn cell_matches(res: Seq<(usize, usize, usize)>, s: usize, a: usize, c: Option<usize>) -> bool {
    match c {
        Some(t) => (exists|i: int| 0 <= i < res.len() && #[trigger] res[i] == (s, a, t)) && forall|i: int|
            0 <= i < res.len() && #[trigger] res[i].0 == s && res[i].1 == a ==> res[i].2 == t,
        None => forall|i: int| 0 <= i < res.len() ==> !(#[trigger] res[i].0 == s && res[i].1 == a),
    }
}

/// The transition table of a deterministic automaton over declared states
/// and symbols, which are named by their positions.
pub struct CompiledTable {
    states: Vec<String>,
    symbols: Vec<String>,
    initial: usize,
    rows: Vec<Vec<Option<usize>>>,
}

impl CompiledTable {
    /// The declared state names; a state is its position here.
    pub closed spec fn state_names(&self) -> Seq<String> {
        self.states@
    }

    /// The declared symbol names; a symbol is its position here.
    pub closed spec fn symbol_names(&self) -> Seq<String> {
        self.symbols@
    }

    pub closed spec fn initial_state(&self) -> usize {
        self.initial
    }

    /// The successor of `s` on `a`, if the table has one.
    pub closed spec fn cell(&self, s: usize, a: usize) -> Option<usize> {
        self.rows@[s as int]@[a as int]
    }

    pub closed spec fn wf(&self) -> bool {
        &&& self.rows@.len() == self.states@.len()
        &&& self.initial < self.states@.len()
        &&& forall|s: int|
            0 <= s < self.rows@.len() ==> #[trigger] self.rows@[s]@.len() == self.symbols@.len()
        &&& forall|s: usize, a: usize|
            s < self.states@.len() && a < self.symbols@.len() && #[trigger] self.cell(s, a) is Some
                ==> self.cell(s, a)->0 < self.states@.len()
    }

    /// What `delta` returns: the successor, `InvalidInput` where there is
    /// none, and `ThisCannotContinue` for a position that names no declared
    /// state or symbol.
    pub open spec fn spec_delta(&self, s: usize, a: usize) -> Result<usize, Reject<usize, usize>> {
        if s < self.state_names().len() && a < self.symbol_names().len() {
            match self.cell(s, a) {
                Some(t) => Ok(t),
                None => Err(Reject::InvalidInput(a)),
            }
        } else {
            Err(Reject::ThisCannotContinue)
        }
    }

    pub fn initial(&self) -> (r: usize)
        requires
            self.wf(),
        ensures
            r == self.initial_state(),
            r < self.state_names().len(),
    {
        self.initial
    }

    /// The position of the state named `name`.
    pub fn state_index(&self, name: &String) -> (r: Option<usize>)
        ensures
            match r {
                Some(i) => i < self.state_names().len() && self.state_names()[i as int]@ == name@,
                None => !declares(self.state_names(), name@),
            },
    {
        index_of(&self.states, name)
    }

    /// The position of the symbol named `name`.
    pub fn symbol_index(&self, name: &String) -> (r: Option<usize>)
        ensures
            match r {
                Some(i) => i < self.symbol_names().len() && self.symbol_names()[i as int]@ == name@,
                None => !declares(self.symbol_names(), name@),
            },
    {
        index_of(&self.symbols, name)
    }

    /// The name of the state at position `state`.
    pub fn state_name(&self, state: usize) -> (r: Option<String>)
        ensures
            match r {
                Some(n) => state < self.state_names().len() && n@ == self.state_names()[state as int]@,
                None => state >= self.state_names().len(),
            },
    {
        if state < self.states.len() {
            Some(self.states[state].clone())
        } else {
            None
        }
    }

    pub fn delta(&self, state: usize, symbol: usize) -> (r: Result<usize, Reject<usize, usize>>)
        requires
            self.wf(),
        ensures
            r == self.spec_delta(state, symbol),
    {
        if state < self.states.len() && symbol < self.symbols.len() {
            match self.rows[state][symbol] {
                Some(t) => Ok(t),
                None => Err(Reject::InvalidInput(symbol)),
            }
        } else {
            Err(Reject::ThisCannotContinue)
        }
    }
}

/// Resolves every transition to positions in the declared lists, or names
/// the first name that is not declared.
fn resolve_transitions(ts: &Vec<Transition>, states: &Vec<String>, symbols: &Vec<String>) -> (r:
    Result<Vec<(usize, usize, usize)>, String>)
    ensures
        r is Ok ==> r->Ok_0.len() == ts.len() && forall|i: int|
            0 <= i < ts.len() ==> #[trigger] resolves(ts@[i], r->Ok_0@[i], states@, symbols@),
        r is Err ==> exists|i: int|
            0 <= i < ts.len() && #[trigger] unknown_in_transition(
                ts@[i],
                states@,
                symbols@,
                r->Err_0@,
            ),
{
    let mut v: Vec<(usize, usize, usize)> = Vec::new();
    let mut i: usize = 0;
    while i < ts.len()
        invariant
            i <= ts.len(),
            v.len() == i,
            forall|k: int| 0 <= k < i ==> #[trigger] resolves(ts@[k], v@[k], states@, symbols@),
        decreases ts.len() - i,
    {
        let t = &ts[i];
        let f = match index_of(states, &t.from) {
            Some(f) => f,
            None => {
                let n = t.from.clone();
                assert(unknown_in_transition(ts@[i as int], states@, symbols@, n@));
                assert(exists|k: int|
                    0 <= k < ts.len() && #[trigger] unknown_in_transition(ts@[k], states@, symbols@, n@));
                let r: Result<Vec<(usize, usize, usize)>, String> = Err(n);
                assert(r->Err_0@ == n@);
                return r;
            },
        };
        let a = match index_of(symbols, &t.symbol) {
            Some(a) => a,
            None => {
                let n = t.symbol.clone();
                assert(unknown_in_transition(ts@[i as int], states@, symbols@, n@));
                assert(exists|k: int|
                    0 <= k < ts.len() && #[trigger] unknown_in_transition(ts@[k], states@, symbols@, n@));
                let r: Result<Vec<(usize, usize, usize)>, String> = Err(n);
                assert(r->Err_0@ == n@);
                return r;
            },
        };
        let g = match index_of(states, &t.to) {
            Some(g) => g,
            None => {
                let n = t.to.clone();
                assert(unknown_in_transition(ts@[i as int], states@, symbols@, n@));
                assert(exists|k: int|
                    0 <= k < ts.len() && #[trigger] unknown_in_transition(ts@[k], states@, symbols@, n@));
                let r: Result<Vec<(usize, usize, usize)>, String> = Err(n);
                assert(r->Err_0@ == n@);
                return r;
            },
        };
        v.push((f, a, g));
        i = i + 1;
    }
    Ok(v)
}

/// The one successor that the resolved transitions give `s` on `a`, `None`
/// where they give none, `Err` where they give two.
fn resolved_target(res: &Vec<(usize, usize, usize)>, s: usize, a: usize) -> (r: Result<
    Option<usize>,
    (),
>)
    ensures
        r is Err <==> resolved_conflict(res@, s, a),
        r is Ok ==> cell_matches(res@, s, a, r->Ok_0),
{
    let mut found: Option<usize> = None;
    let mut i: usize = 0;
    while i < res.len()
        invariant
            i <= res.len(),
            cell_matches(res@.subrange(0, i as int), s, a, found),
        decreases res.len() - i,
    {
        let (f, b, g) = res[i];
        if f == s && b == a {
            match found {
                Some(t) => {
                    if t != g {
                        proof {
                            let sub = res@.subrange(0, i as int);
                            let k = choose|k: int| 0 <= k < sub.len() && #[trigger] sub[k] == (s, a, t);
                            assert(res@[k].0 == s && res@[i as int].0 == s);
                        }
                        return Err(());
                    }
                },
                None => {
                    found = Some(g);
                },
            }
        }
        proof {
            let sub = res@.subrange(0, i + 1);
            assert(sub.subrange(0, i as int) =~= res@.subrange(0, i as int));
            if let Some(t) = found {
                if f == s && b == a {
                    assert(sub[i as int] == (s, a, t));
                } else {
                    let k = choose|k: int| 0 <= k < i && #[trigger] res@.subrange(0, i as int)[k] == (s, a, t);
                    assert(sub[k] == (s, a, t));
                }
            }
        }
        i = i + 1;
    }
    assert(res@.subrange(0, res.len() as int) =~= res@);
    proof {
        if resolved_conflict(res@, s, a) {
            let (x, y) = choose|x: int, y: int|
                0 <= x < res.len() && 0 <= y < res.len() && #[trigger] res@[x].0 == s && res@[x].1
                    == a && #[trigger] res@[y].0 == s && res@[y].1 == a && res@[x].2 != res@[y].2;
            assert(res@[x].0 == s && res@[y].0 == s);
        }
    }
    Ok(found)
}

/// Each of the first `n` cells of `row` is what the resolved transitions
/// give `s` on that symbol, and none of those symbols has a conflict at `s`.
pub open spec fn row_ok(res: Seq<(usize, usize, usize)>, s: usize, row: Seq<Option<usize>>, n: int) -> bool {
    forall|b: usize|
        b < n ==> !#[trigger] resolved_conflict(res, s, b) && cell_matches(res, s, b, row[b as int])
}

/// Fills one row per state and one cell per symbol, or gives the first
/// state and symbol with conflicting transitions.
fn build_rows(res: &Vec<(usize, usize, usize)>, n_states: usize, n_symbols: usize) -> (r: Result<
    Vec<Vec<Option<usize>>>,
    (usize, usize),
>)
    requires
        forall|i: int|
            0 <= i < res.len() ==> #[trigger] res@[i].0 < n_states && res@[i].1 < n_symbols
                && res@[i].2 < n_states,
    ensures
        r is Ok ==> {
            let rows = r->Ok_0;
            &&& rows.len() == n_states
            &&& forall|s: usize|
                s < n_states ==> #[trigger] rows@[s as int]@.len() == n_symbols && row_ok(
                    res@,
                    s,
                    rows@[s as int]@,
                    n_symbols as int,
                )
        },
        r is Err ==> {
            let (s, a) = r->Err_0;
            s < n_states && a < n_symbols && resolved_conflict(res@, s, a)
        },
{
    let mut rows: Vec<Vec<Option<usize>>> = Vec::new();
    let mut s: usize = 0;
    while s < n_states
        invariant
            s <= n_states,
            rows.len() == s,
            forall|x: usize|
                x < s ==> #[trigger] rows@[x as int]@.len() == n_symbols && row_ok(
                    res@,
                    x,
                    rows@[x as int]@,
                    n_symbols as int,
                ),
        decreases n_states - s,
    {
        let mut row: Vec<Option<usize>> = Vec::new();
        let mut a: usize = 0;
        while a < n_symbols
            invariant
                s < n_states,
                a <= n_symbols,
                row.len() == a,
                row_ok(res@, s, row@, a as int),
            decreases n_symbols - a,
        {
            let ghost prev = row@;
            match resolved_target(res, s, a) {
                Ok(c) => row.push(c),
                Err(_) => return Err((s, a)),
            }
            proof {
                assert forall|b: usize| b < a + 1 implies !#[trigger] resolved_conflict(res@, s, b)
                    && cell_matches(res@, s, b, row@[b as int]) by {
                    if b < a {
                        assert(row@[b as int] == prev[b as int]);
                    }
                }
            }
            a = a + 1;
        }
        let ghost prev = rows@;
        rows.push(row);
        proof {
            assert forall|x: usize| x < s + 1 implies #[trigger] rows@[x as int]@.len() == n_symbols
                && row_ok(res@, x, rows@[x as int]@, n_symbols as int) by {
                if x < s {
                    assert(rows@[x as int] == prev[x as int]);
                }
            }
        }
        s = s + 1;
    }
    Ok(rows)
}

/// A copy of a list of names.
fn copy_names(v: &Vec<String>) -> (r: Vec<String>)
    ensures
        r@ == v@,
{
    let mut r: Vec<String> = Vec::new();
    let mut i: usize = 0;
    while i < v.len()
        invariant
            i <= v.len(),
            r@ == v@.subrange(0, i as int),
        decreases v.len() - i,
    {
        r.push(v[i].clone());
        i = i + 1;
    }
    assert(v@.subrange(0, v.len() as int) =~= v@);
    r
}

} // verus!

verus! {

/// The table describes the transition source exactly: the declared names,
/// the initial state, and for each state and symbol the successor that the
/// source gives, or none where it gives none.
pub open spec fn table_describes(
    t: CompiledTable,
    src: TransitionSpec,
    states: Seq<String>,
    symbols: Seq<String>,
) -> bool {
    &&& t.wf()
    &&& t.state_names() == states
    &&& t.symbol_names() == symbols
    &&& states[t.initial_state() as int]@ == src.initial_state@
    &&& forall|s: usize, a: usize|
        s < states.len() && a < symbols.len() ==> match #[trigger] t.cell(s, a) {
            Some(x) => x < states.len() && has_transition(
                src.transitions@,
                states[s as int]@,
                symbols[a as int]@,
                states[x as int]@,
            ),
            None => !has_move(src.transitions@, states[s as int]@, symbols[a as int]@),
        }
}

/// Compiles a transition source against the declared state and symbol
/// names.
///
/// The declared lists must not repeat a name, every name the source uses must
/// be declared, and no state may have two transitions on one symbol to
/// different states; the first failing check gives the error. Otherwise the
/// table gives each declared state and symbol the successor that the source
/// lists, and none where it lists none.
pub fn compile_transitions(src: &TransitionSpec, states: &Vec<String>, symbols: &Vec<String>) -> (r:
    Result<CompiledTable, CompileError>)
    ensures
        match r {
            Err(CompileError::DuplicateName(n)) => !(distinct(states@) && distinct(symbols@)) && (
            repeated(states@, n@) || (distinct(states@) && repeated(symbols@, n@))),
            Err(CompileError::UnknownName(n)) => distinct(states@) && distinct(symbols@)
                && !transition_refs_declared(*src, states@, symbols@) && unknown_in_transition_spec(
                *src,
                states@,
                symbols@,
                n@,
            ),
            Err(CompileError::ConflictingTransition { state, symbol }) => distinct(states@)
                && distinct(symbols@) && transition_refs_declared(*src, states@, symbols@)
                && has_conflict(src.transitions@) && conflicts_at(
                src.transitions@,
                state@,
                symbol@,
            ),
            Ok(t) => distinct(states@) && distinct(symbols@) && transition_refs_declared(
                *src,
                states@,
                symbols@,
            ) && !has_conflict(src.transitions@) && table_describes(t, *src, states@, symbols@),
        },
{
    if let Some(j) = repeated_name(states) {
        let n = states[j].clone();
        return Err(CompileError::DuplicateName(n));
    }
    if let Some(j) = repeated_name(symbols) {
        let n = symbols[j].clone();
        return Err(CompileError::DuplicateName(n));
    }
    let initial = match index_of(states, &src.initial_state) {
        Some(i) => i,
        None => {
            let n = src.initial_state.clone();
            return Err(CompileError::UnknownName(n));
        },
    };
    let ts = &src.transitions;
    let res = match resolve_transitions(ts, states, symbols) {
        Ok(v) => v,
        Err(n) => {
            proof {
                let i = choose|i: int|
                    0 <= i < ts.len() && #[trigger] unknown_in_transition(
                        ts@[i],
                        states@,
                        symbols@,
                        n@,
                    );
                assert(!transition_declared(ts@[i], states@, symbols@));
            }
            return Err(CompileError::UnknownName(n));
        },
    };
    proof {
        assert forall|i: int| 0 <= i < ts.len() implies #[trigger] transition_declared(
            ts@[i],
            states@,
            symbols@,
        ) by {
            assert(resolves(ts@[i], res@[i], states@, symbols@));
            assert(states@[res@[i].0 as int]@ == ts@[i].from@);
            assert(symbols@[res@[i].1 as int]@ == ts@[i].symbol@);
            assert(states@[res@[i].2 as int]@ == ts@[i].to@);
        }
        assert forall|i: int| 0 <= i < res.len() implies #[trigger] res@[i].0 < states.len()
            && res@[i].1 < symbols.len() && res@[i].2 < states.len() by {
            assert(resolves(ts@[i], res@[i], states@, symbols@));
        }
    }
    let rows = match build_rows(&res, states.len(), symbols.len()) {
        Ok(rows) => rows,
        Err((s, a)) => {
            let state = states[s].clone();
            let symbol = symbols[a].clone();
            proof {
                let (i, j) = choose|i: int, j: int|
                    0 <= i < res.len() && 0 <= j < res.len() && #[trigger] res@[i].0 == s
                        && res@[i].1 == a && #[trigger] res@[j].0 == s && res@[j].1 == a
                        && res@[i].2 != res@[j].2;
                assert(resolves(ts@[i], res@[i], states@, symbols@));
                assert(resolves(ts@[j], res@[j], states@, symbols@));
                if ts@[i].to@ == ts@[j].to@ {
                    lemma_distinct_index(states@, res@[i].2 as int, res@[j].2 as int);
                }
                assert(ts@[i].from@ == ts@[j].from@);
            }
            return Err(CompileError::ConflictingTransition { state, symbol });
        },
    };
    let table = CompiledTable {
        states: copy_names(states),
        symbols: copy_names(symbols),
        initial,
        rows,
    };
    proof {
        assert forall|i: int, j: int|
            0 <= i < ts.len() && 0 <= j < ts.len() && #[trigger] ts@[i].from@ == #[trigger] ts@[j].from@
                && ts@[i].symbol@ == ts@[j].symbol@ implies ts@[i].to@ == ts@[j].to@ by {
            assert(resolves(ts@[i], res@[i], states@, symbols@));
            assert(resolves(ts@[j], res@[j], states@, symbols@));
            lemma_distinct_index(states@, res@[i].0 as int, res@[j].0 as int);
            lemma_distinct_index(symbols@, res@[i].1 as int, res@[j].1 as int);
            let s = res@[i].0;
            let a = res@[i].1;
            assert(rows@[s as int]@.len() == symbols.len());
            assert(row_ok(res@, s, rows@[s as int]@, symbols.len() as int));
            assert(!resolved_conflict(res@, s, a));
            assert(res@[i].2 == res@[j].2);
        }
        assert forall|s: usize, a: usize| s < states.len() && a < symbols.len() implies match #[trigger] table.cell(s, a) {
            Some(x) => x < states.len() && has_transition(
                src.transitions@,
                states@[s as int]@,
                symbols@[a as int]@,
                states@[x as int]@,
            ),
            None => !has_move(src.transitions@, states@[s as int]@, symbols@[a as int]@),
        } by {
            assert(rows@[s as int]@.len() == symbols.len());
            assert(row_ok(res@, s, rows@[s as int]@, symbols.len() as int));
            assert(!resolved_conflict(res@, s, a));
            assert(cell_matches(res@, s, a, rows@[s as int]@[a as int]));
            match table.cell(s, a) {
                Some(x) => {
                    let i = choose|i: int| 0 <= i < res.len() && #[trigger] res@[i] == (s, a, x);
                    assert(resolves(ts@[i], res@[i], states@, symbols@));
                    assert(ts@[i]@ == (states@[s as int]@, symbols@[a as int]@, states@[x as int]@));
                },
                None => {
                    if has_move(src.transitions@, states@[s as int]@, symbols@[a as int]@) {
                        let i = choose|i: int|
                            0 <= i < ts.len() && #[trigger] ts@[i].from@ == states@[s as int]@
                                && ts@[i].symbol@ == symbols@[a as int]@;
                        assert(resolves(ts@[i], res@[i], states@, symbols@));
                        lemma_distinct_index(states@, res@[i].0 as int, s as int);
                        lemma_distinct_index(symbols@, res@[i].1 as int, a as int);
                        assert(res@[i].0 == s && res@[i].1 == a);
                    }
                },
            }
        }
    }
    Ok(table)
}

} // verus!

verus! {

/// The accepting states of an automaton over declared states, which are
/// named by their positions.
pub struct CompiledAcceptance {
    states: Vec<String>,
    accepting: Vec<bool>,
}

impl CompiledAcceptance {
    /// The declared state names; a state is its position here.
    pub closed spec fn state_names(&self) -> Seq<String> {
        self.states@
    }

    /// The state at position `s` is accepting.
    pub closed spec fn accepts(&self, s: usize) -> bool {
        self.accepting@[s as int]
    }

    pub closed spec fn wf(&self) -> bool {
        self.accepting@.len() == self.states@.len()
    }

    /// What `accept` returns: the state itself where it is accepting,
    /// `NotAccept` where it is not, and `ThisCannotContinue` for a position
    /// that names no declared state.
    pub open spec fn spec_accept(&self, s: usize) -> Result<usize, Reject<usize, ()>> {
        if s < self.state_names().len() {
            if self.accepts(s) {
                Ok(s)
            } else {
                Err(Reject::NotAccept(s))
            }
        } else {
            Err(Reject::ThisCannotContinue)
        }
    }

    pub fn accept(&self, state: usize) -> (r: Result<usize, Reject<usize, ()>>)
        requires
            self.wf(),
        ensures
            r == self.spec_accept(state),
    {
        if state < self.states.len() {
            if self.accepting[state] {
                Ok(state)
            } else {
                Err(Reject::NotAccept(state))
            }
        } else {
            Err(Reject::ThisCannotContinue)
        }
    }
}

/// Every accepting state that the source lists is declared.
pub open spec fn acceptance_refs_declared(src: AcceptanceSpec, states: Seq<String>) -> bool {
    forall|i: int| 0 <= i < src.accept_states.len() ==> declares(states, #[trigger] src.accept_states@[i]@)
}

/// The acceptance predicate describes the source exactly: a declared state
/// accepts if and only if the source lists it.
pub open spec fn acceptance_describes(c: CompiledAcceptance, src: AcceptanceSpec, states: Seq<String>) -> bool {
    &&& c.wf()
    &&& c.state_names() == states
    &&& forall|s: usize|
        s < states.len() ==> (#[trigger] c.accepts(s) <==> declares(
            src.accept_states@,
            states[s as int]@,
        ))
}

/// Compiles an acceptance source against the declared state names.
///
/// The declared list must not repeat a name and every listed accepting state
/// must be declared; the first failing check gives the error. Otherwise a
/// declared state accepts if and only if the source lists it.
pub fn compile_acceptance(src: &AcceptanceSpec, states: &Vec<String>) -> (r: Result<
    CompiledAcceptance,
    CompileError,
>)
    ensures
        match r {
            Err(CompileError::DuplicateName(n)) => !distinct(states@) && repeated(states@, n@),
            Err(CompileError::UnknownName(n)) => distinct(states@) && !acceptance_refs_declared(
                *src,
                states@,
            ) && declares(src.accept_states@, n@) && !declares(states@, n@),
            Err(CompileError::ConflictingTransition { .. }) => false,
            Ok(c) => distinct(states@) && acceptance_refs_declared(*src, states@)
                && acceptance_describes(c, *src, states@),
        },
{
    if let Some(j) = repeated_name(states) {
        let n = states[j].clone();
        return Err(CompileError::DuplicateName(n));
    }
    let listed = &src.accept_states;
    let mut i: usize = 0;
    while i < listed.len()
        invariant
            i <= listed.len(),
            listed@ == src.accept_states@,
            distinct(states@),
            forall|k: int| 0 <= k < i ==> declares(states@, #[trigger] listed@[k]@),
        decreases listed.len() - i,
    {
        if index_of(states, &listed[i]).is_none() {
            let n = listed[i].clone();
            assert(declares(listed@, n@)) by {
                assert(listed@[i as int]@ == n@);
            }
            assert(!declares(states@, n@));
            assert(src.accept_states@ == listed@);
            assert(src.accept_states@[i as int]@ == n@);
            assert(!acceptance_refs_declared(*src, states@));
            let r: Result<CompiledAcceptance, CompileError> = Err(CompileError::UnknownName(n));
            return r;
        }
        i = i + 1;
    }
    let mut accepting: Vec<bool> = Vec::new();
    let mut s: usize = 0;
    while s < states.len()
        invariant
            s <= states.len(),
            listed@ == src.accept_states@,
            distinct(states@),
            acceptance_refs_declared(*src, states@),
            accepting.len() == s,
            forall|x: usize|
                x < s ==> (#[trigger] accepting@[x as int] <==> declares(listed@, states@[x as int]@)),
        decreases states.len() - s,
    {
        let found = index_of(listed, &states[s]).is_some();
        accepting.push(found);
        s = s + 1;
    }
    let c = CompiledAcceptance { states: copy_names(states), accepting };
    assert forall|x: usize| x < states.len() implies (#[trigger] c.accepts(x) <==> declares(
        listed@,
        states@[x as int]@,
    )) by {
        assert(c.accepts(x) == accepting@[x as int]);
    }
    Ok(c)
}

} // verus!

verus! {

/// For every declared state and symbol, a compiled table's `delta` gives
/// either a declared state that the source lists as the successor, or
/// `InvalidInput` with the symbol where the source lists none; never
/// anything else.
pub proof fn lemma_delta_total(
    t: CompiledTable,
    src: TransitionSpec,
    states: Seq<String>,
    symbols: Seq<String>,
    s: usize,
    a: usize,
)
    requires
        table_describes(t, src, states, symbols),
        s < states.len(),
        a < symbols.len(),
    ensures
        match t.spec_delta(s, a) {
            Ok(x) => x < states.len() && has_transition(
                src.transitions@,
                states[s as int]@,
                symbols[a as int]@,
                states[x as int]@,
            ),
            Err(e) => e == Reject::<usize, usize>::InvalidInput(a) && !has_move(
                src.transitions@,
                states[s as int]@,
                symbols[a as int]@,
            ),
        },
{
}

/// For every declared state, a compiled acceptance predicate gives the
/// state back if and only if the source lists it, and `NotAccept` with the
/// state otherwise.
pub proof fn lemma_accept_total(c: CompiledAcceptance, src: AcceptanceSpec, states: Seq<String>, s: usize)
    requires
        acceptance_describes(c, src, states),
        s < states.len(),
    ensures
        c.spec_accept(s) == if declares(src.accept_states@, states[s as int]@) {
            Ok::<usize, Reject<usize, ()>>(s)
        } else {
            Err(Reject::NotAccept(s))
        },
{
}

} // verus!
