use crate::lexer::{lex, tokenize, toks_of, LexError, Tok, Token};
use crate::source::{AcceptanceSpec, Transition, TransitionSpec};
use vstd::prelude::*;

verus! {

/// A transition by names: from, symbol, to.
pub type Triple = (Seq<char>, Seq<char>, Seq<char>);

/// The transitions of a list, as triples of names.
pub open spec fn triples_of(v: Seq<Transition>) -> Seq<Triple> {
    v.map_values(|t: Transition| t@)
}

/// The names of a list of strings.
pub open spec fn strs_of(v: Seq<String>) -> Seq<Seq<char>> {
    v.map_values(|s: String| s@)
}

/// `pre` stands in `s` from position `p` on.
pub open spec fn starts_with(s: Seq<Tok>, p: int, pre: Seq<Tok>) -> bool {
    0 <= p && p + pre.len() <= s.len() && s.subrange(p, p + pre.len()) == pre
}

/// A transition written as a tuple: `("from", "symbol", "to")`.
pub open spec fn triple_toks(t: Triple) -> Seq<Tok> {
    seq![
        Tok::LParen,
        Tok::Str(t.0),
        Tok::Comma,
        Tok::Str(t.1),
        Tok::Comma,
        Tok::Str(t.2),
        Tok::RParen,
    ]
}

/// Transitions separated by commas.
pub open spec fn triple_list_toks(ts: Seq<Triple>) -> Seq<Tok>
    decreases ts.len(),
{
    if ts.len() == 0 {
        Seq::empty()
    } else if ts.len() == 1 {
        triple_toks(ts[0])
    } else {
        triple_toks(ts[0]) + seq![Tok::Comma] + triple_list_toks(ts.drop_first())
    }
}

/// Names written as strings and separated by commas.
pub open spec fn name_list_toks(ns: Seq<Seq<char>>) -> Seq<Tok>
    decreases ns.len(),
{
    if ns.len() == 0 {
        Seq::empty()
    } else if ns.len() == 1 {
        seq![Tok::Str(ns[0])]
    } else {
        seq![Tok::Str(ns[0]), Tok::Comma] + name_list_toks(ns.drop_first())
    }
}

/// The tokens of a transition source:
/// `(initial_state: "init", transitions: [(..), (..)])`.
pub open spec fn transition_toks(init: Seq<char>, ts: Seq<Triple>) -> Seq<Tok> {
    seq![
        Tok::LParen,
        Tok::Ident("initial_state"@),
        Tok::Colon,
        Tok::Str(init),
        Tok::Comma,
        Tok::Ident("transitions"@),
        Tok::Colon,
        Tok::LBracket,
    ] + triple_list_toks(ts) + seq![Tok::RBracket, Tok::RParen]
}

/// The tokens of an acceptance source: `(accept_states: ["a", "b"])`.
pub open spec fn acceptance_toks(ns: Seq<Seq<char>>) -> Seq<Tok> {
    seq![Tok::LParen, Tok::Ident("accept_states"@), Tok::Colon, Tok::LBracket] + name_list_toks(ns)
        + seq![Tok::RBracket, Tok::RParen]
}

/// The text is a transition source: it reads as the tokens of some
/// initial state and list of transitions.
pub open spec fn is_transition_text(s: Seq<char>) -> bool {
    lex(s) is Some && exists|init: Seq<char>, ts: Seq<Triple>|
        lex(s)->Some_0 == #[trigger] transition_toks(init, ts)
}

/// The text is an acceptance source.
pub open spec fn is_acceptance_text(s: Seq<char>) -> bool {
    lex(s) is Some && exists|ns: Seq<Seq<char>>| lex(s)->Some_0 == #[trigger] acceptance_toks(ns)
}

/// Why a text could not be read as a source.
#[derive(Debug, Clone, Copy, PartialEq, Eq)]
pub enum ParseError {
    /// The text does not split into tokens.
    Lex(LexError),
    /// The tokens do not have the source's shape; the first one out of place
    /// stands at this index, or the tokens end there.
    Unexpected(usize),
}

/// The two tokens are equal.
fn same_token(a: &Token, b: &Token) -> (r: bool)
    ensures
        r == (a@ == b@),
{
    match (a, b) {
        (Token::LParen, Token::LParen) => true,
        (Token::RParen, Token::RParen) => true,
        (Token::LBracket, Token::LBracket) => true,
        (Token::RBracket, Token::RBracket) => true,
        (Token::Colon, Token::Colon) => true,
        (Token::Comma, Token::Comma) => true,
        (Token::Ident(x), Token::Ident(y)) => *x == *y,
        (Token::Str(x), Token::Str(y)) => *x == *y,
        _ => false,
    }
}

/// The token at `p` is `want`.
fn token_is(toks: &Vec<Token>, p: usize, want: &Token) -> (r: bool)
    ensures
        r == (p < toks.len() && toks_of(toks@)[p as int] == want@),
{
    p < toks.len() && same_token(&toks[p], want)
}

/// The string held by the token at `p`, if that token is a string.
fn str_at(toks: &Vec<Token>, p: usize) -> (r: Option<String>)
    ensures
        match r {
            Some(s) => p < toks.len() && toks_of(toks@)[p as int] == Tok::Str(s@),
            None => !(p < toks.len() && toks_of(toks@)[p as int] is Str),
        },
{
    if p < toks.len() {
        match &toks[p] {
            Token::Str(s) => Some(s.clone()),
            _ => None,
        }
    } else {
        None
    }
}

proof fn lemma_starts_with_at(s: Seq<Tok>, p: int, pre: Seq<Tok>, k: int)
    requires
        starts_with(s, p, pre),
        0 <= k < pre.len(),
    ensures
        s[p + k] == pre[k],
{
    assert(s.subrange(p, p + pre.len())[k] == s[p + k]);
}

/// Where a sequence starts with `pre`, it starts with each prefix of `pre`,
/// and with each suffix of `pre` at the matching place.
proof fn lemma_starts_with_split(s: Seq<Tok>, p: int, pre: Seq<Tok>, k: int)
    requires
        starts_with(s, p, pre),
        0 <= k <= pre.len(),
    ensures
        starts_with(s, p, pre.subrange(0, k)),
        starts_with(s, p + k, pre.subrange(k, pre.len() as int)),
{
    let whole = s.subrange(p, p + pre.len());
    assert(s.subrange(p, p + k) =~= whole.subrange(0, k));
    assert(s.subrange(p + k, p + pre.len()) =~= whole.subrange(k, pre.len() as int));
}

/// Two tuples that both stand at `p` are the same transition.
proof fn lemma_triple_toks_injective(s: Seq<Tok>, p: int, t: Triple)
    requires
        starts_with(s, p, triple_toks(t)),
    ensures
        forall|u: Triple| #[trigger] starts_with(s, p, triple_toks(u)) ==> u == t,
{
    assert forall|u: Triple| #[trigger] starts_with(s, p, triple_toks(u)) implies u == t by {
        lemma_starts_with_at(s, p, triple_toks(t), 1);
        lemma_starts_with_at(s, p, triple_toks(t), 3);
        lemma_starts_with_at(s, p, triple_toks(t), 5);
        lemma_starts_with_at(s, p, triple_toks(u), 1);
        lemma_starts_with_at(s, p, triple_toks(u), 3);
        lemma_starts_with_at(s, p, triple_toks(u), 5);
    }
}

/// What a list of transitions followed by `]` shows at its start: the first
/// transition, then a comma and the rest where there is more than one, or
/// the `]` where there is one.
proof fn lemma_list_step(s: Seq<Tok>, p: int, ts: Seq<Triple>)
    requires
        ts.len() >= 1,
        starts_with(s, p, triple_list_toks(ts) + seq![Tok::RBracket]),
    ensures
        starts_with(s, p, triple_toks(ts[0])),
        p + 7 < s.len(),
        ts.len() >= 2 ==> s[p + 7] == Tok::Comma && starts_with(
            s,
            p + 8,
            triple_list_toks(ts.drop_first()) + seq![Tok::RBracket],
        ) && triple_list_toks(ts).len() == 8 + triple_list_toks(ts.drop_first()).len(),
        ts.len() == 1 ==> s[p + 7] == Tok::RBracket && triple_list_toks(ts).len() == 7,
{
    let x = triple_list_toks(ts) + seq![Tok::RBracket];
    lemma_starts_with_split(s, p, x, 7);
    assert(x.subrange(0, 7) =~= triple_toks(ts[0]));
    if ts.len() >= 2 {
        lemma_starts_with_at(s, p, x, 7);
        lemma_starts_with_split(s, p, x, 8);
        assert(x.subrange(8, x.len() as int) =~= triple_list_toks(ts.drop_first()) + seq![Tok::RBracket]);
    } else {
        lemma_starts_with_at(s, p, x, 7);
    }
}

/// A list of transitions followed by `]` starts with its first transition.
proof fn lemma_list_head(s: Seq<Tok>, p: int, ts: Seq<Triple>)
    requires
        ts.len() >= 1,
        starts_with(s, p, triple_list_toks(ts) + seq![Tok::RBracket]),
    ensures
        starts_with(s, p, triple_toks(ts[0])),
{
    lemma_list_step(s, p, ts);
}

/// A transition written as a tuple at `p`.
fn parse_triple(toks: &Vec<Token>, p: usize) -> (r: Option<Transition>)
    ensures
        r is Some ==> starts_with(toks_of(toks@), p as int, triple_toks(r->Some_0@)),
        r is None ==> forall|t: Triple| !#[trigger] starts_with(toks_of(toks@), p as int, triple_toks(t)),
{
    let ghost s = toks_of(toks@);
    assert(s.len() == toks.len());
    if p > usize::MAX - 7 || p + 7 > toks.len() {
        assert forall|t: Triple| !#[trigger] starts_with(s, p as int, triple_toks(t)) by {
            assert(triple_toks(t).len() == 7);
        }
        return None;
    }
    let from = str_at(toks, p + 1);
    let to = str_at(toks, p + 5);
    let symbol = str_at(toks, p + 3);
    if token_is(toks, p, &Token::LParen) && token_is(toks, p + 2, &Token::Comma) && token_is(
        toks,
        p + 4,
        &Token::Comma,
    ) && token_is(toks, p + 6, &Token::RParen) && from.is_some() && symbol.is_some()
        && to.is_some() {
        let t = Transition { from: from.unwrap(), symbol: symbol.unwrap(), to: to.unwrap() };
        assert(s.subrange(p as int, p + 7) =~= triple_toks(t@));
        Some(t)
    } else {
        assert forall|t: Triple| !#[trigger] starts_with(s, p as int, triple_toks(t)) by {
            if starts_with(s, p as int, triple_toks(t)) {
                lemma_starts_with_at(s, p as int, triple_toks(t), 0);
                lemma_starts_with_at(s, p as int, triple_toks(t), 1);
                lemma_starts_with_at(s, p as int, triple_toks(t), 2);
                lemma_starts_with_at(s, p as int, triple_toks(t), 3);
                lemma_starts_with_at(s, p as int, triple_toks(t), 4);
                lemma_starts_with_at(s, p as int, triple_toks(t), 5);
                lemma_starts_with_at(s, p as int, triple_toks(t), 6);
            }
        }
        None
    }
}

/// One or more transitions separated by commas, from `p` on, up to the
/// first place where no comma follows a transition.
fn parse_triples(toks: &Vec<Token>, p: usize) -> (r: Option<(Vec<Transition>, usize)>)
    ensures
        r matches Some((v, q)) ==> {
            let s = toks_of(toks@);
            &&& v.len() >= 1
            &&& p <= q <= s.len()
            &&& s.subrange(p as int, q as int) == triple_list_toks(triples_of(v@))
            &&& q < s.len() ==> s[q as int] != Tok::Comma
        },
        forall|ts: Seq<Triple>|
            ts.len() >= 1 && #[trigger] starts_with(
                toks_of(toks@),
                p as int,
                triple_list_toks(ts) + seq![Tok::RBracket],
            ) ==> (r matches Some((v, q)) && triples_of(v@) == ts && q == p
                + triple_list_toks(ts).len()),
    decreases toks.len() - p,
{
    let ghost s = toks_of(toks@);
    let first = match parse_triple(toks, p) {
        Some(t) => t,
        None => {
            assert forall|ts: Seq<Triple>|
                ts.len() >= 1 && #[trigger] starts_with(
                    s,
                    p as int,
                    triple_list_toks(ts) + seq![Tok::RBracket],
                ) implies false by {
                lemma_list_head(s, p as int, ts);
            }
            return None;
        },
    };
    proof {
        lemma_triple_toks_injective(s, p as int, first@);
    }
    if token_is(toks, p + 7, &Token::Comma) {
        match parse_triples(toks, p + 8) {
            Some((rest, q)) => {
                let ghost rest_view = triples_of(rest@);
                let mut v = rest;
                v.insert(0, first);
                proof {
                    assert(triples_of(v@) =~= seq![first@] + rest_view);
                    assert(triples_of(v@).drop_first() =~= rest_view);
                    assert(s.subrange(p as int, q as int) =~= s.subrange(p as int, p + 7) + seq![
                        Tok::Comma,
                    ] + s.subrange(p + 8, q as int));
                    assert(forall|ts: Seq<Triple>|
                        ts.len() >= 1 && #[trigger] starts_with(
                            s,
                            p as int,
                            triple_list_toks(ts) + seq![Tok::RBracket],
                        ) ==> ts.len() >= 2 && ts[0] == first@ && starts_with(
                            s,
                            p + 8,
                            triple_list_toks(ts.drop_first()) + seq![Tok::RBracket],
                        )) by {
                        assert forall|ts: Seq<Triple>|
                            ts.len() >= 1 && #[trigger] starts_with(
                                s,
                                p as int,
                                triple_list_toks(ts) + seq![Tok::RBracket],
                            ) implies ts.len() >= 2 && ts[0] == first@ && starts_with(
                            s,
                            p + 8,
                            triple_list_toks(ts.drop_first()) + seq![Tok::RBracket],
                        ) by {
                            lemma_list_step(s, p as int, ts);
                        }
                    }
                    assert forall|ts: Seq<Triple>|
                        ts.len() >= 1 && #[trigger] starts_with(
                            s,
                            p as int,
                            triple_list_toks(ts) + seq![Tok::RBracket],
                        ) implies triples_of(v@) == ts && q == p + triple_list_toks(ts).len() by {
                        lemma_list_step(s, p as int, ts);
                        assert(starts_with(
                            s,
                            p + 8,
                            triple_list_toks(ts.drop_first()) + seq![Tok::RBracket],
                        ));
                        assert(ts =~= seq![ts[0]] + ts.drop_first());
                    }
                }
                Some((v, q))
            },
            None => {
                proof {
                    assert forall|ts: Seq<Triple>|
                        ts.len() >= 1 && #[trigger] starts_with(
                            s,
                            p as int,
                            triple_list_toks(ts) + seq![Tok::RBracket],
                        ) implies false by {
                        lemma_list_step(s, p as int, ts);
                        assert(starts_with(
                            s,
                            p + 8,
                            triple_list_toks(ts.drop_first()) + seq![Tok::RBracket],
                        ));
                    }
                }
                None
            },
        }
    } else {
        let mut v: Vec<Transition> = Vec::new();
        v.push(first);
        proof {
            assert(triples_of(v@) =~= seq![first@]);
            assert(s.subrange(p as int, p + 7) == triple_list_toks(triples_of(v@)));
            assert forall|ts: Seq<Triple>|
                ts.len() >= 1 && #[trigger] starts_with(
                    s,
                    p as int,
                    triple_list_toks(ts) + seq![Tok::RBracket],
                ) implies triples_of(v@) == ts && p + 7 == p + triple_list_toks(ts).len() by {
                lemma_list_step(s, p as int, ts);
                assert(ts =~= seq![ts[0]]);
            }
        }
        Some((v, p + 7))
    }
}

} // verus!

verus! {

proof fn lemma_name_list_step(s: Seq<Tok>, p: int, ns: Seq<Seq<char>>)
    requires
        ns.len() >= 1,
        starts_with(s, p, name_list_toks(ns) + seq![Tok::RBracket]),
    ensures
        s[p] == Tok::Str(ns[0]),
        p + 1 < s.len(),
        ns.len() >= 2 ==> s[p + 1] == Tok::Comma && starts_with(
            s,
            p + 2,
            name_list_toks(ns.drop_first()) + seq![Tok::RBracket],
        ) && name_list_toks(ns).len() == 2 + name_list_toks(ns.drop_first()).len(),
        ns.len() == 1 ==> s[p + 1] == Tok::RBracket && name_list_toks(ns).len() == 1,
{
    let x = name_list_toks(ns) + seq![Tok::RBracket];
    lemma_starts_with_at(s, p, x, 0);
    lemma_starts_with_at(s, p, x, 1);
    if ns.len() >= 2 {
        lemma_starts_with_split(s, p, x, 2);
        assert(x.subrange(2, x.len() as int) =~= name_list_toks(ns.drop_first()) + seq![Tok::RBracket]);
    }
}

/// One or more names separated by commas, from `p` on, up to the first
/// place where no comma follows a name.
fn parse_names(toks: &Vec<Token>, p: usize) -> (r: Option<(Vec<String>, usize)>)
    ensures
        r matches Some((v, q)) ==> {
            let s = toks_of(toks@);
            &&& v.len() >= 1
            &&& p <= q <= s.len()
            &&& s.subrange(p as int, q as int) == name_list_toks(strs_of(v@))
            &&& q < s.len() ==> s[q as int] != Tok::Comma
        },
        forall|ns: Seq<Seq<char>>|
            ns.len() >= 1 && #[trigger] starts_with(
                toks_of(toks@),
                p as int,
                name_list_toks(ns) + seq![Tok::RBracket],
            ) ==> (r matches Some((v, q)) && strs_of(v@) == ns && q == p + name_list_toks(
                ns,
            ).len()),
    decreases toks.len() - p,
{
    let ghost s = toks_of(toks@);
    assert(s.len() == toks.len());
    let first = match str_at(toks, p) {
        Some(n) => n,
        None => {
            assert forall|ns: Seq<Seq<char>>|
                ns.len() >= 1 && #[trigger] starts_with(
                    s,
                    p as int,
                    name_list_toks(ns) + seq![Tok::RBracket],
                ) implies false by {
                lemma_name_list_step(s, p as int, ns);
            }
            return None;
        },
    };
    if p < usize::MAX && token_is(toks, p + 1, &Token::Comma) {
        match parse_names(toks, p + 2) {
            Some((rest, q)) => {
                let ghost rest_view = strs_of(rest@);
                let mut v = rest;
                v.insert(0, first);
                proof {
                    assert(strs_of(v@) =~= seq![first@] + rest_view);
                    assert(strs_of(v@).drop_first() =~= rest_view);
                    assert(s.subrange(p as int, q as int) =~= seq![Tok::Str(first@), Tok::Comma]
                        + s.subrange(p + 2, q as int));
                    assert forall|ns: Seq<Seq<char>>|
                        ns.len() >= 1 && #[trigger] starts_with(
                            s,
                            p as int,
                            name_list_toks(ns) + seq![Tok::RBracket],
                        ) implies strs_of(v@) == ns && q == p + name_list_toks(ns).len() by {
                        lemma_name_list_step(s, p as int, ns);
                        assert(starts_with(
                            s,
                            p + 2,
                            name_list_toks(ns.drop_first()) + seq![Tok::RBracket],
                        ));
                        assert(ns =~= seq![ns[0]] + ns.drop_first());
                    }
                }
                Some((v, q))
            },
            None => {
                proof {
                    assert forall|ns: Seq<Seq<char>>|
                        ns.len() >= 1 && #[trigger] starts_with(
                            s,
                            p as int,
                            name_list_toks(ns) + seq![Tok::RBracket],
                        ) implies false by {
                        lemma_name_list_step(s, p as int, ns);
                        assert(starts_with(
                            s,
                            p + 2,
                            name_list_toks(ns.drop_first()) + seq![Tok::RBracket],
                        ));
                    }
                }
                None
            },
        }
    } else {
        let mut v: Vec<String> = Vec::new();
        v.push(first);
        proof {
            assert(strs_of(v@) =~= seq![first@]);
            assert(s.subrange(p as int, p + 1) =~= name_list_toks(strs_of(v@)));
            assert forall|ns: Seq<Seq<char>>|
                ns.len() >= 1 && #[trigger] starts_with(
                    s,
                    p as int,
                    name_list_toks(ns) + seq![Tok::RBracket],
                ) implies strs_of(v@) == ns && p + 1 == p + name_list_toks(ns).len() by {
                lemma_name_list_step(s, p as int, ns);
                assert(ns =~= seq![ns[0]]);
            }
        }
        Some((v, p + 1))
    }
}

/// What the tokens of a transition source show.
proof fn lemma_transition_shape(init: Seq<char>, ts: Seq<Triple>)
    ensures
        ({
            let s = transition_toks(init, ts);
            let n = triple_list_toks(ts).len() as int;
            &&& s.len() == n + 10
            &&& s[0] == Tok::LParen
            &&& s[1] == Tok::Ident("initial_state"@)
            &&& s[2] == Tok::Colon
            &&& s[3] == Tok::Str(init)
            &&& s[4] == Tok::Comma
            &&& s[5] == Tok::Ident("transitions"@)
            &&& s[6] == Tok::Colon
            &&& s[7] == Tok::LBracket
            &&& s[n + 8] == Tok::RBracket
            &&& s[n + 9] == Tok::RParen
            &&& ts.len() == 0 ==> n == 0
            &&& ts.len() >= 1 ==> s[8] == Tok::LParen && starts_with(
                s,
                8,
                triple_list_toks(ts) + seq![Tok::RBracket],
            )
        }),
{
    let s = transition_toks(init, ts);
    let n = triple_list_toks(ts).len() as int;
    if ts.len() >= 1 {
        assert(s.subrange(8, 8 + n + 1) =~= triple_list_toks(ts) + seq![Tok::RBracket]);
        lemma_list_step(s, 8, ts);
        lemma_starts_with_at(s, 8, triple_toks(ts[0]), 0);
    }
}

/// The tokens are those of a transition source.
fn parse_transition_tokens(toks: &Vec<Token>) -> (r: Result<TransitionSpec, usize>)
    ensures
        r is Ok <==> exists|init: Seq<char>, ts: Seq<Triple>|
            toks_of(toks@) == #[trigger] transition_toks(init, ts),
        r matches Ok(spec) ==> toks_of(toks@) == transition_toks(
            spec.initial_state@,
            triples_of(spec.transitions@),
        ),
{
    let ghost s = toks_of(toks@);
    assert(s.len() == toks.len());
    let init = str_at(toks, 3);
    let header_ok = token_is(toks, 0, &Token::LParen) && token_is(
        toks,
        1,
        &Token::Ident("initial_state".to_owned()),
    ) && token_is(toks, 2, &Token::Colon) && init.is_some() && token_is(toks, 4, &Token::Comma)
        && token_is(toks, 5, &Token::Ident("transitions".to_owned())) && token_is(
        toks,
        6,
        &Token::Colon,
    ) && token_is(toks, 7, &Token::LBracket);
    if !header_ok {
        proof {
            assert forall|i: Seq<char>, ts: Seq<Triple>| s != #[trigger] transition_toks(i, ts) by {
                lemma_transition_shape(i, ts);
            }
        }
        return Err(0);
    }
    let initial_state = init.unwrap();
    if token_is(toks, 8, &Token::RBracket) {
        if token_is(toks, 9, &Token::RParen) && toks.len() == 10 {
            let spec = TransitionSpec { initial_state, transitions: Vec::new() };
            proof {
                assert(triples_of(spec.transitions@) =~= Seq::<Triple>::empty());
                assert(s =~= transition_toks(spec.initial_state@, triples_of(spec.transitions@)));
            }
            return Ok(spec);
        }
        proof {
            assert forall|i: Seq<char>, ts: Seq<Triple>| s != #[trigger] transition_toks(i, ts) by {
                lemma_transition_shape(i, ts);
            }
        }
        return Err(9);
    }
    match parse_triples(toks, 8) {
        Some((transitions, q)) => {
            if q < usize::MAX - 1 && token_is(toks, q, &Token::RBracket) && token_is(
                toks,
                q + 1,
                &Token::RParen,
            ) && toks.len() == q + 2 {
                let spec = TransitionSpec { initial_state, transitions };
                proof {
                    assert(s =~= transition_toks(
                        spec.initial_state@,
                        triples_of(spec.transitions@),
                    ));
                }
                return Ok(spec);
            }
            proof {
                assert forall|i: Seq<char>, ts: Seq<Triple>| s != #[trigger] transition_toks(i, ts) by {
                    lemma_transition_shape(i, ts);
                }
            }
            Err(q)
        },
        None => {
            proof {
                assert forall|i: Seq<char>, ts: Seq<Triple>| s != #[trigger] transition_toks(i, ts) by {
                    lemma_transition_shape(i, ts);
                }
            }
            Err(8)
        },
    }
}

/// Reads a transition source:
/// `(initial_state: "init", transitions: [("from", "symbol", "to"), ...])`.
///
/// Succeeds exactly on the texts of that shape, and then gives the initial
/// state and the transitions that the text lists, in its order.
pub fn parse_transition_spec(text: &str) -> (r: Result<TransitionSpec, ParseError>)
    ensures
        r is Ok <==> is_transition_text(text@),
        r matches Ok(spec) ==> lex(text@) == Some(
            transition_toks(spec.initial_state@, triples_of(spec.transitions@)),
        ),
        r matches Err(ParseError::Lex(_)) <==> lex(text@) is None,
{
    let toks = match tokenize(text) {
        Ok(toks) => toks,
        Err(e) => return Err(ParseError::Lex(e)),
    };
    match parse_transition_tokens(&toks) {
        Ok(spec) => Ok(spec),
        Err(at) => Err(ParseError::Unexpected(at)),
    }
}

} // verus!

verus! {

/// What the tokens of an acceptance source show.
proof fn lemma_acceptance_shape(ns: Seq<Seq<char>>)
    ensures
        ({
            let s = acceptance_toks(ns);
            let n = name_list_toks(ns).len() as int;
            &&& s.len() == n + 6
            &&& s[0] == Tok::LParen
            &&& s[1] == Tok::Ident("accept_states"@)
            &&& s[2] == Tok::Colon
            &&& s[3] == Tok::LBracket
            &&& s[n + 4] == Tok::RBracket
            &&& s[n + 5] == Tok::RParen
            &&& ns.len() == 0 ==> n == 0
            &&& ns.len() >= 1 ==> s[4] == Tok::Str(ns[0]) && starts_with(
                s,
                4,
                name_list_toks(ns) + seq![Tok::RBracket],
            )
        }),
{
    let s = acceptance_toks(ns);
    let n = name_list_toks(ns).len() as int;
    if ns.len() >= 1 {
        assert(s.subrange(4, 4 + n + 1) =~= name_list_toks(ns) + seq![Tok::RBracket]);
        lemma_name_list_step(s, 4, ns);
    }
}

/// The tokens are those of an acceptance source.
fn parse_acceptance_tokens(toks: &Vec<Token>) -> (r: Result<AcceptanceSpec, usize>)
    ensures
        r is Ok <==> exists|ns: Seq<Seq<char>>| toks_of(toks@) == #[trigger] acceptance_toks(ns),
        r matches Ok(spec) ==> toks_of(toks@) == acceptance_toks(strs_of(spec.accept_states@)),
{
    let ghost s = toks_of(toks@);
    assert(s.len() == toks.len());
    let header_ok = token_is(toks, 0, &Token::LParen) && token_is(
        toks,
        1,
        &Token::Ident("accept_states".to_owned()),
    ) && token_is(toks, 2, &Token::Colon) && token_is(toks, 3, &Token::LBracket);
    if !header_ok {
        proof {
            assert forall|ns: Seq<Seq<char>>| s != #[trigger] acceptance_toks(ns) by {
                lemma_acceptance_shape(ns);
            }
        }
        return Err(0);
    }
    if token_is(toks, 4, &Token::RBracket) {
        if token_is(toks, 5, &Token::RParen) && toks.len() == 6 {
            let spec = AcceptanceSpec { accept_states: Vec::new() };
            proof {
                assert(strs_of(spec.accept_states@) =~= Seq::<Seq<char>>::empty());
                assert(s =~= acceptance_toks(strs_of(spec.accept_states@)));
            }
            return Ok(spec);
        }
        proof {
            assert forall|ns: Seq<Seq<char>>| s != #[trigger] acceptance_toks(ns) by {
                lemma_acceptance_shape(ns);
            }
        }
        return Err(5);
    }
    match parse_names(toks, 4) {
        Some((accept_states, q)) => {
            if q < usize::MAX - 1 && token_is(toks, q, &Token::RBracket) && token_is(
                toks,
                q + 1,
                &Token::RParen,
            ) && toks.len() == q + 2 {
                let spec = AcceptanceSpec { accept_states };
                proof {
                    assert(s =~= acceptance_toks(strs_of(spec.accept_states@)));
                }
                return Ok(spec);
            }
            proof {
                assert forall|ns: Seq<Seq<char>>| s != #[trigger] acceptance_toks(ns) by {
                    lemma_acceptance_shape(ns);
                }
            }
            Err(q)
        },
        None => {
            proof {
                assert forall|ns: Seq<Seq<char>>| s != #[trigger] acceptance_toks(ns) by {
                    lemma_acceptance_shape(ns);
                }
            }
            Err(4)
        },
    }
}

/// Reads an acceptance source: `(accept_states: ["a", "b", ...])`.
///
/// Succeeds exactly on the texts of that shape, and then gives the states
/// that the text lists, in its order.
pub fn parse_acceptance_spec(text: &str) -> (r: Result<AcceptanceSpec, ParseError>)
    ensures
        r is Ok <==> is_acceptance_text(text@),
        r matches Ok(spec) ==> lex(text@) == Some(acceptance_toks(strs_of(spec.accept_states@))),
        r matches Err(ParseError::Lex(_)) <==> lex(text@) is None,
{
    let toks = match tokenize(text) {
        Ok(toks) => toks,
        Err(e) => return Err(ParseError::Lex(e)),
    };
    match parse_acceptance_tokens(&toks) {
        Ok(spec) => Ok(spec),
        Err(at) => Err(ParseError::Unexpected(at)),
    }
}

} // verus!
