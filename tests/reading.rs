use nier::lexer::{tokenize, LexError, Token};
use nier::parser::{parse_acceptance_spec, parse_transition_spec, ParseError};

#[test]
fn reads_transition_source() {
    let text = "(initial_state: \"Zero\", transitions: [(\"Zero\", \"A\", \"One\"), (\"One\",\"B\",\"One\")])";
    let s = parse_transition_spec(text).unwrap();
    assert_eq!(s.initial_state, "Zero");
    assert_eq!(s.transitions.len(), 2);
    assert_eq!(s.transitions[0].from, "Zero");
    assert_eq!(s.transitions[0].symbol, "A");
    assert_eq!(s.transitions[0].to, "One");
    assert_eq!(s.transitions[1].from, "One");
    assert_eq!(s.transitions[1].symbol, "B");
    assert_eq!(s.transitions[1].to, "One");
}

#[test]
fn reads_empty_transition_list() {
    let s = parse_transition_spec("(initial_state: \"S\", transitions: [])").unwrap();
    assert_eq!(s.initial_state, "S");
    assert!(s.transitions.is_empty());
}

#[test]
fn rejects_malformed_transition_sources() {
    let bad = [
        "",
        "(initial_state: \"S\")",
        "(initial_state: \"S\", transitions: [], extra: [])",
        "(transitions: [], initial_state: \"S\")",
        "(initial_state: \"S\", transitions: [(\"S\", \"A\")])",
        "(initial_state: \"S\", transitions: [(\"S\", \"A\", \"S\"),])",
        "(initial_state: S, transitions: [])",
        "(initial_state: \"S\", transitions: [])x",
    ];
    for text in bad.iter() {
        assert!(matches!(parse_transition_spec(text), Err(ParseError::Unexpected(_))), "{}", text);
    }
}

#[test]
fn reports_lexical_errors() {
    assert_eq!(
        parse_transition_spec("(initial_state: \"S\" ; )").err(),
        Some(ParseError::Lex(LexError::UnexpectedChar(20)))
    );
    assert_eq!(
        parse_transition_spec("(initial_state: \"S").err(),
        Some(ParseError::Lex(LexError::UnterminatedString(16)))
    );
    assert_eq!(
        parse_acceptance_spec("(accept_states: [\"a\\\"\"])").err(),
        Some(ParseError::Lex(LexError::UnterminatedString(17)))
    );
}

#[test]
fn reads_acceptance_source() {
    let s = parse_acceptance_spec("(accept_states: [\"One\", \"Two\"])").unwrap();
    assert_eq!(s.accept_states, vec!["One".to_string(), "Two".to_string()]);
    let s = parse_acceptance_spec("(\n  accept_states: [ ]\n)").unwrap();
    assert!(s.accept_states.is_empty());
    assert!(parse_acceptance_spec("(accept_states: [\"One\" \"Two\"])").is_err());
    assert!(parse_acceptance_spec("(accept_states: [One])").is_err());
}

#[test]
fn tokenizes_text() {
    let toks = tokenize("( a_1:\t\"x y\" ,[])").unwrap();
    assert_eq!(
        toks,
        vec![
            Token::LParen,
            Token::Ident("a_1".to_string()),
            Token::Colon,
            Token::Str("x y".to_string()),
            Token::Comma,
            Token::LBracket,
            Token::RBracket,
            Token::RParen,
        ]
    );
    assert_eq!(tokenize("  ").unwrap(), vec![]);
    assert_eq!(tokenize("a-b"), Err(LexError::UnexpectedChar(1)));
}
