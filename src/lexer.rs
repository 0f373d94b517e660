use vstd::prelude::*;

verus! {

/// A token of the declarative source notation.
pub ghost enum Tok {
    LParen,
    RParen,
    LBracket,
    RBracket,
    Colon,
    Comma,
    Ident(Seq<char>),
    Str(Seq<char>),
}

/// A token as the lexer hands it out.
#[derive(Debug, Clone, PartialEq, Eq)]
pub enum Token {
    LParen,
    RParen,
    LBracket,
    RBracket,
    Colon,
    Comma,
    /// A bare word: letters, digits and underscores.
    Ident(String),
    /// The characters between two double quotes.
    Str(String),
}

impl View for Token {
    type V = Tok;

    open spec fn view(&self) -> Tok {
        match self {
            Token::LParen => Tok::LParen,
            Token::RParen => Tok::RParen,
            Token::LBracket => Tok::LBracket,
            Token::RBracket => Tok::RBracket,
            Token::Colon => Tok::Colon,
            Token::Comma => Tok::Comma,
            Token::Ident(s) => Tok::Ident(s@),
            Token::Str(s) => Tok::Str(s@),
        }
    }
}

/// The tokens of a list, as values.
pub open spec fn toks_of(v: Seq<Token>) -> Seq<Tok> {
    v.map_values(|t: Token| t@)
}

pub open spec fn is_space(c: char) -> bool {
    c == ' ' || c == '\n' || c == '\t' || c == '\r'
}

pub open spec fn is_word_char(c: char) -> bool {
    ('a' <= c && c <= 'z') || ('A' <= c && c <= 'Z') || ('0' <= c && c <= '9') || c == '_'
}

/// The token that a punctuation character stands for.
pub open spec fn punct(c: char) -> Option<Tok> {
    if c == '(' {
        Some(Tok::LParen)
    } else if c == ')' {
        Some(Tok::RParen)
    } else if c == '[' {
        Some(Tok::LBracket)
    } else if c == ']' {
        Some(Tok::RBracket)
    } else if c == ':' {
        Some(Tok::Colon)
    } else if c == ',' {
        Some(Tok::Comma)
    } else {
        None
    }
}

/// Where the run of word characters that starts at `i` ends.
pub open spec fn word_end(s: Seq<char>, i: int) -> int
    decreases s.len() - i,
{
    if 0 <= i < s.len() && is_word_char(s[i]) {
        word_end(s, i + 1)
    } else {
        i
    }
}

/// Where the first double quote at or after `i` stands; `None` where a
/// backslash or the end of the text comes first.
pub open spec fn quote_end(s: Seq<char>, i: int) -> Option<int>
    decreases s.len() - i,
{
    if i < 0 || i >= s.len() {
        None
    } else if s[i] == '"' {
        Some(i)
    } else if s[i] == '\\' {
        None
    } else {
        quote_end(s, i + 1)
    }
}

/// `t` followed by the tokens of `rest`, if those exist.
pub open spec fn prepend(t: Tok, rest: Option<Seq<Tok>>) -> Option<Seq<Tok>> {
    match rest {
        Some(ts) => Some(seq![t] + ts),
        None => None,
    }
}

/// The tokens of `s` from position `i` on: white space separates tokens,
/// punctuation characters are tokens of their own, a double-quoted run
/// without backslashes is a string, and a run of word characters is a word.
/// Any other character makes the text unreadable.
pub open spec fn lex_from(s: Seq<char>, i: int) -> Option<Seq<Tok>>
    decreases s.len() - i,
{
    if i < 0 || i >= s.len() {
        Some(Seq::empty())
    } else if is_space(s[i]) {
        lex_from(s, i + 1)
    } else if punct(s[i]) is Some {
        prepend(punct(s[i])->Some_0, lex_from(s, i + 1))
    } else if s[i] == '"' {
        match quote_end(s, i + 1) {
            Some(j) => if i < j < s.len() {
                prepend(Tok::Str(s.subrange(i + 1, j)), lex_from(s, j + 1))
            } else {
                None
            },
            None => None,
        }
    } else if is_word_char(s[i]) {
        let j = word_end(s, i);
        if i < j <= s.len() {
            prepend(Tok::Ident(s.subrange(i, j)), lex_from(s, j))
        } else {
            None
        }
    } else {
        None
    }
}

/// The tokens of a whole text.
pub open spec fn lex(s: Seq<char>) -> Option<Seq<Tok>> {
    lex_from(s, 0)
}

proof fn lemma_word_end(s: Seq<char>, i: int)
    requires
        0 <= i <= s.len(),
    ensures
        i <= word_end(s, i) <= s.len(),
    decreases s.len() - i,
{
    if i < s.len() && is_word_char(s[i]) {
        lemma_word_end(s, i + 1);
    }
}

proof fn lemma_quote_end(s: Seq<char>, i: int)
    requires
        0 <= i,
    ensures
        quote_end(s, i) matches Some(j) ==> i <= j < s.len(),
    decreases s.len() - i,
{
    if 0 <= i < s.len() && s[i] != '"' && s[i] != '\\' {
        lemma_quote_end(s, i + 1);
    }
}

/// Why a text could not be read as tokens.
#[derive(Debug, Clone, Copy, PartialEq, Eq)]
pub enum LexError {
    /// A character that starts no token, at this position.
    UnexpectedChar(usize),
    /// A string that starts at this position has no closing quote, or holds a
    /// backslash.
    UnterminatedString(usize),
}

fn char_is_space(c: char) -> (r: bool)
    ensures
        r == is_space(c),
{
    c == ' ' || c == '\n' || c == '\t' || c == '\r'
}

fn char_is_word(c: char) -> (r: bool)
    ensures
        r == is_word_char(c),
{
    ('a' <= c && c <= 'z') || ('A' <= c && c <= 'Z') || ('0' <= c && c <= '9') || c == '_'
}

fn punct_token(c: char) -> (r: Option<Token>)
    ensures
        match r {
            Some(t) => punct(c) == Some(t@),
            None => punct(c) is None,
        },
{
    if c == '(' {
        Some(Token::LParen)
    } else if c == ')' {
        Some(Token::RParen)
    } else if c == '[' {
        Some(Token::LBracket)
    } else if c == ']' {
        Some(Token::RBracket)
    } else if c == ':' {
        Some(Token::Colon)
    } else if c == ',' {
        Some(Token::Comma)
    } else {
        None
    }
}

/// Splits a text into tokens.
///
/// Succeeds exactly where `lex` gives tokens, and then gives those tokens.
pub fn tokenize(text: &str) -> (r: Result<Vec<Token>, LexError>)
    ensures
        r is Ok <==> lex(text@) is Some,
        r is Ok ==> toks_of(r->Ok_0@) == lex(text@)->Some_0,
{
    let n = text.unicode_len();
    let ghost s = text@;
    let mut out: Vec<Token> = Vec::new();
    let mut i: usize = 0;
    while i < n
        invariant
            n == s.len(),
            s == text@,
            i <= n,
            match lex_from(s, i as int) {
                Some(rest) => lex(s) == Some(toks_of(out@) + rest),
                None => lex(s) is None,
            },
        decreases n - i,
    {
        let c = text.get_char(i);
        let ghost before = toks_of(out@);
        if char_is_space(c) {
            i = i + 1;
        } else if let Some(t) = punct_token(c) {
            out.push(t);
            assert(toks_of(out@) =~= before + seq![t@]);
            i = i + 1;
            proof {
                if let Some(rest) = lex_from(s, i as int) {
                    assert(before + seq![t@] + rest =~= before + (seq![t@] + rest));
                }
            }
        } else if c == '"' {
            let mut j: usize = i + 1;
            proof {
                lemma_quote_end(s, (i + 1) as int);
            }
            while j < n && text.get_char(j) != '"' && text.get_char(j) != '\\'
                invariant
                    n == s.len(),
                    s == text@,
                    i < j <= n,
                    quote_end(s, (i + 1) as int) == quote_end(s, j as int),
                decreases n - j,
            {
                j = j + 1;
            }
            if j >= n || text.get_char(j) != '"' {
                return Err(LexError::UnterminatedString(i));
            }
            let word = text.substring_char(i + 1, j).to_owned();
            let t = Token::Str(word);
            out.push(t);
            assert(toks_of(out@) =~= before + seq![t@]);
            i = j + 1;
            proof {
                if let Some(rest) = lex_from(s, i as int) {
                    assert(before + seq![t@] + rest =~= before + (seq![t@] + rest));
                }
            }
        } else if char_is_word(c) {
            let mut j: usize = i;
            proof {
                lemma_word_end(s, i as int);
            }
            while j < n && char_is_word(text.get_char(j))
                invariant
                    n == s.len(),
                    s == text@,
                    i <= j <= n,
                    word_end(s, i as int) == word_end(s, j as int),
                    j == i ==> is_word_char(s[i as int]),
                decreases n - j,
            {
                j = j + 1;
            }
            let word = text.substring_char(i, j).to_owned();
            let t = Token::Ident(word);
            out.push(t);
            assert(toks_of(out@) =~= before + seq![t@]);
            i = j;
            proof {
                if let Some(rest) = lex_from(s, i as int) {
                    assert(before + seq![t@] + rest =~= before + (seq![t@] + rest));
                }
            }
        } else {
            return Err(LexError::UnexpectedChar(i));
        }
    }
    assert(toks_of(out@) + Seq::<Tok>::empty() =~= toks_of(out@));
    Ok(out)
}

} // verus!
