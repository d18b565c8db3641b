use vstd::prelude::*;
use crate::error::MarkupError;

verus! {

/// A lexical unit of markup text.
#[derive(Debug)]
pub enum Token {
    OpenParen,
    CloseParen,
    OpenBracket,
    CloseBracket,
    StringLiteral(String),
    Identifier(String),
    Equals,
}

/// The mathematical value of a token: its text as a sequence of characters.
pub enum Tok {
    OpenParen,
    CloseParen,
    OpenBracket,
    CloseBracket,
    StringLiteral(Seq<char>),
    Identifier(Seq<char>),
    Equals,
}

impl View for Token {
    type V = Tok;

    open spec fn view(&self) -> Tok {
        match self {
            Token::OpenParen => Tok::OpenParen,
            Token::CloseParen => Tok::CloseParen,
            Token::OpenBracket => Tok::OpenBracket,
            Token::CloseBracket => Tok::CloseBracket,
            Token::StringLiteral(s) => Tok::StringLiteral(s@),
            Token::Identifier(s) => Tok::Identifier(s@),
            Token::Equals => Tok::Equals,
        }
    }
}

/// The values of a token sequence.
pub open spec fn toks_of(v: Seq<Token>) -> Seq<Tok> {
    v.map_values(|t: Token| t@)
}

/// No identifier token is empty.
pub open spec fn identifiers_nonempty(toks: Seq<Tok>) -> bool {
    forall|i: int| 0 <= i < toks.len() ==> (#[trigger] toks[i] matches Tok::Identifier(w) ==> w.len() > 0)
}

/// Whether `c` has the Unicode `Alphabetic` property, as `char::is_alphabetic` decides.
pub uninterp spec fn alphabetic(c: char) -> bool;

/// Relies on `char::is_alphabetic`: true exactly for characters with the
/// Unicode `Alphabetic` property, which depends on the character alone.
#[verifier::external_body]
fn is_alphabetic(c: char) -> (r: bool)
    ensures
        r == alphabetic(c),
{
    c.is_alphabetic()
}

/// Characters that end an identifier.
pub open spec fn is_separator(c: char) -> bool {
    c == ' ' || c == '\n' || c == '{' || c == '}' || c == '(' || c == ')' || c == '='
}

/// The token that a separator character stands for, if any.
pub open spec fn separator_token(c: char) -> Option<Tok> {
    if c == '{' {
        Some(Tok::OpenBracket)
    } else if c == '}' {
        Some(Tok::CloseBracket)
    } else if c == '(' {
        Some(Tok::OpenParen)
    } else if c == ')' {
        Some(Tok::CloseParen)
    } else if c == '=' {
        Some(Tok::Equals)
    } else {
        None
    }
}

/// What the tokenizer holds between characters.
pub enum Pending {
    Nothing,
    Identifier(Seq<char>),
    Literal(Seq<char>),
}

/// `toks` with the pending identifier, if any, emitted.
pub open spec fn flush(toks: Seq<Tok>, p: Pending) -> Seq<Tok> {
    match p {
        Pending::Identifier(w) => toks.push(Tok::Identifier(w)),
        _ => toks,
    }
}

/// One step of the tokenizer: the emitted tokens and pending text after
/// reading `c`.
pub open spec fn lex_step(toks: Seq<Tok>, p: Pending, c: char) -> Result<(Seq<Tok>, Pending), MarkupError> {
    match p {
        Pending::Literal(w) => if c == '"' {
            Ok((toks.push(Tok::StringLiteral(w)), Pending::Nothing))
        } else {
            Ok((toks, Pending::Literal(w.push(c))))
        },
        _ => if alphabetic(c) {
            match p {
                Pending::Identifier(w) => Ok((toks, Pending::Identifier(w.push(c)))),
                _ => Ok((toks, Pending::Identifier(seq![c]))),
            }
        } else if is_separator(c) {
            match separator_token(c) {
                Some(t) => Ok((flush(toks, p).push(t), Pending::Nothing)),
                None => Ok((flush(toks, p), Pending::Nothing)),
            }
        } else if c == '"' {
            Ok((flush(toks, p), Pending::Literal(Seq::empty())))
        } else {
            Err(MarkupError::UnrecognizedCharacter(c))
        },
    }
}

/// The tokenizer's state after the first `n` characters of `s`.
pub open spec fn lex_prefix(s: Seq<char>, n: nat) -> Result<(Seq<Tok>, Pending), MarkupError>
    decreases n,
{
    if n == 0 {
        Ok((Seq::empty(), Pending::Nothing))
    } else {
        match lex_prefix(s, (n - 1) as nat) {
            Ok((toks, p)) => lex_step(toks, p, s[n - 1]),
            Err(e) => Err(e),
        }
    }
}

/// The tokens of the text `s`, or the first lexical error in it.
pub open spec fn lex(s: Seq<char>) -> Result<Seq<Tok>, MarkupError> {
    match lex_prefix(s, s.len()) {
        Ok((toks, Pending::Literal(_))) => Err(MarkupError::UnterminatedString),
        Ok((toks, p)) => Ok(flush(toks, p)),
        Err(e) => Err(e),
    }
}

/// Splits markup text into tokens in one pass over its characters.
///
/// Letters make identifiers; space and line feed only separate; `{ } ( ) =`
/// end an identifier and stand for themselves; `"` opens a string literal,
/// read verbatim up to the next `"`. An identifier still open when a `"` or
/// the end of the text comes is emitted. Any other character outside a
/// literal, and a literal left open at the end, reject the text.
pub fn tokenize(text: &str) -> (r: Result<Vec<Token>, MarkupError>)
    ensures
        match (r, lex(text@)) {
            (Ok(v), Ok(toks)) => toks_of(v@) == toks && identifiers_nonempty(toks),
            (Err(e), Err(f)) => e == f,
            _ => false,
        },
{
    let n = text.unicode_len();
    let mut tokens: Vec<Token> = Vec::new();
    // 0: nothing pending; 1: an identifier; 2: a string literal
    let mut mode: u8 = 0;
    let mut start: usize = 0;
    let mut i: usize = 0;
    while i < n
        invariant
            n == text@.len(),
            i <= n,
            start <= i,
            mode <= 2,
            mode == 1 ==> start < i,
            identifiers_nonempty(toks_of(tokens@)),
            lex_prefix(text@, i as nat) matches Ok((toks, p)) && toks == toks_of(tokens@)
                && p == pending_of(text@, mode, start, i),
        decreases n - i,
    {
        let c = text.get_char(i);
        let ghost before = toks_of(tokens@);
        let ghost pending = pending_of(text@, mode, start, i);
        proof {
            assert(lex_prefix(text@, (i + 1) as nat) == lex_step(before, pending, c));
            assert(text@.subrange(start as int, i + 1) =~= text@.subrange(start as int, i as int).push(c));
        }
        if mode == 2 {
            if c == '"' {
                let lit = String::from_str(text.substring_char(start, i));
                tokens.push(Token::StringLiteral(lit));
                mode = 0;
            }
        } else if is_alphabetic(c) {
            if mode == 0 {
                mode = 1;
                start = i;
                proof {
                    assert(text@.subrange(i as int, i + 1) =~= seq![c]);
                }
            }
        } else if c == ' ' || c == '\n' || c == '{' || c == '}' || c == '(' || c == ')' || c == '=' {
            if mode == 1 {
                let ident = String::from_str(text.substring_char(start, i));
                tokens.push(Token::Identifier(ident));
                mode = 0;
            }
            if c == '{' {
                tokens.push(Token::OpenBracket);
            } else if c == '}' {
                tokens.push(Token::CloseBracket);
            } else if c == '(' {
                tokens.push(Token::OpenParen);
            } else if c == ')' {
                tokens.push(Token::CloseParen);
            } else if c == '=' {
                tokens.push(Token::Equals);
            }
        } else if c == '"' {
            if mode == 1 {
                let ident = String::from_str(text.substring_char(start, i));
                tokens.push(Token::Identifier(ident));
            }
            mode = 2;
            start = i + 1;
            assert(text@.subrange(start as int, start as int) =~= Seq::<char>::empty());
        } else {
            proof {
                lemma_error_persists(text@, (i + 1) as nat, n as nat);
            }
            return Err(MarkupError::UnrecognizedCharacter(c));
        }
        i = i + 1;
        proof {
            assert(toks_of(tokens@) =~= lex_prefix(text@, i as nat)->Ok_0.0);
            assert(pending_of(text@, mode, start, i) == lex_prefix(text@, i as nat)->Ok_0.1);
        }
    }
    if mode == 2 {
        return Err(MarkupError::UnterminatedString);
    }
    if mode == 1 {
        let ident = String::from_str(text.substring_char(start, n));
        tokens.push(Token::Identifier(ident));
    }
    proof {
        assert(text@.subrange(start as int, n as int) == text@.subrange(start as int, text@.len() as int));
        assert(toks_of(tokens@) =~= lex(text@)->Ok_0);
    }
    Ok(tokens)
}

/// Once the tokenizer has failed, reading more characters does not change the error.
pub proof fn lemma_error_persists(s: Seq<char>, i: nat, j: nat)
    requires
        i <= j,
        lex_prefix(s, i) is Err,
    ensures
        lex_prefix(s, j) == lex_prefix(s, i),
    decreases j - i,
{
    if i < j {
        lemma_error_persists(s, i, (j - 1) as nat);
    }
}

/// The pending value that the executable state `(mode, start)` stands for
/// after the first `i` characters of `s`.
pub open spec fn pending_of(s: Seq<char>, mode: u8, start: usize, i: usize) -> Pending {
    if mode == 1 {
        Pending::Identifier(s.subrange(start as int, i as int))
    } else if mode == 2 {
        Pending::Literal(s.subrange(start as int, i as int))
    } else {
        Pending::Nothing
    }
}

} // verus!
