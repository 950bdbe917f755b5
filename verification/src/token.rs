//! The token vocabulary shared by the lexer and the parser: token kinds,
//! lexeme text, and source spans.

use vstd::prelude::*;

verus! {

/// The closed set of token kinds the lexer can produce.
#[derive(Debug, PartialEq, Eq, Clone, Copy, Structural)]
pub enum TokenType {
    // Single-character tokens.
    Leftparen,
    Rightparen,
    Leftcurl,
    Rightcurl,
    Leftbrack,
    Rightbrack,
    Comma,
    Dot,
    Minus,
    Plus,
    Semicolon,
    Slash,
    Remainder,
    // One or two character tokens.
    Star,
    Power,
    Bang,
    Bangequal,
    Equal,
    Equalequal,
    Greater,
    Greaterequal,
    Less,
    Lessequal,
    And,
    Or,
    // Literals.
    Identifier,
    String,
    Int,
    Double,
    // Keywords.
    Class,
    Else,
    False,
    Fn,
    For,
    If,
    Null,
    Return,
    Super,
    This,
    True,
    While,
    In,
}

/// Half-open byte-offset range `[start, end)` into the original source text.
#[derive(Debug, PartialEq, Eq, Clone, Copy, Structural)]
pub struct TokenSpan {
    pub start: usize,
    pub end: usize,
}

/// One classified unit of source text. `lexeme` is the exact substring the
/// token was derived from, except for string tokens, where the surrounding
/// quote characters are stripped from `lexeme` but remain inside `span`.
#[derive(Debug)]
pub struct Token {
    pub token_type: TokenType,
    pub lexeme: String,
    pub span: TokenSpan,
}

impl Clone for Token {
    fn clone(&self) -> (r: Self)
        ensures
            r == *self,
    {
        Token { token_type: self.token_type, lexeme: self.lexeme.clone(), span: self.span }
    }
}

/// The mathematical value of a token: its kind, the characters of its lexeme,
/// and its span as unbounded integers.
pub struct SpecToken {
    pub kind: TokenType,
    pub lexeme: Seq<char>,
    pub start: int,
    pub end: int,
}

impl View for Token {
    type V = SpecToken;

    open spec fn view(&self) -> SpecToken {
        SpecToken {
            kind: self.token_type,
            lexeme: self.lexeme@,
            start: self.span.start as int,
            end: self.span.end as int,
        }
    }
}

/// The values of a sequence of tokens.
pub open spec fn tokens_view(ts: Seq<Token>) -> Seq<SpecToken> {
    ts.map(|i: int, t: Token| t@)
}

} // verus!
