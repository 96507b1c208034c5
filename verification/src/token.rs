//! The token model: a token kind, the raw lexeme the token was read from,
//! an optional literal payload, and the source line it started on.

use vstd::prelude::*;

verus! {

/// Every kind of token the scanner can produce.  `Eof` marks the end of
/// the token stream and is appended exactly once, after all other tokens.
#[derive(Clone, Copy, Debug, PartialEq, Eq, Structural)]
pub enum TokenType {
    LeftParen,
    RightParen,
    LeftBrace,
    RightBrace,
    Comma,
    Dot,
    Minus,
    Plus,
    Semicolon,
    Slash,
    Star,
    Bang,
    BangEqual,
    Equal,
    EqualEqual,
    Greater,
    GreaterEqual,
    Less,
    LessEqual,
    Identifier,
    String,
    Number,
    And,
    Class,
    Else,
    False,
    Fun,
    For,
    If,
    Nil,
    Or,
    Print,
    Return,
    Super,
    This,
    True,
    Var,
    While,
    Eof,
}

/// A marker for values that may appear as a literal payload; kept for
/// callers that want to abstract over payload sources.
pub trait Object {

}

/// The ghost image of a token: the same data with text as `Seq<char>`.
pub struct TokenModel {
    pub tty: TokenType,
    pub lexeme: Seq<char>,
    pub literal: Option<Seq<char>>,
    pub line: int,
}

/// One lexical unit of source text.
#[derive(Clone, Debug)]
pub struct Token {
    pub tty: TokenType,
    pub lexeme: std::string::String,
    pub literal: Option<std::string::String>,
    pub line: u64,
}

impl View for Token {
    type V = TokenModel;

    open spec fn view(&self) -> TokenModel {
        TokenModel {
            tty: self.tty,
            lexeme: self.lexeme@,
            literal: match self.literal {
                Option::Some(s) => Option::Some(s@),
                Option::None => Option::None,
            },
            line: self.line as int,
        }
    }
}

impl Token {
    /// An equal token: the same kind, text, payload and line.
    pub fn duplicate(&self) -> (r: Token)
        ensures
            r == *self,
    {
        Token {
            tty: self.tty,
            lexeme: self.lexeme.clone(),
            literal: match &self.literal {
                Option::Some(s) => Option::Some(s.clone()),
                Option::None => Option::None,
            },
            line: self.line,
        }
    }
}

} // verus!
