//! Tokens: the kind tags, the token record and its mathematical view.
use vstd::prelude::*;

verus! {

/// The closed set of token kinds.
#[derive(Debug, Clone, Copy, PartialEq, Eq, Hash, Structural)]
pub enum TokenKind {
    // Single-character punctuation.
    LeftParen,
    RightParen,
    LeftBrace,
    RightBrace,
    Comma,
    Dot,
    Minus,
    Plus,
    Semicolon,
    Slash,
    Star,
    // One- or two-character operators.
    Bang,
    BangEqual,
    Equal,
    EqualEqual,
    Greater,
    GreaterEqual,
    Less,
    LessEqual,
    // Literals.
    Identifier,
    String,
    Number,
    // Keywords.
    And,
    Class,
    Else,
    False,
    Fun,
    For,
    If,
    Nil,
    Or,
    Print,
    Return,
    Super,
    This,
    True,
    Var,
    While,
    /// The end-of-input sentinel.
    End,
}

/// What a token is, as plain mathematical data.
pub struct TokenData {
    pub kind: TokenKind,
    /// The exact source text that was matched; empty for `End`.
    pub lexeme: Seq<char>,
    /// The 1-based line on which the token begins.
    pub line: nat,
    /// The decoded payload of a string or a number; empty otherwise.
    pub literal: Seq<char>,
}

/// One lexical unit of the source text.
#[derive(Debug, PartialEq, Eq)]
pub struct Token {
    token_type: TokenKind,
    lexeme: String,
    line: usize,
    literal: String,
}

impl View for Token {
    type V = TokenData;

    closed spec fn view(&self) -> TokenData {
        TokenData {
            kind: self.token_type,
            lexeme: self.lexeme@,
            line: self.line as nat,
            literal: self.literal@,
        }
    }
}

impl Clone for Token {
    fn clone(&self) -> (token: Self)
        ensures
            token@ == self@,
    {
        Token {
            token_type: self.token_type,
            lexeme: self.lexeme.clone(),
            line: self.line,
            literal: self.literal.clone(),
        }
    }
}

impl Token {
    /// A token of the given kind, lexeme, line and payload.
    pub fn new(token_type: TokenKind, lexeme: String, line: usize, literal: String) -> (token: Self)
        ensures
            token@ == (TokenData {
                kind: token_type,
                lexeme: lexeme@,
                line: line as nat,
                literal: literal@,
            }),
    {
        Token { token_type, lexeme, line, literal }
    }

    /// The kind of the token.
    pub fn kind(&self) -> (kind: TokenKind)
        ensures
            kind == self@.kind,
    {
        self.token_type
    }

    /// The exact source text that was matched; empty for the end-of-input
    /// token.
    pub fn lexeme(&self) -> (lexeme: &str)
        ensures
            lexeme@ == self@.lexeme,
    {
        self.lexeme.as_str()
    }

    /// The 1-based line on which the token begins.
    pub fn line(&self) -> (line: usize)
        ensures
            line as nat == self@.line,
    {
        self.line
    }

    /// The decoded payload of a string or a number; empty otherwise.
    pub fn literal(&self) -> (literal: &str)
        ensures
            literal@ == self@.literal,
    {
        self.literal.as_str()
    }
}

/// The views of a sequence of tokens, in the same order.
pub open spec fn token_views(tokens: Seq<Token>) -> Seq<TokenData> {
    Seq::new(tokens.len(), |i: int| tokens[i]@)
}

} // verus!
