use vstd::prelude::*;

verus! {

/// A point in a source file: byte offset, 1-based line and 1-based column.
#[derive(Debug, Clone, Copy, PartialEq, Eq, Structural, Default)]
pub struct Position {
    pub offset: usize,
    pub line: usize,
    pub column: usize,
}

impl Position {
    pub fn new(offset: usize, line: usize, column: usize) -> (p: Self)
        ensures
            p == (Position { offset, line, column }),
    {
        Position { offset, line, column }
    }
}

/// A range of source text in a named file.
#[derive(Debug, Clone, PartialEq, Eq)]
pub struct Span {
    pub file: String,
    pub start: Position,
    pub end: Position,
}

impl Span {
    pub fn new(file: &str, start: Position, end: Position) -> (s: Self)
        ensures
            s.file@ == file@,
            s.start == start,
            s.end == end,
    {
        Span { file: String::from_str(file), start, end }
    }

    /// A copy of this span that Verus knows to be equal to it.
    pub fn duplicate(&self) -> (s: Self)
        ensures
            s == *self,
    {
        Span { file: self.file.clone(), start: self.start, end: self.end }
    }

    /// The span from the start of `self` to the end of `other`.
    pub fn cover(&self, other: &Span) -> (s: Self)
        requires
            self.file@ == other.file@,
        ensures
            s == (Span { file: self.file, start: self.start, end: other.end }),
    {
        Span { file: self.file.clone(), start: self.start, end: other.end }
    }
}

/// The lexical categories of Densleaf source.
#[derive(Debug, Clone, PartialEq, Eq)]
pub enum TokenKind {
    Model,
    Controller,
    Middleware,
    Migration,
    Policy,
    For,
    Event,
    Listener,
    Listens,
    Notification,
    Mail,
    Let,
    Return,
    Null,
    True,
    False,
    Identifier(String),
    StringLiteral(String),
    IntegerLiteral(i64),
    LeftBrace,
    RightBrace,
    LeftParen,
    RightParen,
    LeftBracket,
    RightBracket,
    Colon,
    Comma,
    Dot,
    Equal,
    EqualEqual,
    Bang,
    BangEqual,
    Plus,
    Minus,
    Star,
    Slash,
    Percent,
    Less,
    LessEqual,
    Greater,
    GreaterEqual,
    AndAnd,
    OrOr,
    Eof,
}

/// A token: its kind and where it stands in the source.
#[derive(Debug, Clone, PartialEq, Eq)]
pub struct Token {
    pub kind: TokenKind,
    pub span: Span,
}

impl Token {
    pub fn new(kind: TokenKind, span: Span) -> (t: Self)
        ensures
            t == (Token { kind, span }),
    {
        Token { kind, span }
    }
}

} // verus!
