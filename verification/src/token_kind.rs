use vstd::prelude::*;

verus! {

/// The numeric base of an integer literal.
#[derive(Debug, Copy, Clone, PartialEq, Eq, PartialOrd, Ord, Hash)]
pub enum Base {
    Binary,
    Octal,
    Decimal,
    Hexadecimal,
}

/// The kinds of tokens produced by the lexer.
#[derive(Debug, Copy, Clone, PartialEq, Eq, PartialOrd, Ord, Hash)]
pub enum TokenKind {
    Ident,
    String { is_terminated: bool },
    Integer { base: Base, is_empty: bool },
    DefKw,
    LetKw,
    TrueKw,
    FalseKw,
    OpenParen,
    CloseParen,
    OpenBrace,
    CloseBrace,
    LessThan,
    GreaterThan,
    Plus,
    Minus,
    Star,
    Slash,
    Percent,
    And,
    Or,
    Xor,
    Arrow,
    Colon,
    Semicolon,
    Comma,
    Dot,
    Exclamation,
    Equals,
    Whitespace,
    BlockComment { is_terminated: bool },
    LineComment,
    Error,
}

/// Trivia are the tokens that carry no syntax: whitespace and comments.
pub open spec fn is_trivia_kind(kind: TokenKind) -> bool {
    ||| kind is Whitespace
    ||| kind is LineComment
    ||| kind is BlockComment
}

impl TokenKind {
    /// Whether this token is whitespace or a comment.
    pub fn is_trivia(self) -> (result: bool)
        ensures
            result == is_trivia_kind(self),
    {
        match self {
            TokenKind::Whitespace | TokenKind::LineComment | TokenKind::BlockComment { .. } => true,
            _ => false,
        }
    }
}

} // verus!
