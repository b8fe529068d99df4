//! Lexical units of the language, their mathematical model, and lexical errors.
use vstd::prelude::*;

verus! {

/// One lexical unit. Literal payloads own their text.
#[derive(Debug, Clone, PartialEq)]
pub enum Token {
    OpenBrace,
    CloseBrace,
    OpenParen,
    CloseParen,
    OpenBracket,
    CloseBracket,
    Comma,
    Dot,
    Plus,
    Minus,
    Star,
    Slash,
    Equal,
    EqualEqual,
    Not,
    NotEqual,
    Greater,
    GreaterEqual,
    Less,
    LessEqual,
    /// A number literal, kept as the digits (and at most one interior dot)
    /// that spell it.
    Number(String),
    /// The text strictly between the quotes of a string literal.
    String(String),
    Identifier(String),
    And,
    Else,
    False,
    Fn,
    For,
    If,
    Nil,
    Or,
    Print,
    Return,
    This,
    True,
    Let,
    While,
    NewLine,
}

/// The mathematical model of a [`Token`]: literal payloads as character sequences.
pub enum TokenV {
    OpenBrace,
    CloseBrace,
    OpenParen,
    CloseParen,
    OpenBracket,
    CloseBracket,
    Comma,
    Dot,
    Plus,
    Minus,
    Star,
    Slash,
    Equal,
    EqualEqual,
    Not,
    NotEqual,
    Greater,
    GreaterEqual,
    Less,
    LessEqual,
    Number(Seq<char>),
    String(Seq<char>),
    Identifier(Seq<char>),
    And,
    Else,
    False,
    Fn,
    For,
    If,
    Nil,
    Or,
    Print,
    Return,
    This,
    True,
    Let,
    While,
    NewLine,
}

impl View for Token {
    type V = TokenV;

    open spec fn view(&self) -> TokenV {
        match self {
            Token::OpenBrace => TokenV::OpenBrace,
            Token::CloseBrace => TokenV::CloseBrace,
            Token::OpenParen => TokenV::OpenParen,
            Token::CloseParen => TokenV::CloseParen,
            Token::OpenBracket => TokenV::OpenBracket,
            Token::CloseBracket => TokenV::CloseBracket,
            Token::Comma => TokenV::Comma,
            Token::Dot => TokenV::Dot,
            Token::Plus => TokenV::Plus,
            Token::Minus => TokenV::Minus,
            Token::Star => TokenV::Star,
            Token::Slash => TokenV::Slash,
            Token::Equal => TokenV::Equal,
            Token::EqualEqual => TokenV::EqualEqual,
            Token::Not => TokenV::Not,
            Token::NotEqual => TokenV::NotEqual,
            Token::Greater => TokenV::Greater,
            Token::GreaterEqual => TokenV::GreaterEqual,
            Token::Less => TokenV::Less,
            Token::LessEqual => TokenV::LessEqual,
            Token::Number(s) => TokenV::Number(s@),
            Token::String(s) => TokenV::String(s@),
            Token::Identifier(s) => TokenV::Identifier(s@),
            Token::And => TokenV::And,
            Token::Else => TokenV::Else,
            Token::False => TokenV::False,
            Token::Fn => TokenV::Fn,
            Token::For => TokenV::For,
            Token::If => TokenV::If,
            Token::Nil => TokenV::Nil,
            Token::Or => TokenV::Or,
            Token::Print => TokenV::Print,
            Token::Return => TokenV::Return,
            Token::This => TokenV::This,
            Token::True => TokenV::True,
            Token::Let => TokenV::Let,
            Token::While => TokenV::While,
            Token::NewLine => TokenV::NewLine,
        }
    }
}

/// A token with the byte offsets of its first byte and of the byte just past it.
#[derive(Debug, Clone, PartialEq)]
pub struct Spanned {
    pub start: usize,
    pub token: Token,
    pub end: usize,
}

/// A malformed character sequence, with the byte offset where it begins.
#[derive(Debug, Clone, Copy, PartialEq, Eq, Structural)]
pub enum LexError {
    /// A `"` with no closing `"` before the end of the input.
    UnterminatedString { start: usize },
    /// A character that no token begins with.
    UnexpectedChar { ch: char, pos: usize },
}

} // verus!

verus! {

/// The model of a [`Spanned`] token.
pub struct SpannedV {
    pub start: nat,
    pub token: TokenV,
    pub end: nat,
}

impl View for Spanned {
    type V = SpannedV;

    open spec fn view(&self) -> SpannedV {
        SpannedV { start: self.start as nat, token: self.token@, end: self.end as nat }
    }
}

} // verus!
