use vstd::prelude::*;

use crate::span::Span;

verus! {

#[derive(Clone, Copy, PartialEq, Eq, Structural, Debug)]
pub enum Keyword {
    From,
    Import,
    As,
    Export,
    Enum,
    Struct,
    Trait,
    Impl,
    Fn,
    Static,
    Type,
    Internal,
    Let,
    Mut,
    Return,
    If,
    Else,
    While,
    For,
    In,
    Break,
    Continue,
    Match,
    True,
    False,
}

#[derive(Debug)]
pub enum TokenKind {
    Identifier(String),
    Number(String),
    StringLiteral(String),
    CharLiteral(u32),
    Keyword(Keyword),
    LeftParen,
    RightParen,
    LeftBrace,
    RightBrace,
    LeftBracket,
    RightBracket,
    Colon,
    Comma,
    Dot,
    DotDot,
    DotDotEqual,
    Ellipsis,
    Slash,
    SlashEqual,
    Plus,
    PlusPlus,
    PlusEqual,
    Minus,
    MinusEqual,
    Star,
    StarEqual,
    Percent,
    PercentEqual,
    Equal,
    EqualEqual,
    Bang,
    BangEqual,
    Ampersand,
    AmpersandEqual,
    AndAnd,
    Pipe,
    PipeEqual,
    OrOr,
    Caret,
    CaretEqual,
    FatArrow,
    ShiftLeft,
    ShiftLeftEqual,
    ShiftRight,
    ShiftRightEqual,
    LessEqual,
    GreaterEqual,
    Less,
    Greater,
    Eof,
}

/// A kind that carries no payload (punctuation, operators and end of input).
pub open spec fn is_simple_kind(kind: TokenKind) -> bool {
    !(kind is Identifier || kind is Number || kind is StringLiteral || kind is CharLiteral
        || kind is Keyword)
}

impl Clone for TokenKind {
    fn clone(&self) -> (kind: Self)
        ensures
            kind == *self,
    {
        match self {
            TokenKind::Identifier(name) => TokenKind::Identifier(name.clone()),
            TokenKind::Number(value) => TokenKind::Number(value.clone()),
            TokenKind::StringLiteral(value) => TokenKind::StringLiteral(value.clone()),
            TokenKind::CharLiteral(value) => TokenKind::CharLiteral(*value),
            TokenKind::Keyword(keyword) => TokenKind::Keyword(*keyword),
            TokenKind::LeftParen => TokenKind::LeftParen,
            TokenKind::RightParen => TokenKind::RightParen,
            TokenKind::LeftBrace => TokenKind::LeftBrace,
            TokenKind::RightBrace => TokenKind::RightBrace,
            TokenKind::LeftBracket => TokenKind::LeftBracket,
            TokenKind::RightBracket => TokenKind::RightBracket,
            TokenKind::Colon => TokenKind::Colon,
            TokenKind::Comma => TokenKind::Comma,
            TokenKind::Dot => TokenKind::Dot,
            TokenKind::DotDot => TokenKind::DotDot,
            TokenKind::DotDotEqual => TokenKind::DotDotEqual,
            TokenKind::Ellipsis => TokenKind::Ellipsis,
            TokenKind::Slash => TokenKind::Slash,
            TokenKind::SlashEqual => TokenKind::SlashEqual,
            TokenKind::Plus => TokenKind::Plus,
            TokenKind::PlusPlus => TokenKind::PlusPlus,
            TokenKind::PlusEqual => TokenKind::PlusEqual,
            TokenKind::Minus => TokenKind::Minus,
            TokenKind::MinusEqual => TokenKind::MinusEqual,
            TokenKind::Star => TokenKind::Star,
            TokenKind::StarEqual => TokenKind::StarEqual,
            TokenKind::Percent => TokenKind::Percent,
            TokenKind::PercentEqual => TokenKind::PercentEqual,
            TokenKind::Equal => TokenKind::Equal,
            TokenKind::EqualEqual => TokenKind::EqualEqual,
            TokenKind::Bang => TokenKind::Bang,
            TokenKind::BangEqual => TokenKind::BangEqual,
            TokenKind::Ampersand => TokenKind::Ampersand,
            TokenKind::AmpersandEqual => TokenKind::AmpersandEqual,
            TokenKind::AndAnd => TokenKind::AndAnd,
            TokenKind::Pipe => TokenKind::Pipe,
            TokenKind::PipeEqual => TokenKind::PipeEqual,
            TokenKind::OrOr => TokenKind::OrOr,
            TokenKind::Caret => TokenKind::Caret,
            TokenKind::CaretEqual => TokenKind::CaretEqual,
            TokenKind::FatArrow => TokenKind::FatArrow,
            TokenKind::ShiftLeft => TokenKind::ShiftLeft,
            TokenKind::ShiftLeftEqual => TokenKind::ShiftLeftEqual,
            TokenKind::ShiftRight => TokenKind::ShiftRight,
            TokenKind::ShiftRightEqual => TokenKind::ShiftRightEqual,
            TokenKind::LessEqual => TokenKind::LessEqual,
            TokenKind::GreaterEqual => TokenKind::GreaterEqual,
            TokenKind::Less => TokenKind::Less,
            TokenKind::Greater => TokenKind::Greater,
            TokenKind::Eof => TokenKind::Eof,
        }
    }
}

/// A lexed token: its kind, where it stands, and its source text.
#[derive(Debug)]
pub struct Token {
    pub kind: TokenKind,
    pub span: Span,
    pub lexeme: String,
}

impl Clone for Token {
    fn clone(&self) -> (token: Self)
        ensures
            token == *self,
    {
        Token { kind: self.kind.clone(), span: self.span, lexeme: self.lexeme.clone() }
    }
}

} // verus!
