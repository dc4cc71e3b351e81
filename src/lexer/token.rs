//! Tokens: span-tagged lexical units.
use vstd::prelude::*;

use crate::span::Span;

verus! {

/// The closed set of token classes. Literal and identifier tokens carry no
/// text: it is recovered from the span.
#[derive(Debug, Copy, Clone, PartialEq, Eq, Structural)]
pub enum TokenKind {
    Plus,
    Minus,
    Star,
    Slash,
    UInt,
    String,
    Ident,
    If,
    For,
    Return,
    Fun,
    LParen,
    RParen,
    LBrace,
    RBrace,
    Eq,
    EqEq,
    Bang,
    BangEq,
    Dot,
    Semi,
    Comma,
}

/// A classified unit of source text and the range it covers.
#[derive(Debug, Copy, Clone, PartialEq, Eq, Structural)]
pub struct Token {
    pub span: Span,
    pub kind: TokenKind,
}

/// How a token of each kind is written in a diagnostic.
pub open spec fn kind_text(k: TokenKind) -> Seq<char> {
    match k {
        TokenKind::Plus => "+"@,
        TokenKind::Minus => "-"@,
        TokenKind::Star => "*"@,
        TokenKind::Slash => "/"@,
        TokenKind::UInt => "<uint>"@,
        TokenKind::String => "<string>"@,
        TokenKind::Ident => "<ident>"@,
        TokenKind::If => "if"@,
        TokenKind::For => "for"@,
        TokenKind::Return => "return"@,
        TokenKind::Fun => "fun"@,
        TokenKind::LParen => "("@,
        TokenKind::RParen => ")"@,
        TokenKind::LBrace => "{"@,
        TokenKind::RBrace => "}"@,
        TokenKind::Eq => "="@,
        TokenKind::EqEq => "=="@,
        TokenKind::Bang => "!"@,
        TokenKind::BangEq => "!="@,
        TokenKind::Dot => "."@,
        TokenKind::Semi => ";"@,
        TokenKind::Comma => ","@,
    }
}

impl TokenKind {
    /// The text that names this kind of token in a diagnostic.
    pub fn text(&self) -> (r: &'static str)
        ensures
            r@ == kind_text(*self),
    {
        match self {
            TokenKind::Plus => "+",
            TokenKind::Minus => "-",
            TokenKind::Star => "*",
            TokenKind::Slash => "/",
            TokenKind::UInt => "<uint>",
            TokenKind::String => "<string>",
            TokenKind::Ident => "<ident>",
            TokenKind::If => "if",
            TokenKind::For => "for",
            TokenKind::Return => "return",
            TokenKind::Fun => "fun",
            TokenKind::LParen => "(",
            TokenKind::RParen => ")",
            TokenKind::LBrace => "{",
            TokenKind::RBrace => "}",
            TokenKind::Eq => "=",
            TokenKind::EqEq => "==",
            TokenKind::Bang => "!",
            TokenKind::BangEq => "!=",
            TokenKind::Dot => ".",
            TokenKind::Semi => ";",
            TokenKind::Comma => ",",
        }
    }
}

} // verus!
