use vstd::prelude::*;
use crate::syntax::span::Span;

verus! {

/// The kind of a lexical token, with its payload for identifiers and integer literals.
#[derive(Debug, Clone, PartialEq, Eq)]
pub enum TokenKind {
    LParen,
    RParen,
    LBrace,
    RBrace,
    LBracket,
    RBracket,
    LAngle,
    RAngle,
    Comma,
    Colon,
    Eq,
    FatArrow,
    Pipe,
    Semi,
    Plus,
    Minus,
    Star,
    Slash,
    Arrow,
    Fn,
    Update,
    Query,
    State,
    Event,
    Enum,
    Record,
    Let,
    Match,
    Return,
    If,
    True,
    False,
    Underscore,
    Ident(String),
    Int(i64),
    Eof,
}

/// The kind of a token without its payload.
#[derive(Debug, Clone, Copy, PartialEq, Eq, Structural)]
pub enum TokenTag {
    LParen,
    RParen,
    LBrace,
    RBrace,
    LBracket,
    RBracket,
    LAngle,
    RAngle,
    Comma,
    Colon,
    Eq,
    FatArrow,
    Pipe,
    Semi,
    Plus,
    Minus,
    Star,
    Slash,
    Arrow,
    Fn,
    Update,
    Query,
    State,
    Event,
    Enum,
    Record,
    Let,
    Match,
    Return,
    If,
    True,
    False,
    Underscore,
    Ident,
    Int,
    Eof,
}

/// A token together with the source region it was read from.
#[derive(Debug, Clone, PartialEq, Eq)]
pub struct Token {
    pub kind: TokenKind,
    pub span: Span,
}

impl TokenKind {
    pub open spec fn tag(&self) -> TokenTag {
        match self {
            TokenKind::LParen => TokenTag::LParen,
            TokenKind::RParen => TokenTag::RParen,
            TokenKind::LBrace => TokenTag::LBrace,
            TokenKind::RBrace => TokenTag::RBrace,
            TokenKind::LBracket => TokenTag::LBracket,
            TokenKind::RBracket => TokenTag::RBracket,
            TokenKind::LAngle => TokenTag::LAngle,
            TokenKind::RAngle => TokenTag::RAngle,
            TokenKind::Comma => TokenTag::Comma,
            TokenKind::Colon => TokenTag::Colon,
            TokenKind::Eq => TokenTag::Eq,
            TokenKind::FatArrow => TokenTag::FatArrow,
            TokenKind::Pipe => TokenTag::Pipe,
            TokenKind::Semi => TokenTag::Semi,
            TokenKind::Plus => TokenTag::Plus,
            TokenKind::Minus => TokenTag::Minus,
            TokenKind::Star => TokenTag::Star,
            TokenKind::Slash => TokenTag::Slash,
            TokenKind::Arrow => TokenTag::Arrow,
            TokenKind::Fn => TokenTag::Fn,
            TokenKind::Update => TokenTag::Update,
            TokenKind::Query => TokenTag::Query,
            TokenKind::State => TokenTag::State,
            TokenKind::Event => TokenTag::Event,
            TokenKind::Enum => TokenTag::Enum,
            TokenKind::Record => TokenTag::Record,
            TokenKind::Let => TokenTag::Let,
            TokenKind::Match => TokenTag::Match,
            TokenKind::Return => TokenTag::Return,
            TokenKind::If => TokenTag::If,
            TokenKind::True => TokenTag::True,
            TokenKind::False => TokenTag::False,
            TokenKind::Underscore => TokenTag::Underscore,
            TokenKind::Ident(_) => TokenTag::Ident,
            TokenKind::Int(_) => TokenTag::Int,
            TokenKind::Eof => TokenTag::Eof,
        }
    }
}

impl TokenTag {
    /// The tag of a token kind.
    pub fn of(kind: &TokenKind) -> (t: TokenTag)
        ensures
            t == kind.tag(),
    {
        match kind {
            TokenKind::LParen => TokenTag::LParen,
            TokenKind::RParen => TokenTag::RParen,
            TokenKind::LBrace => TokenTag::LBrace,
            TokenKind::RBrace => TokenTag::RBrace,
            TokenKind::LBracket => TokenTag::LBracket,
            TokenKind::RBracket => TokenTag::RBracket,
            TokenKind::LAngle => TokenTag::LAngle,
            TokenKind::RAngle => TokenTag::RAngle,
            TokenKind::Comma => TokenTag::Comma,
            TokenKind::Colon => TokenTag::Colon,
            TokenKind::Eq => TokenTag::Eq,
            TokenKind::FatArrow => TokenTag::FatArrow,
            TokenKind::Pipe => TokenTag::Pipe,
            TokenKind::Semi => TokenTag::Semi,
            TokenKind::Plus => TokenTag::Plus,
            TokenKind::Minus => TokenTag::Minus,
            TokenKind::Star => TokenTag::Star,
            TokenKind::Slash => TokenTag::Slash,
            TokenKind::Arrow => TokenTag::Arrow,
            TokenKind::Fn => TokenTag::Fn,
            TokenKind::Update => TokenTag::Update,
            TokenKind::Query => TokenTag::Query,
            TokenKind::State => TokenTag::State,
            TokenKind::Event => TokenTag::Event,
            TokenKind::Enum => TokenTag::Enum,
            TokenKind::Record => TokenTag::Record,
            TokenKind::Let => TokenTag::Let,
            TokenKind::Match => TokenTag::Match,
            TokenKind::Return => TokenTag::Return,
            TokenKind::If => TokenTag::If,
            TokenKind::True => TokenTag::True,
            TokenKind::False => TokenTag::False,
            TokenKind::Underscore => TokenTag::Underscore,
            TokenKind::Ident(_) => TokenTag::Ident,
            TokenKind::Int(_) => TokenTag::Int,
            TokenKind::Eof => TokenTag::Eof,
        }
    }
}

/// How a token tag is named in diagnostics.
pub open spec fn tag_text(tag: TokenTag) -> &'static str {
    match tag {
        TokenTag::LParen => "`(`",
        TokenTag::RParen => "`)`",
        TokenTag::LBrace => "`{`",
        TokenTag::RBrace => "`}`",
        TokenTag::LBracket => "`[`",
        TokenTag::RBracket => "`]`",
        TokenTag::LAngle => "`<`",
        TokenTag::RAngle => "`>`",
        TokenTag::Comma => "`,`",
        TokenTag::Colon => "`:`",
        TokenTag::Eq => "`=`",
        TokenTag::FatArrow => "`=>`",
        TokenTag::Pipe => "`|`",
        TokenTag::Semi => "`;`",
        TokenTag::Plus => "`+`",
        TokenTag::Minus => "`-`",
        TokenTag::Star => "`*`",
        TokenTag::Slash => "`/`",
        TokenTag::Arrow => "`->`",
        TokenTag::Fn => "`fn`",
        TokenTag::Update => "`update`",
        TokenTag::Query => "`query`",
        TokenTag::State => "`state`",
        TokenTag::Event => "`event`",
        TokenTag::Enum => "`enum`",
        TokenTag::Record => "`record`",
        TokenTag::Let => "`let`",
        TokenTag::Match => "`match`",
        TokenTag::Return => "`return`",
        TokenTag::If => "`if`",
        TokenTag::True => "`true`",
        TokenTag::False => "`false`",
        TokenTag::Underscore => "`_`",
        TokenTag::Ident => "identifier",
        TokenTag::Int => "integer literal",
        TokenTag::Eof => "end of input",
    }
}

/// The name of a token tag as shown in diagnostics.
pub fn display_tag(tag: &TokenTag) -> (s: &'static str)
    ensures
        s == tag_text(*tag),
{
    match tag {
        TokenTag::LParen => "`(`",
        TokenTag::RParen => "`)`",
        TokenTag::LBrace => "`{`",
        TokenTag::RBrace => "`}`",
        TokenTag::LBracket => "`[`",
        TokenTag::RBracket => "`]`",
        TokenTag::LAngle => "`<`",
        TokenTag::RAngle => "`>`",
        TokenTag::Comma => "`,`",
        TokenTag::Colon => "`:`",
        TokenTag::Eq => "`=`",
        TokenTag::FatArrow => "`=>`",
        TokenTag::Pipe => "`|`",
        TokenTag::Semi => "`;`",
        TokenTag::Plus => "`+`",
        TokenTag::Minus => "`-`",
        TokenTag::Star => "`*`",
        TokenTag::Slash => "`/`",
        TokenTag::Arrow => "`->`",
        TokenTag::Fn => "`fn`",
        TokenTag::Update => "`update`",
        TokenTag::Query => "`query`",
        TokenTag::State => "`state`",
        TokenTag::Event => "`event`",
        TokenTag::Enum => "`enum`",
        TokenTag::Record => "`record`",
        TokenTag::Let => "`let`",
        TokenTag::Match => "`match`",
        TokenTag::Return => "`return`",
        TokenTag::If => "`if`",
        TokenTag::True => "`true`",
        TokenTag::False => "`false`",
        TokenTag::Underscore => "`_`",
        TokenTag::Ident => "identifier",
        TokenTag::Int => "integer literal",
        TokenTag::Eof => "end of input",
    }
}

} // verus!
