//! Token model: a token kind tagged with its source byte span. Pure data.

use vstd::prelude::*;

verus! {

/// Inclusive byte-offset range into the source buffer: `TokenSpan(b, l)`
/// covers the bytes `b..=l` of the source.
#[derive(Clone, Copy, Debug, PartialEq, Eq, Structural)]
pub struct TokenSpan(pub usize, pub usize);

/// Variants for every kind of token recognized by the language.
/// Non-enumerated text (string literals, numbers, identifiers) is stored
/// in its variant's field (`Str`, `Number`, `Ident`) as the raw matched bytes.
#[derive(Clone, Debug)]
pub enum TokenKind {
    // Grouping
    LPar,
    RPar,
    LCurl,
    RCurl,

    // Operators
    Arrow,
    Colon,
    ColonColon,
    SemiColon,
    Dot,
    Comma,
    QMark,

    // Comparison
    Equal,
    EqualEqual,
    Bang,
    BangEqual,
    Less,
    LessEqual,
    More,
    MoreEqual,

    // Arithmetic
    Plus,
    Minus,
    Star,
    Slash,
    Modulo,
    Exponent,

    // Literals
    Ident(Vec<u8>),
    Number(Vec<u8>),
    Str(Vec<u8>),

    // Keywords
    Var,
    Const,
    If,
    Else,
    Elif,
    Def,
    From,
    Import,
    Class,
    Methods,
    Return,
    Flag,
    Print,

    // Other
    EOF,
}

/// Mathematical model of a token kind: literal payloads are byte sequences.
pub enum SpecKind {
    LPar,
    RPar,
    LCurl,
    RCurl,
    Arrow,
    Colon,
    ColonColon,
    SemiColon,
    Dot,
    Comma,
    QMark,
    Equal,
    EqualEqual,
    Bang,
    BangEqual,
    Less,
    LessEqual,
    More,
    MoreEqual,
    Plus,
    Minus,
    Star,
    Slash,
    Modulo,
    Exponent,
    Ident(Seq<u8>),
    Number(Seq<u8>),
    Str(Seq<u8>),
    Var,
    Const,
    If,
    Else,
    Elif,
    Def,
    From,
    Import,
    Class,
    Methods,
    Return,
    Flag,
    Print,
    EOF,
}

impl View for TokenKind {
    type V = SpecKind;

    open spec fn view(&self) -> SpecKind {
        match self {
            TokenKind::LPar => SpecKind::LPar,
            TokenKind::RPar => SpecKind::RPar,
            TokenKind::LCurl => SpecKind::LCurl,
            TokenKind::RCurl => SpecKind::RCurl,
            TokenKind::Arrow => SpecKind::Arrow,
            TokenKind::Colon => SpecKind::Colon,
            TokenKind::ColonColon => SpecKind::ColonColon,
            TokenKind::SemiColon => SpecKind::SemiColon,
            TokenKind::Dot => SpecKind::Dot,
            TokenKind::Comma => SpecKind::Comma,
            TokenKind::QMark => SpecKind::QMark,
            TokenKind::Equal => SpecKind::Equal,
            TokenKind::EqualEqual => SpecKind::EqualEqual,
            TokenKind::Bang => SpecKind::Bang,
            TokenKind::BangEqual => SpecKind::BangEqual,
            TokenKind::Less => SpecKind::Less,
            TokenKind::LessEqual => SpecKind::LessEqual,
            TokenKind::More => SpecKind::More,
            TokenKind::MoreEqual => SpecKind::MoreEqual,
            TokenKind::Plus => SpecKind::Plus,
            TokenKind::Minus => SpecKind::Minus,
            TokenKind::Star => SpecKind::Star,
            TokenKind::Slash => SpecKind::Slash,
            TokenKind::Modulo => SpecKind::Modulo,
            TokenKind::Exponent => SpecKind::Exponent,
            TokenKind::Ident(t) => SpecKind::Ident(t@),
            TokenKind::Number(t) => SpecKind::Number(t@),
            TokenKind::Str(t) => SpecKind::Str(t@),
            TokenKind::Var => SpecKind::Var,
            TokenKind::Const => SpecKind::Const,
            TokenKind::If => SpecKind::If,
            TokenKind::Else => SpecKind::Else,
            TokenKind::Elif => SpecKind::Elif,
            TokenKind::Def => SpecKind::Def,
            TokenKind::From => SpecKind::From,
            TokenKind::Import => SpecKind::Import,
            TokenKind::Class => SpecKind::Class,
            TokenKind::Methods => SpecKind::Methods,
            TokenKind::Return => SpecKind::Return,
            TokenKind::Flag => SpecKind::Flag,
            TokenKind::Print => SpecKind::Print,
            TokenKind::EOF => SpecKind::EOF,
        }
    }
}

/// Token stores the token variant and its position in the source code.
#[derive(Clone, Debug)]
pub struct Token {
    pub kind: TokenKind,
    pub span: TokenSpan,
}

/// Mathematical model of a token: a kind and the inclusive span `begin..=last`.
pub struct SpecToken {
    pub kind: SpecKind,
    pub begin: int,
    pub last: int,
}

impl View for Token {
    type V = SpecToken;

    open spec fn view(&self) -> SpecToken {
        SpecToken { kind: self.kind@, begin: self.span.0 as int, last: self.span.1 as int }
    }
}

/// The model of a whole token sequence.
pub open spec fn tokens_view(ts: Seq<Token>) -> Seq<SpecToken> {
    ts.map_values(|t: Token| t@)
}

impl Token {
    /// Builds a token covering the half-open byte range `begin..end`,
    /// stored as the inclusive span `begin..=end - 1`.
    pub fn new(kind: TokenKind, begin: usize, end: usize) -> (t: Token)
        requires
            begin < end,
        ensures
            t.kind == kind,
            t.span == (TokenSpan { 0: begin, 1: (end - 1) as usize }),
    {
        Token { kind, span: TokenSpan(begin, end - 1) }
    }
}

impl TokenKind {
    /// A branch node is any token that can begin or extend a construct;
    /// leaf literals (identifiers, numbers, strings) are not branch nodes.
    pub fn is_branch_node(&self) -> (r: bool)
        ensures
            r == !(self@ is Ident || self@ is Number || self@ is Str),
    {
        match self {
            TokenKind::Ident(_) => false,
            TokenKind::Str(_) => false,
            TokenKind::Number(_) => false,
            _ => true,
        }
    }
}

} // verus!
