use vstd::prelude::*;

verus! {

/// Lexical category of a token.
#[derive(Clone, Copy, Debug, PartialEq, Eq, Structural)]
pub enum Kind {
    LeftParen,
    RightParen,
    LeftBrace,
    RightBrace,
    Comma,
    Plus,
    Minus,
    Star,
    Slash,
    Question,
    Colon,
    Semicolon,
    Bang,
    BangEqual,
    Equal,
    EqualEqual,
    Less,
    LessEqual,
    Greater,
    GreaterEqual,
    AmpAmp,
    BarBar,
    String,
    Number,
    Identifier,
    If,
    Else,
    Fn,
    Return,
    False,
    True,
    Loop,
    Break,
    Continue,
    Let,
    Type,
    EOF,
}

} // verus!
