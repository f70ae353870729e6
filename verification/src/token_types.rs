//! The closed set of lexical categories, each with a stable display name.

use vstd::prelude::*;

verus! {

/// The lexical category of a token.
#[allow(non_camel_case_types)]
#[derive(Clone, Copy, Debug, PartialEq, Eq, Structural)]
pub enum TokenType {
    // Single-character tokens.
    LEFTPAREN,
    RIGHTPAREN,
    LEFTBRACE,
    RIGHTBRACE,
    COMMA,
    DOT,
    MINUS,
    PLUS,
    SEMICOLON,
    SLASH,
    STAR,
    // Two-character tokens.
    COLONMINUS,
    // Literals.
    ATOM,
    VARIABLE,
    NUMBER,
    EOF,
}

/// The stable display name of each category, as a character sequence.
pub open spec fn token_name(t: TokenType) -> Seq<char> {
    match t {
        TokenType::LEFTPAREN => "LEFTPAREN"@,
        TokenType::RIGHTPAREN => "RIGHTPAREN"@,
        TokenType::LEFTBRACE => "LEFTBRACE"@,
        TokenType::RIGHTBRACE => "RIGHTBRACE"@,
        TokenType::COMMA => "COMMA"@,
        TokenType::DOT => "DOT"@,
        TokenType::MINUS => "MINUS"@,
        TokenType::PLUS => "PLUS"@,
        TokenType::SEMICOLON => "SEMICOLON"@,
        TokenType::SLASH => "SLASH"@,
        TokenType::STAR => "STAR"@,
        TokenType::COLONMINUS => "COLONMINUS"@,
        TokenType::ATOM => "ATOM"@,
        TokenType::VARIABLE => "VARIABLE"@,
        TokenType::NUMBER => "NUMBER"@,
        TokenType::EOF => "EOF"@,
    }
}

impl TokenType {
    /// The stable name used in diagnostics and in equality-by-name tests.
    pub fn name(&self) -> (r: &'static str)
        ensures
            r@ == token_name(*self),
    {
        match self {
            TokenType::LEFTPAREN => "LEFTPAREN",
            TokenType::RIGHTPAREN => "RIGHTPAREN",
            TokenType::LEFTBRACE => "LEFTBRACE",
            TokenType::RIGHTBRACE => "RIGHTBRACE",
            TokenType::COMMA => "COMMA",
            TokenType::DOT => "DOT",
            TokenType::MINUS => "MINUS",
            TokenType::PLUS => "PLUS",
            TokenType::SEMICOLON => "SEMICOLON",
            TokenType::SLASH => "SLASH",
            TokenType::STAR => "STAR",
            TokenType::COLONMINUS => "COLONMINUS",
            TokenType::ATOM => "ATOM",
            TokenType::VARIABLE => "VARIABLE",
            TokenType::NUMBER => "NUMBER",
            TokenType::EOF => "EOF",
        }
    }
}

} // verus!
