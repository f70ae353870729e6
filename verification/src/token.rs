//! The immutable token record produced by the scanner.

use crate::literal::{Literal, LiteralView};
use crate::token_types::TokenType;
use vstd::prelude::*;

verus! {

/// The mathematical model of a [`Token`]: its category, the exact source
/// substring that produced it, an optional literal payload, and the 1-based
/// source line it starts on (for a quoted atom, the line it ends on).
pub struct TokenView {
    pub token_type: TokenType,
    pub lexeme: Seq<char>,
    pub literal: Option<LiteralView>,
    pub line: int,
}

/// One scanned token: category, raw lexeme text, optional literal payload,
/// and source line number.
#[derive(Debug)]
pub struct Token {
    pub token_type: TokenType,
    pub lexeme: String,
    pub literal: Option<Literal>,
    pub line: usize,
}

impl View for Token {
    type V = TokenView;

    open spec fn view(&self) -> TokenView {
        TokenView {
            token_type: self.token_type,
            lexeme: self.lexeme@,
            literal: match &self.literal {
                Some(l) => Some(l@),
                None => None,
            },
            line: self.line as int,
        }
    }
}

impl Token {
    /// Builds a token from its parts; the lexeme text is copied.
    pub fn new(token_type: TokenType, lexeme: &str, literal: Option<Literal>, line: usize) -> (r:
        Token)
        ensures
            r@ == (TokenView {
                token_type,
                lexeme: lexeme@,
                literal: match literal {
                    Some(l) => Some(l@),
                    None => None,
                },
                line: line as int,
            }),
    {
        Token { token_type, lexeme: lexeme.to_owned(), literal, line }
    }
}

impl Clone for Token {
    fn clone(&self) -> (r: Self)
        ensures
            r@ == self@,
    {
        Token {
            token_type: self.token_type,
            lexeme: self.lexeme.clone(),
            literal: match &self.literal {
                Some(l) => Some(l.clone()),
                None => None,
            },
            line: self.line,
        }
    }
}

} // verus!
