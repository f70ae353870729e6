//! Lexical and syntactic front end for a small logic-programming language in
//! the Prolog family.
//!
//! Source text is turned into a stream of classified tokens by the
//! [`scanner::Scanner`] and then into a sequence of clause nodes by the
//! [`parser::Parser`]. Lexical errors are reported as diagnostics and the
//! offending span is skipped; syntactic errors abort parsing with a typed
//! error carrying the source line.

pub mod errors;
pub mod expr;
pub mod literal;
pub mod parser;
pub mod scanner;
pub mod text;
pub mod token;
pub mod token_types;
