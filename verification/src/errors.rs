//! The typed error taxonomy used for fatal propagation, and the rendering of
//! diagnostic lines for the non-fatal lexical channel.

use crate::text::{decimal_str, push_decimal};
use vstd::prelude::*;
use vstd::string::StringExecFns;

verus! {

/// A fatal error of this front end: a syntactic failure, an evaluation
/// failure, or a failure of the (out-of-scope) source-loading step, carried
/// as its rendered message. The first two carry the 1-based source line and a
/// human-readable message.
#[derive(Debug)]
pub enum PrologError {
    ParserError(usize, String),
    InterpreterError(usize, String),
    IOError(String),
}

/// The mathematical model of one diagnostic: a 1-based source line and a
/// message.
pub struct DiagnosticView {
    pub line: int,
    pub message: Seq<char>,
}

/// One recoverable lexical issue, reported and skipped by the scanner.
#[derive(Debug)]
pub struct Diagnostic {
    pub line: usize,
    pub message: String,
}

impl View for Diagnostic {
    type V = DiagnosticView;

    open spec fn view(&self) -> DiagnosticView {
        DiagnosticView { line: self.line as int, message: self.message@ }
    }
}

/// The exact text of a rendered diagnostic line.
pub open spec fn report_line(line: int, message: Seq<char>) -> Seq<char> {
    "Line["@ + decimal_str(line) + "] Error: "@ + message
}

/// Renders a diagnostic as the line `Line[<n>] Error: <message>`. Writing it
/// to the standard output stream is the caller's concern.
pub fn render_report(line: usize, message: &str) -> (s: String)
    ensures
        s@ == report_line(line as int, message@),
{
    let mut s = String::from_str("Line[");
    push_decimal(line, &mut s);
    s.append("] Error: ");
    s.append(message);
    s
}

} // verus!
