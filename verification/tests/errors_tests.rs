use prolog::errors::{render_report, PrologError};
use prolog::token_types::TokenType;

#[test]
fn report_renders_line_and_message() {
    assert_eq!(render_report(1, "Unexpected character."), "Line[1] Error: Unexpected character.");
    assert_eq!(render_report(42, "Unterminated string."), "Line[42] Error: Unterminated string.");
    assert_eq!(render_report(0, "x"), "Line[0] Error: x");
    assert_eq!(render_report(1905, ""), "Line[1905] Error: ");
}

#[test]
fn token_type_names_are_stable() {
    assert_eq!(TokenType::ATOM.name(), "ATOM");
    assert_eq!(TokenType::COLONMINUS.name(), "COLONMINUS");
    assert_eq!(TokenType::DOT.name(), "DOT");
    assert_eq!(TokenType::COMMA.name(), "COMMA");
    assert_eq!(TokenType::EOF.name(), "EOF");
    assert_eq!(TokenType::NUMBER.name(), "NUMBER");
    assert_eq!(TokenType::VARIABLE.name(), "VARIABLE");
    assert_eq!(TokenType::LEFTPAREN.name(), "LEFTPAREN");
}

#[test]
fn error_taxonomy_carries_line_and_message() {
    let parser = PrologError::ParserError(3, "Expected clause.".to_string());
    match parser {
        PrologError::ParserError(line, message) => {
            assert_eq!(line, 3);
            assert_eq!(message, "Expected clause.");
        }
        _ => panic!("expected a parser error"),
    }

    let interpreter = PrologError::InterpreterError(7, "unbound".to_string());
    assert!(matches!(interpreter, PrologError::InterpreterError(7, _)));

    let io = PrologError::IOError("file not found".to_string());
    assert!(matches!(io, PrologError::IOError(_)));
}
