use prolog::errors::PrologError;
use prolog::expr::{Expr, LiteralObj, Rule, UnitClause, Visitor};
use prolog::literal::Literal;
use prolog::parser::Parser;
use prolog::scanner::Scanner;

#[test]
fn test_unit_clauses() -> Result<(), PrologError> {
    let text = String::from("d.\nf. \ne.");
    let source = text.chars().collect();
    let mut scanner = Scanner::new(source);
    let tokens = scanner.scan_tokens();

    let mut parser = Parser::new(tokens);
    let rules = parser.parse()?;

    let atom_lexemes = vec!["d", "f", "e"];

    for (i, rule) in rules.iter().enumerate() {
        match &rule.value.literal.value {
            Literal::Atom(a) => assert_eq!(a, atom_lexemes[i]),
            _ => {
                return Err(PrologError::ParserError(0, "Invalid atom type.".to_string()));
            }
        }
    }

    Ok(())
}

#[test]
fn parse_yields_exactly_three_rules() {
    let text = String::from("d.\nf. \ne.");
    let source = text.chars().collect();
    let mut scanner = Scanner::new(source);
    let tokens = scanner.scan_tokens();

    let mut parser = Parser::new(tokens);
    let rules = parser.parse().unwrap();
    assert_eq!(rules.len(), 3);
}

#[test]
fn empty_program_parses_to_no_rules() {
    let mut scanner = Scanner::new(Vec::new());
    let tokens = scanner.scan_tokens();
    let mut parser = Parser::new(tokens);
    let rules = parser.parse().unwrap();
    assert!(rules.is_empty());
}

#[test]
fn malformed_rule_fails_with_offending_line() {
    // a head/body clause is recognized lexically but not parsed: the atom is
    // followed by `:-` instead of `.`, and the error carries that token's line
    let text = String::from("a :- b.");
    let source = text.chars().collect();
    let mut scanner = Scanner::new(source);
    let tokens = scanner.scan_tokens();

    let mut parser = Parser::new(tokens);
    match parser.parse() {
        Err(PrologError::ParserError(line, message)) => {
            assert_eq!(line, 1);
            assert_eq!(message, "Expected clause.");
        }
        _ => panic!("expected a parser error"),
    }
}

#[test]
fn failure_after_valid_rules_returns_no_rules() {
    let text = String::from("d.\nx y.");
    let source = text.chars().collect();
    let mut scanner = Scanner::new(source);
    let tokens = scanner.scan_tokens();

    let mut parser = Parser::new(tokens);
    match parser.parse() {
        Err(PrologError::ParserError(line, message)) => {
            assert_eq!(line, 2);
            assert_eq!(message, "Expected clause.");
        }
        _ => panic!("expected a parser error"),
    }
}

#[test]
fn variable_where_atom_is_needed_fails() {
    let text = String::from("X.");
    let source = text.chars().collect();
    let mut scanner = Scanner::new(source);
    let tokens = scanner.scan_tokens();

    let mut parser = Parser::new(tokens);
    match parser.parse() {
        Err(PrologError::ParserError(line, message)) => {
            assert_eq!(line, 1);
            assert_eq!(message, "Expected atom.");
        }
        _ => panic!("expected a parser error"),
    }
}

struct NameVisitor;

impl Visitor for NameVisitor {
    fn visit_literal_expr(&self, expr: &LiteralObj) -> Result<Literal, PrologError> {
        Ok(expr.value.clone())
    }

    fn visit_unit_clause_expr(&self, expr: &UnitClause) -> Result<Literal, PrologError> {
        Ok(expr.literal.value.clone())
    }

    fn visit_rule_expr(&self, expr: &Rule) -> Result<Literal, PrologError> {
        Ok(expr.value.literal.value.clone())
    }
}

#[test]
fn accept_dispatches_by_node_kind() {
    let node = Expr::Rule(Rule::new(UnitClause::new(LiteralObj::new(Literal::Atom(
        "p".to_string(),
    )))));
    let visitor = NameVisitor;
    match node.accept(&visitor) {
        Ok(Literal::Atom(a)) => assert_eq!(a, "p"),
        _ => panic!("expected the wrapped atom"),
    }

    let leaf = Expr::Literal(LiteralObj::new(Literal::Variable("X".to_string())));
    match leaf.accept(&visitor) {
        Ok(Literal::Variable(v)) => assert_eq!(v, "X"),
        _ => panic!("expected the wrapped variable"),
    }
}
