use prolog::literal::Literal;
use prolog::scanner::Scanner;
use prolog::token_types::TokenType;

#[test]
fn scan_sample_tokens() {
    let text = String::from("a :- b, c, d.\nb :-f. \ne.");
    let source = text.chars().collect();
    let mut scanner = Scanner::new(source);
    let tokens = scanner.scan_tokens();

    let assert_tokens = vec![
        TokenType::ATOM,
        TokenType::COLONMINUS,
        TokenType::ATOM,
        TokenType::COMMA,
        TokenType::ATOM,
        TokenType::COMMA,
        TokenType::ATOM,
        TokenType::DOT,
        TokenType::ATOM,
        TokenType::COLONMINUS,
        TokenType::ATOM,
        TokenType::DOT,
        TokenType::ATOM,
        TokenType::DOT,
        TokenType::EOF,
    ];

    let assert_lexeme = vec![
        "a", ":-", "b", ",", "c", ",", "d", ".", "b", ":-", "f", ".", "e", ".", "",
    ];

    for (i, t) in tokens.iter().enumerate() {
        assert_eq!(assert_tokens[i].name(), t.token_type.name());
        assert_eq!(assert_lexeme[i], t.lexeme);
    }
    assert_eq!(tokens.len(), assert_tokens.len());
}

#[test]
fn eof_token_is_last_empty_and_on_final_line() {
    let text = String::from("a :- b, c, d.\nb :-f. \ne.");
    let source = text.chars().collect();
    let mut scanner = Scanner::new(source);
    let tokens = scanner.scan_tokens();

    let last = tokens.last().unwrap();
    assert!(matches!(last.token_type, TokenType::EOF));
    assert_eq!(last.lexeme, "");
    assert_eq!(last.line, 3);
    for t in tokens.iter().take(tokens.len() - 1) {
        assert!(!matches!(t.token_type, TokenType::EOF));
    }
}

#[test]
fn empty_source_scans_to_one_eof_on_line_one() {
    let mut scanner = Scanner::new(Vec::new());
    let tokens = scanner.scan_tokens();
    assert_eq!(tokens.len(), 1);
    assert!(matches!(tokens[0].token_type, TokenType::EOF));
    assert_eq!(tokens[0].lexeme, "");
    assert_eq!(tokens[0].line, 1);
}

#[test]
fn line_counts_newlines_inside_quoted_atom() {
    let text = String::from("'a\nb'\nc.");
    let source = text.chars().collect();
    let mut scanner = Scanner::new(source);
    let tokens = scanner.scan_tokens();

    // quoted atom ends on line 2, atom c on line 3
    assert!(matches!(tokens[0].token_type, TokenType::ATOM));
    assert_eq!(tokens[0].line, 2);
    assert_eq!(tokens[1].lexeme, "c");
    assert_eq!(tokens[1].line, 3);
    let last = tokens.last().unwrap();
    assert!(matches!(last.token_type, TokenType::EOF));
    assert_eq!(last.line, 3);
    assert!(scanner.diagnostics().is_empty());
}

#[test]
fn symbolic_run_swallows_newline_without_counting() {
    // a maximal symbolic run consumes the newline after the starter `@`
    // without advancing the line counter
    let text = String::from("@\n@.");
    let source = text.chars().collect();
    let mut scanner = Scanner::new(source);
    let tokens = scanner.scan_tokens();

    assert_eq!(tokens[0].lexeme, "@\n@");
    assert!(matches!(tokens[0].token_type, TokenType::ATOM));
    assert!(matches!(tokens[1].token_type, TokenType::DOT));
    let last = tokens.last().unwrap();
    assert_eq!(last.line, 1);
}

#[test]
fn quoted_atom_strips_quotes_and_keeps_whitespace() {
    let text = String::from("'hello world'");
    let source = text.chars().collect();
    let mut scanner = Scanner::new(source);
    let tokens = scanner.scan_tokens();

    assert_eq!(tokens.len(), 2);
    assert!(matches!(tokens[0].token_type, TokenType::ATOM));
    assert_eq!(tokens[0].lexeme, "'hello world'");
    match &tokens[0].literal {
        Some(Literal::Atom(a)) => assert_eq!(a, "hello world"),
        _ => panic!("expected an atom literal"),
    }
    assert!(matches!(tokens[1].token_type, TokenType::EOF));
}

#[test]
fn unterminated_string_reports_and_emits_no_token() {
    let text = String::from("'abc");
    let source = text.chars().collect();
    let mut scanner = Scanner::new(source);
    let tokens = scanner.scan_tokens();

    assert_eq!(tokens.len(), 1);
    assert!(matches!(tokens[0].token_type, TokenType::EOF));
    let diags = scanner.diagnostics();
    assert_eq!(diags.len(), 1);
    assert_eq!(diags[0].line, 1);
    assert_eq!(diags[0].message, "Unterminated string.");
}

#[test]
fn unexpected_character_reports_and_emits_no_token() {
    let text = String::from("(");
    let source = text.chars().collect();
    let mut scanner = Scanner::new(source);
    let tokens = scanner.scan_tokens();

    assert_eq!(tokens.len(), 1);
    assert!(matches!(tokens[0].token_type, TokenType::EOF));
    let diags = scanner.diagnostics();
    assert_eq!(diags.len(), 1);
    assert_eq!(diags[0].line, 1);
    assert_eq!(diags[0].message, "Unexpected character.");
}

#[test]
fn variable_scans_as_atom_token_with_variable_literal() {
    let text = String::from("Xy_1");
    let source = text.chars().collect();
    let mut scanner = Scanner::new(source);
    let tokens = scanner.scan_tokens();

    assert_eq!(tokens.len(), 2);
    assert!(matches!(tokens[0].token_type, TokenType::ATOM));
    assert_eq!(tokens[0].lexeme, "Xy_1");
    match &tokens[0].literal {
        Some(Literal::Variable(v)) => assert_eq!(v, "Xy_1"),
        _ => panic!("expected a variable literal"),
    }
}

#[test]
fn number_run_is_consumed_but_emits_no_token() {
    // "12.5" is consumed as a number (the dot is a decimal point by
    // lookahead); the final "." is a clause terminator
    let text = String::from("12.5.");
    let source = text.chars().collect();
    let mut scanner = Scanner::new(source);
    let tokens = scanner.scan_tokens();

    assert_eq!(tokens.len(), 2);
    assert!(matches!(tokens[0].token_type, TokenType::DOT));
    assert!(matches!(tokens[1].token_type, TokenType::EOF));
    assert!(scanner.diagnostics().is_empty());
}

#[test]
fn number_before_clause_dot_leaves_the_dot() {
    let text = String::from("7.");
    let source = text.chars().collect();
    let mut scanner = Scanner::new(source);
    let tokens = scanner.scan_tokens();

    assert_eq!(tokens.len(), 2);
    assert!(matches!(tokens[0].token_type, TokenType::DOT));
    assert_eq!(tokens[0].lexeme, ".");
}
