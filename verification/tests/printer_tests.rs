use lox_frontend::expr::{Binary, Expr, Expression, Grouping, Literal, Unary};
use lox_frontend::lox::Lox;
use lox_frontend::parser::Parser;
use lox_frontend::scanner::Scanner;
use lox_frontend::token::{Token, TokenKind};

fn parse(source: &str) -> Expression {
    let mut scanner = Scanner::new(source);
    scanner.scan_tokens();
    let tokens = scanner.tokens().clone();
    let mut parser = Parser::new(&tokens);
    parser.parse().unwrap()
}

#[test]
fn token_to_string_shows_kind_and_lexeme() {
    let t = Token::new(TokenKind::Number, "1".to_string(), 1);
    assert_eq!(t.to_string(4), "Token: Number\n    Lexeme: 1\n");
}

#[test]
fn literal_prints_its_token() {
    let e = parse("1");
    assert_eq!(e.print(0), "Literal:\n    Token: Number\n    Lexeme: 1\n\n");
}

#[test]
fn binary_prints_operator_and_children() {
    let e = parse("1 + 2");
    let expected = "Binary:\n    Operator:\n        Plus\n    Left: \n    Literal:\n        Token: Number\n        Lexeme: 1\n\n    Right: \n    Literal:\n        Token: Number\n        Lexeme: 2\n\n";
    assert_eq!(e.print(0), expected);
}

#[test]
fn grouping_prints_nested_expression() {
    let e = parse("(1)");
    let expected = "Expression:\n    Literal:\n        Token: Number\n        Lexeme: 1\n\n";
    assert_eq!(e.print(0), expected);
}

#[test]
fn unary_prints_operator_token_and_operand() {
    let e = parse("-1");
    let expected = "Unary:\n    Operator:\n        Token: Minus\n        Lexeme: -\n\n    Right:\n    Literal:\n        Token: Number\n        Lexeme: 1\n\n";
    assert_eq!(e.print(0), expected);
}

#[test]
fn printing_is_stable_across_runs() {
    let first = parse("1 + 2 * (3 - -4)").print(0);
    let second = parse("1 + 2 * (3 - -4)").print(0);
    assert_eq!(first, second);
}

#[test]
fn node_types_print_through_the_trait() {
    let one = Box::new(Expression::Literal(Literal::new(Token::new(
        TokenKind::Number,
        "1".to_string(),
        1,
    ))));
    let two = Box::new(Expression::Literal(Literal::new(Token::new(
        TokenKind::Number,
        "2".to_string(),
        1,
    ))));
    let plus = Token::new(TokenKind::Plus, "+".to_string(), 1);

    let b = Binary::new(one, plus, two);
    assert_eq!(b.print(0), parse("1 + 2").print(0));

    let g = Grouping::new(Box::new(parse("1")));
    assert_eq!(g.print(0), parse("(1)").print(0));

    let l = Literal::new(Token::new(TokenKind::Number, "1".to_string(), 1));
    assert_eq!(l.print(0), parse("1").print(0));

    let u = Unary::new(
        Token::new(TokenKind::Minus, "-".to_string(), 1),
        Box::new(parse("1")),
    );
    assert_eq!(u.print(0), parse("-1").print(0));
}

#[test]
fn indentation_shifts_the_whole_rendering() {
    let e = parse("1");
    assert_eq!(e.print(4), "    Literal:\n        Token: Number\n        Lexeme: 1\n\n");
}

#[test]
fn report_formats_the_diagnostic_line_and_latches_the_flag() {
    let mut lox = Lox::new();
    assert!(!lox.had_error());
    let line = lox.report(42, "", "boom");
    assert_eq!(line, "[line 42] Error: boom");
    assert!(lox.had_error());
}

#[test]
fn error_locates_at_the_offending_lexeme() {
    let mut lox = Lox::new();
    let token = Token::new(TokenKind::Identifier, "x".to_string(), 7);
    let line = lox.error(token, "strange name");
    assert_eq!(line, "[line 7] Error at 'x': strange name");
    assert!(lox.had_error());
}

#[test]
fn error_at_eof_says_at_end() {
    let mut lox = Lox::new();
    let token = Token::new(TokenKind::Eof, "".to_string(), 3);
    let line = lox.error(token, "Expect expression");
    assert_eq!(line, "[line 3] Error at end: Expect expression");
}
