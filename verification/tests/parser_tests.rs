use lox_frontend::expr::{Binary, Expression, Grouping, Literal, Unary};
use lox_frontend::lox::Lox;
use lox_frontend::parser::{ParseError, ParseErrorKind, Parser};
use lox_frontend::scanner::Scanner;
use lox_frontend::token::{Token, TokenKind};

fn scan(source: &str) -> Vec<Token> {
    let mut scanner = Scanner::new(source);
    scanner.scan_tokens();
    scanner.tokens().clone()
}

fn parse(source: &str) -> Result<Expression, ParseError> {
    let tokens = scan(source);
    let mut parser = Parser::new(&tokens);
    parser.parse()
}

fn num(lexeme: &str) -> Token {
    Token::new(TokenKind::Number, lexeme.to_string(), 1)
}

fn op(kind: TokenKind, lexeme: &str) -> Token {
    Token::new(kind, lexeme.to_string(), 1)
}

fn lit(lexeme: &str) -> Expression {
    Expression::Literal(Literal::new(num(lexeme)))
}

fn binary(left: Expression, operator: Token, right: Expression) -> Expression {
    Expression::Binary(Binary::new(Box::new(left), operator, Box::new(right)))
}

#[test]
fn star_binds_tighter_than_plus() {
    let expected = binary(
        lit("1"),
        op(TokenKind::Plus, "+"),
        binary(lit("2"), op(TokenKind::Star, "*"), lit("3")),
    );
    assert_eq!(parse("1 + 2 * 3").unwrap(), expected);
}

#[test]
fn star_on_the_left_still_binds_tighter() {
    let expected = binary(
        binary(lit("1"), op(TokenKind::Star, "*"), lit("2")),
        op(TokenKind::Plus, "+"),
        lit("3"),
    );
    assert_eq!(parse("1 * 2 + 3").unwrap(), expected);
}

#[test]
fn minus_chains_left_associatively() {
    let expected = binary(
        binary(lit("1"), op(TokenKind::Minus, "-"), lit("2")),
        op(TokenKind::Minus, "-"),
        lit("3"),
    );
    assert_eq!(parse("1 - 2 - 3").unwrap(), expected);
}

#[test]
fn equality_chains_left_associatively() {
    let expected = binary(
        binary(lit("1"), op(TokenKind::EqualEqual, "=="), lit("2")),
        op(TokenKind::BangEqual, "!="),
        lit("3"),
    );
    assert_eq!(parse("1 == 2 != 3").unwrap(), expected);
}

#[test]
fn comparison_between_terms() {
    let expected = binary(lit("1"), op(TokenKind::Less, "<"), lit("2"));
    assert_eq!(parse("1 < 2").unwrap(), expected);
}

#[test]
fn grouping_wraps_the_inner_expression() {
    let expected = Expression::Grouping(Grouping::new(Box::new(binary(
        lit("1"),
        op(TokenKind::Plus, "+"),
        lit("2"),
    ))));
    assert_eq!(parse("(1 + 2)").unwrap(), expected);
}

#[test]
fn missing_right_paren_is_a_syntax_error_at_end() {
    let err = parse("(1 + 2").unwrap_err();
    assert_eq!(err.kind, ParseErrorKind::ExpectedRightParen);
    assert_eq!(err.token.kind, TokenKind::Eof);
    assert_eq!(err.message(), "Expect ')' after expression.");

    let mut lox = Lox::new();
    let line = lox.error(err.token.clone(), err.message().as_str());
    assert_eq!(line, "[line 1] Error at end: Expect ')' after expression.");
    assert!(lox.had_error());
}

#[test]
fn operator_alone_cannot_begin_an_expression() {
    let err = parse("+").unwrap_err();
    assert_eq!(err.kind, ParseErrorKind::ExpectedExpression);
    assert_eq!(err.token.kind, TokenKind::Plus);
    assert_eq!(err.message(), "Expect expression");

    let mut lox = Lox::new();
    let line = lox.error(err.token.clone(), err.message().as_str());
    assert_eq!(line, "[line 1] Error at '+': Expect expression");
    assert!(lox.had_error());
}

#[test]
fn empty_input_cannot_begin_an_expression() {
    let err = parse("").unwrap_err();
    assert_eq!(err.kind, ParseErrorKind::ExpectedExpression);
    assert_eq!(err.token.kind, TokenKind::Eof);
}

#[test]
fn unary_bang_and_minus() {
    let expected = Expression::Unary(Unary::new(
        op(TokenKind::Bang, "!"),
        Box::new(Expression::Literal(Literal::new(op(TokenKind::True, "true")))),
    ));
    assert_eq!(parse("!true").unwrap(), expected);

    let expected = Expression::Unary(Unary::new(op(TokenKind::Minus, "-"), Box::new(lit("1"))));
    assert_eq!(parse("-1").unwrap(), expected);
}

#[test]
fn unary_operators_nest() {
    let expected = Expression::Unary(Unary::new(
        op(TokenKind::Bang, "!"),
        Box::new(Expression::Unary(Unary::new(
            op(TokenKind::Bang, "!"),
            Box::new(Expression::Literal(Literal::new(op(TokenKind::False, "false")))),
        ))),
    ));
    assert_eq!(parse("!!false").unwrap(), expected);
}

#[test]
fn literal_leaves() {
    assert_eq!(
        parse("\"hi\"").unwrap(),
        Expression::Literal(Literal::new(Token::new(TokenKind::StringLit, "hi".to_string(), 1)))
    );
    assert_eq!(
        parse("nil").unwrap(),
        Expression::Literal(Literal::new(op(TokenKind::Nil, "nil")))
    );
}

#[test]
fn trailing_tokens_are_a_syntax_error() {
    let err = parse("1 2").unwrap_err();
    assert_eq!(err.kind, ParseErrorKind::ExpectedEof);
    assert_eq!(err.token.kind, TokenKind::Number);
    assert_eq!(err.token.lexeme, "2");
    assert_eq!(err.message(), "Expect end of expression.");

    let mut lox = Lox::new();
    let line = lox.error(err.token.clone(), err.message().as_str());
    assert_eq!(line, "[line 1] Error at '2': Expect end of expression.");
    assert!(lox.had_error());
}

#[test]
fn parse_and_report_latches_the_flag_on_error() {
    let tokens = scan("(1 + 2");
    let mut parser = Parser::new(&tokens);
    let mut lox = Lox::new();
    let (err, line) = parser.parse_and_report(&mut lox).unwrap_err();
    assert_eq!(err.kind, ParseErrorKind::ExpectedRightParen);
    assert_eq!(line, "[line 1] Error at end: Expect ')' after expression.");
    assert!(lox.had_error());
}

#[test]
fn parse_and_report_leaves_the_flag_alone_on_success() {
    let tokens = scan("1 + 2");
    let mut parser = Parser::new(&tokens);
    let mut lox = Lox::new();
    assert!(parser.parse_and_report(&mut lox).is_ok());
    assert!(!lox.had_error());
}

#[test]
fn synchronise_skips_to_just_after_a_semicolon() {
    let tokens = scan("1 ; 2");
    let mut parser = Parser::new(&tokens);
    parser.synchronise();
    assert_eq!(parser.parse().unwrap(), lit("2"));
}

#[test]
fn synchronise_stops_before_a_return_keyword() {
    let tokens = scan("1 2 return 3");
    let mut parser = Parser::new(&tokens);
    parser.synchronise();
    let err = parser.parse().unwrap_err();
    assert_eq!(err.token.kind, TokenKind::Return);
}
