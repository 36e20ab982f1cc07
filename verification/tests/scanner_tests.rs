use lox_frontend::scanner::{lex_error_message, Scanner};
use lox_frontend::token::{Token, TokenKind};

fn scan(source: &str) -> (Vec<Token>, bool) {
    let mut scanner = Scanner::new(source);
    scanner.scan_tokens();
    (scanner.tokens().clone(), scanner.had_error())
}

fn kinds(tokens: &[Token]) -> Vec<TokenKind> {
    tokens.iter().map(|t| t.kind).collect()
}

#[test]
fn empty_source_scans_to_eof_only() {
    let (tokens, had_error) = scan("");
    assert_eq!(tokens.len(), 1);
    assert_eq!(tokens[0].kind, TokenKind::Eof);
    assert_eq!(tokens[0].lexeme, "");
    assert_eq!(tokens[0].line, 1);
    assert!(!had_error);
}

#[test]
fn punctuation_only_scans_to_matching_kinds() {
    let (tokens, had_error) = scan("(){},.-+;*");
    assert_eq!(
        kinds(&tokens),
        vec![
            TokenKind::LeftParen,
            TokenKind::RightParen,
            TokenKind::LeftBrace,
            TokenKind::RightBrace,
            TokenKind::Comma,
            TokenKind::Dot,
            TokenKind::Minus,
            TokenKind::Plus,
            TokenKind::SemiColon,
            TokenKind::Star,
            TokenKind::Eof,
        ]
    );
    for t in &tokens[..tokens.len() - 1] {
        assert_eq!(t.line, 1);
    }
    assert!(!had_error);
}

#[test]
fn single_slash_is_punctuation() {
    let (tokens, _) = scan("/");
    assert_eq!(kinds(&tokens), vec![TokenKind::Slash, TokenKind::Eof]);
    assert_eq!(tokens[0].lexeme, "/");
}

#[test]
fn greedy_two_char_operators() {
    let (tokens, _) = scan("!=!");
    assert_eq!(kinds(&tokens), vec![TokenKind::BangEqual, TokenKind::Bang, TokenKind::Eof]);
    assert_eq!(tokens[0].lexeme, "!=");
    assert_eq!(tokens[1].lexeme, "!");

    let (tokens, _) = scan("== <= >= = < >");
    assert_eq!(
        kinds(&tokens),
        vec![
            TokenKind::EqualEqual,
            TokenKind::LessEqual,
            TokenKind::GreaterEqual,
            TokenKind::Equal,
            TokenKind::Less,
            TokenKind::Greater,
            TokenKind::Eof,
        ]
    );
}

#[test]
fn line_comment_is_discarded_and_line_counted() {
    let (tokens, had_error) = scan("// anything\nx");
    assert_eq!(kinds(&tokens), vec![TokenKind::Identifier, TokenKind::Eof]);
    assert_eq!(tokens[0].lexeme, "x");
    assert_eq!(tokens[0].line, 2);
    assert!(!had_error);
}

#[test]
fn comment_does_not_consume_following_tokens() {
    let (tokens, _) = scan("a // rest is gone + - *\nb");
    assert_eq!(kinds(&tokens), vec![TokenKind::Identifier, TokenKind::Identifier, TokenKind::Eof]);
    assert_eq!(tokens[0].lexeme, "a");
    assert_eq!(tokens[1].lexeme, "b");
    assert_eq!(tokens[1].line, 2);
}

#[test]
fn integer_number() {
    let (tokens, _) = scan("123");
    assert_eq!(kinds(&tokens), vec![TokenKind::Number, TokenKind::Eof]);
    assert_eq!(tokens[0].lexeme, "123");
    assert_eq!(tokens[0].lexeme.parse::<f32>().unwrap(), 123.0f32);
}

#[test]
fn fractional_number() {
    let (tokens, _) = scan("1.5");
    assert_eq!(kinds(&tokens), vec![TokenKind::Number, TokenKind::Eof]);
    assert_eq!(tokens[0].lexeme, "1.5");
    assert_eq!(tokens[0].lexeme.parse::<f32>().unwrap(), 1.5f32);
}

#[test]
fn trailing_dot_is_not_absorbed() {
    let (tokens, _) = scan("1.");
    assert_eq!(kinds(&tokens), vec![TokenKind::Number, TokenKind::Dot, TokenKind::Eof]);
    assert_eq!(tokens[0].lexeme, "1");
    assert_eq!(tokens[0].lexeme.parse::<f32>().unwrap(), 1.0f32);
    assert_eq!(tokens[1].lexeme, ".");
}

#[test]
fn string_lexeme_strips_quotes() {
    let (tokens, had_error) = scan("\"ab\"");
    assert_eq!(kinds(&tokens), vec![TokenKind::StringLit, TokenKind::Eof]);
    assert_eq!(tokens[0].lexeme, "ab");
    assert!(!had_error);
}

#[test]
fn unterminated_string_is_an_error() {
    let (tokens, had_error) = scan("\"ab");
    assert_eq!(kinds(&tokens), vec![TokenKind::Error, TokenKind::Eof]);
    assert!(had_error);
}

#[test]
fn string_with_newlines_counts_lines() {
    let (tokens, _) = scan("\"a\nb\"x");
    assert_eq!(kinds(&tokens), vec![TokenKind::StringLit, TokenKind::Identifier, TokenKind::Eof]);
    assert_eq!(tokens[0].lexeme, "a\nb");
    assert_eq!(tokens[0].line, 2);
    assert_eq!(tokens[1].line, 2);
}

#[test]
fn keyword_needs_exact_full_match() {
    let (tokens, _) = scan("forward");
    assert_eq!(kinds(&tokens), vec![TokenKind::Identifier, TokenKind::Eof]);
    assert_eq!(tokens[0].lexeme, "forward");
}

#[test]
fn all_keywords_scan_to_keyword_kinds() {
    let (tokens, _) = scan(
        "and class else false for fun if nil or print return super this true var while",
    );
    assert_eq!(
        kinds(&tokens),
        vec![
            TokenKind::And,
            TokenKind::Class,
            TokenKind::Else,
            TokenKind::False,
            TokenKind::For,
            TokenKind::Fun,
            TokenKind::If,
            TokenKind::Nil,
            TokenKind::Or,
            TokenKind::Print,
            TokenKind::Return,
            TokenKind::Super,
            TokenKind::This,
            TokenKind::True,
            TokenKind::Var,
            TokenKind::While,
            TokenKind::Eof,
        ]
    );
}

#[test]
fn unexpected_character_is_reported_and_scanning_goes_on() {
    let (tokens, had_error) = scan("@x");
    assert_eq!(kinds(&tokens), vec![TokenKind::Error, TokenKind::Identifier, TokenKind::Eof]);
    assert_eq!(tokens[0].lexeme, "@");
    assert_eq!(tokens[1].lexeme, "x");
    assert!(had_error);
}

#[test]
fn lexical_error_messages_name_the_failure() {
    let (tokens, _) = scan("@x");
    assert_eq!(lex_error_message(&tokens[0]), "Unexpected character.");

    let (tokens, _) = scan("\"ab");
    assert_eq!(lex_error_message(&tokens[0]), "Unterminated string.");
}

#[test]
fn newlines_advance_the_line_counter() {
    let (tokens, _) = scan("a\nb\r\n  c");
    assert_eq!(tokens[0].line, 1);
    assert_eq!(tokens[1].line, 2);
    assert_eq!(tokens[2].line, 3);
    assert_eq!(tokens[3].kind, TokenKind::Eof);
    assert_eq!(tokens[3].line, 3);
}

#[test]
fn identifiers_take_maximal_alphanumeric_runs() {
    let (tokens, _) = scan("abc123 x1y");
    assert_eq!(kinds(&tokens), vec![TokenKind::Identifier, TokenKind::Identifier, TokenKind::Eof]);
    assert_eq!(tokens[0].lexeme, "abc123");
    assert_eq!(tokens[1].lexeme, "x1y");
}
