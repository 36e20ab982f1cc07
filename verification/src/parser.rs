//! The parser: recursive descent over the scanner's token sequence,
//! producing one expression tree or a typed parse error.
//!
//! The grammar, lowest to highest precedence, every binary level
//! left-associative:
//!
//! ```text
//! expression -> equality
//! equality   -> comparison ( ( "!=" | "==" ) comparison )*
//! comparison -> term ( ( ">" | ">=" | "<" | "<=" ) term )*
//! term       -> factor ( ( "-" | "+" ) factor )*
//! factor     -> unary ( ( "/" | "*" ) unary )*
//! unary      -> ( "!" | "-" ) unary | primary
//! primary    -> NUMBER | STRING | "true" | "false" | "nil" | "(" expression ")"
//! ```
//!
//! The whole parse is specified by [`spec_parse`] and its companions:
//! mathematical functions from the token sequence and a position to the
//! exact tree, the position after it, or the exact error.  Each executable
//! method is proved to return exactly what its specification function says.
//! A parse succeeds only when the expression covers the entire input, the
//! `Eof` sentinel standing right after it; a trailing token is a syntax
//! error located at that token.

use vstd::prelude::*;

use crate::expr::{Binary, Expression, Grouping, Literal, Unary};
use crate::token::{Token, TokenKind};

verus! {

/// The grammar violations the expression grammar can meet.
#[derive(Debug, Clone, Copy, PartialEq, Eq, Structural)]
pub enum ParseErrorKind {
    /// No rule could begin at the offending token.
    ExpectedExpression,
    /// A parenthesized expression was not closed.
    ExpectedRightParen,
    /// A whole-input parse found tokens left over after the expression.
    ExpectedEof,
}

/// A parse failure: the token it was detected at, and which violation it is.
#[derive(Debug, PartialEq)]
pub struct ParseError {
    pub token: Token,
    pub kind: ParseErrorKind,
}

/// The fixed message of each parse error.
pub open spec fn spec_error_message(kind: ParseErrorKind) -> Seq<char> {
    match kind {
        ParseErrorKind::ExpectedExpression => "Expect expression"@,
        ParseErrorKind::ExpectedRightParen => "Expect ')' after expression."@,
        ParseErrorKind::ExpectedEof => "Expect end of expression."@,
    }
}

impl ParseError {
    pub fn message(&self) -> (m: String)
        ensures
            m@ == spec_error_message(self.kind),
    {
        match self.kind {
            ParseErrorKind::ExpectedExpression => <String as vstd::string::StringExecFns>::from_str(
                "Expect expression",
            ),
            ParseErrorKind::ExpectedRightParen => <String as vstd::string::StringExecFns>::from_str(
                "Expect ')' after expression.",
            ),
            ParseErrorKind::ExpectedEof => <String as vstd::string::StringExecFns>::from_str(
                "Expect end of expression.",
            ),
        }
    }
}

pub open spec fn is_equality_op(k: TokenKind) -> bool {
    k is BangEqual || k is EqualEqual
}

pub open spec fn is_comparison_op(k: TokenKind) -> bool {
    k is Greater || k is GreaterEqual || k is Less || k is LessEqual
}

pub open spec fn is_term_op(k: TokenKind) -> bool {
    k is Minus || k is Plus
}

pub open spec fn is_factor_op(k: TokenKind) -> bool {
    k is Slash || k is Star
}

pub open spec fn is_literal_kind(k: TokenKind) -> bool {
    k is False || k is True || k is Nil || k is Number || k is StringLit
}

/// What parsing one grammar rule at a position yields: the tree and the
/// position after it, or the position an error was detected at and which
/// error it is.
pub enum ParseOutcome {
    Parsed(Expression, int),
    Failed(int, ParseErrorKind),
}

/// A parsed binary node: `left op right`.
pub open spec fn binary_node(left: Expression, op: Token, right: Expression) -> Expression {
    Expression::Binary(Binary { left: Box::new(left), operator: op, right: Box::new(right) })
}

/// A whole-input parse: one expression that covers everything up to the
/// `Eof` sentinel.  A token left over after the expression is a syntax
/// error at that token.
pub open spec fn spec_parse(toks: Seq<Token>, pos: int) -> ParseOutcome {
    match spec_expression(toks, pos) {
        ParseOutcome::Parsed(e, p) => {
            if p < toks.len() && toks[p]@.kind is Eof {
                ParseOutcome::Parsed(e, p)
            } else {
                ParseOutcome::Failed(p, ParseErrorKind::ExpectedEof)
            }
        },
        f => f,
    }
}

/// `expression -> equality`
pub open spec fn spec_expression(toks: Seq<Token>, pos: int) -> ParseOutcome
    decreases toks.len() - pos, 12int,
{
    spec_equality(toks, pos)
}

/// `equality -> comparison ( ( "!=" | "==" ) comparison )*`
pub open spec fn spec_equality(toks: Seq<Token>, pos: int) -> ParseOutcome
    decreases toks.len() - pos, 11int,
{
    match spec_comparison(toks, pos) {
        ParseOutcome::Parsed(e, p) => {
            if pos <= p <= toks.len() {
                spec_equality_rest(toks, p, e)
            } else {
                // cannot occur: a sub-parse always advances (lemma_progress_comparison)
                ParseOutcome::Parsed(e, p)
            }
        },
        f => f,
    }
}

/// The left-folding operator loop of `equality`.
pub open spec fn spec_equality_rest(toks: Seq<Token>, pos: int, left: Expression) -> ParseOutcome
    decreases toks.len() - pos, 10int,
{
    if 0 <= pos < toks.len() && is_equality_op(toks[pos]@.kind) {
        match spec_comparison(toks, pos + 1) {
            ParseOutcome::Parsed(right, p2) => {
                if pos + 1 < p2 <= toks.len() {
                    spec_equality_rest(toks, p2, binary_node(left, toks[pos], right))
                } else {
                    // cannot occur: a sub-parse always advances
                    ParseOutcome::Failed(pos, ParseErrorKind::ExpectedExpression)
                }
            },
            f => f,
        }
    } else {
        ParseOutcome::Parsed(left, pos)
    }
}

/// `comparison -> term ( ( ">" | ">=" | "<" | "<=" ) term )*`
pub open spec fn spec_comparison(toks: Seq<Token>, pos: int) -> ParseOutcome
    decreases toks.len() - pos, 9int,
{
    match spec_term(toks, pos) {
        ParseOutcome::Parsed(e, p) => {
            if pos <= p <= toks.len() {
                spec_comparison_rest(toks, p, e)
            } else {
                ParseOutcome::Parsed(e, p)
            }
        },
        f => f,
    }
}

/// The left-folding operator loop of `comparison`.
pub open spec fn spec_comparison_rest(toks: Seq<Token>, pos: int, left: Expression) -> ParseOutcome
    decreases toks.len() - pos, 8int,
{
    if 0 <= pos < toks.len() && is_comparison_op(toks[pos]@.kind) {
        match spec_term(toks, pos + 1) {
            ParseOutcome::Parsed(right, p2) => {
                if pos + 1 < p2 <= toks.len() {
                    spec_comparison_rest(toks, p2, binary_node(left, toks[pos], right))
                } else {
                    ParseOutcome::Failed(pos, ParseErrorKind::ExpectedExpression)
                }
            },
            f => f,
        }
    } else {
        ParseOutcome::Parsed(left, pos)
    }
}

/// `term -> factor ( ( "-" | "+" ) factor )*`
pub open spec fn spec_term(toks: Seq<Token>, pos: int) -> ParseOutcome
    decreases toks.len() - pos, 7int,
{
    match spec_factor(toks, pos) {
        ParseOutcome::Parsed(e, p) => {
            if pos <= p <= toks.len() {
                spec_term_rest(toks, p, e)
            } else {
                ParseOutcome::Parsed(e, p)
            }
        },
        f => f,
    }
}

/// The left-folding operator loop of `term`.
pub open spec fn spec_term_rest(toks: Seq<Token>, pos: int, left: Expression) -> ParseOutcome
    decreases toks.len() - pos, 6int,
{
    if 0 <= pos < toks.len() && is_term_op(toks[pos]@.kind) {
        match spec_factor(toks, pos + 1) {
            ParseOutcome::Parsed(right, p2) => {
                if pos + 1 < p2 <= toks.len() {
                    spec_term_rest(toks, p2, binary_node(left, toks[pos], right))
                } else {
                    ParseOutcome::Failed(pos, ParseErrorKind::ExpectedExpression)
                }
            },
            f => f,
        }
    } else {
        ParseOutcome::Parsed(left, pos)
    }
}

/// `factor -> unary ( ( "/" | "*" ) unary )*`
pub open spec fn spec_factor(toks: Seq<Token>, pos: int) -> ParseOutcome
    decreases toks.len() - pos, 5int,
{
    match spec_unary(toks, pos) {
        ParseOutcome::Parsed(e, p) => {
            if pos <= p <= toks.len() {
                spec_factor_rest(toks, p, e)
            } else {
                ParseOutcome::Parsed(e, p)
            }
        },
        f => f,
    }
}

/// The left-folding operator loop of `factor`.
pub open spec fn spec_factor_rest(toks: Seq<Token>, pos: int, left: Expression) -> ParseOutcome
    decreases toks.len() - pos, 4int,
{
    if 0 <= pos < toks.len() && is_factor_op(toks[pos]@.kind) {
        match spec_unary(toks, pos + 1) {
            ParseOutcome::Parsed(right, p2) => {
                if pos + 1 < p2 <= toks.len() {
                    spec_factor_rest(toks, p2, binary_node(left, toks[pos], right))
                } else {
                    ParseOutcome::Failed(pos, ParseErrorKind::ExpectedExpression)
                }
            },
            f => f,
        }
    } else {
        ParseOutcome::Parsed(left, pos)
    }
}

/// `unary -> ( "!" | "-" ) unary | primary`
pub open spec fn spec_unary(toks: Seq<Token>, pos: int) -> ParseOutcome
    decreases toks.len() - pos, 3int,
{
    if 0 <= pos < toks.len() && (toks[pos]@.kind is Bang || toks[pos]@.kind is Minus) {
        match spec_unary(toks, pos + 1) {
            ParseOutcome::Parsed(right, p) => ParseOutcome::Parsed(
                Expression::Unary(Unary { operator: toks[pos], right: Box::new(right) }),
                p,
            ),
            f => f,
        }
    } else {
        spec_primary(toks, pos)
    }
}

/// `primary -> NUMBER | STRING | "true" | "false" | "nil" | "(" expression ")"`
pub open spec fn spec_primary(toks: Seq<Token>, pos: int) -> ParseOutcome
    decreases toks.len() - pos, 1int,
{
    if 0 <= pos < toks.len() {
        if is_literal_kind(toks[pos]@.kind) {
            ParseOutcome::Parsed(Expression::Literal(Literal { value: toks[pos] }), pos + 1)
        } else if toks[pos]@.kind is LeftParen {
            match spec_expression(toks, pos + 1) {
                ParseOutcome::Parsed(inner, p) => {
                    if p < toks.len() && toks[p]@.kind is RightParen {
                        ParseOutcome::Parsed(
                            Expression::Grouping(Grouping { expression: Box::new(inner) }),
                            p + 1,
                        )
                    } else {
                        ParseOutcome::Failed(p, ParseErrorKind::ExpectedRightParen)
                    }
                },
                f => f,
            }
        } else {
            ParseOutcome::Failed(pos, ParseErrorKind::ExpectedExpression)
        }
    } else {
        ParseOutcome::Failed(pos, ParseErrorKind::ExpectedExpression)
    }
}

/// The bounds every outcome obeys: a successful parse consumes at least one
/// token, and an error is detected at or after the starting position.
pub open spec fn outcome_in_bounds(o: ParseOutcome, pos: int, len: int, strict: bool) -> bool {
    match o {
        ParseOutcome::Parsed(_, p) => (if strict {
            pos < p
        } else {
            pos <= p
        }) && p <= len,
        ParseOutcome::Failed(at, _) => pos <= at <= len,
    }
}

pub proof fn lemma_progress_primary(toks: Seq<Token>, pos: int)
    requires
        0 <= pos <= toks.len(),
    ensures
        outcome_in_bounds(spec_primary(toks, pos), pos, toks.len() as int, true),
    decreases toks.len() - pos, 1int,
{
    if pos < toks.len() && !is_literal_kind(toks[pos]@.kind) && toks[pos]@.kind is LeftParen {
        lemma_progress_expression(toks, pos + 1);
    }
}

pub proof fn lemma_progress_unary(toks: Seq<Token>, pos: int)
    requires
        0 <= pos <= toks.len(),
    ensures
        outcome_in_bounds(spec_unary(toks, pos), pos, toks.len() as int, true),
    decreases toks.len() - pos, 3int,
{
    if 0 <= pos < toks.len() && (toks[pos]@.kind is Bang || toks[pos]@.kind is Minus) {
        lemma_progress_unary(toks, pos + 1);
    } else {
        lemma_progress_primary(toks, pos);
    }
}

pub proof fn lemma_progress_factor_rest(toks: Seq<Token>, pos: int, left: Expression)
    requires
        0 <= pos <= toks.len(),
    ensures
        outcome_in_bounds(spec_factor_rest(toks, pos, left), pos, toks.len() as int, false),
    decreases toks.len() - pos, 4int,
{
    if 0 <= pos < toks.len() && is_factor_op(toks[pos]@.kind) {
        lemma_progress_unary(toks, pos + 1);
        match spec_unary(toks, pos + 1) {
            ParseOutcome::Parsed(right, p2) => {
                lemma_progress_factor_rest(toks, p2, binary_node(left, toks[pos], right));
            },
            _ => {},
        }
    }
}

pub proof fn lemma_progress_factor(toks: Seq<Token>, pos: int)
    requires
        0 <= pos <= toks.len(),
    ensures
        outcome_in_bounds(spec_factor(toks, pos), pos, toks.len() as int, true),
    decreases toks.len() - pos, 5int,
{
    lemma_progress_unary(toks, pos);
    match spec_unary(toks, pos) {
        ParseOutcome::Parsed(e, p) => {
            lemma_progress_factor_rest(toks, p, e);
        },
        _ => {},
    }
}

pub proof fn lemma_progress_term_rest(toks: Seq<Token>, pos: int, left: Expression)
    requires
        0 <= pos <= toks.len(),
    ensures
        outcome_in_bounds(spec_term_rest(toks, pos, left), pos, toks.len() as int, false),
    decreases toks.len() - pos, 6int,
{
    if 0 <= pos < toks.len() && is_term_op(toks[pos]@.kind) {
        lemma_progress_factor(toks, pos + 1);
        match spec_factor(toks, pos + 1) {
            ParseOutcome::Parsed(right, p2) => {
                lemma_progress_term_rest(toks, p2, binary_node(left, toks[pos], right));
            },
            _ => {},
        }
    }
}

pub proof fn lemma_progress_term(toks: Seq<Token>, pos: int)
    requires
        0 <= pos <= toks.len(),
    ensures
        outcome_in_bounds(spec_term(toks, pos), pos, toks.len() as int, true),
    decreases toks.len() - pos, 7int,
{
    lemma_progress_factor(toks, pos);
    match spec_factor(toks, pos) {
        ParseOutcome::Parsed(e, p) => {
            lemma_progress_term_rest(toks, p, e);
        },
        _ => {},
    }
}

pub proof fn lemma_progress_comparison_rest(toks: Seq<Token>, pos: int, left: Expression)
    requires
        0 <= pos <= toks.len(),
    ensures
        outcome_in_bounds(spec_comparison_rest(toks, pos, left), pos, toks.len() as int, false),
    decreases toks.len() - pos, 8int,
{
    if 0 <= pos < toks.len() && is_comparison_op(toks[pos]@.kind) {
        lemma_progress_term(toks, pos + 1);
        match spec_term(toks, pos + 1) {
            ParseOutcome::Parsed(right, p2) => {
                lemma_progress_comparison_rest(toks, p2, binary_node(left, toks[pos], right));
            },
            _ => {},
        }
    }
}

pub proof fn lemma_progress_comparison(toks: Seq<Token>, pos: int)
    requires
        0 <= pos <= toks.len(),
    ensures
        outcome_in_bounds(spec_comparison(toks, pos), pos, toks.len() as int, true),
    decreases toks.len() - pos, 9int,
{
    lemma_progress_term(toks, pos);
    match spec_term(toks, pos) {
        ParseOutcome::Parsed(e, p) => {
            lemma_progress_comparison_rest(toks, p, e);
        },
        _ => {},
    }
}

pub proof fn lemma_progress_equality_rest(toks: Seq<Token>, pos: int, left: Expression)
    requires
        0 <= pos <= toks.len(),
    ensures
        outcome_in_bounds(spec_equality_rest(toks, pos, left), pos, toks.len() as int, false),
    decreases toks.len() - pos, 10int,
{
    if 0 <= pos < toks.len() && is_equality_op(toks[pos]@.kind) {
        lemma_progress_comparison(toks, pos + 1);
        match spec_comparison(toks, pos + 1) {
            ParseOutcome::Parsed(right, p2) => {
                lemma_progress_equality_rest(toks, p2, binary_node(left, toks[pos], right));
            },
            _ => {},
        }
    }
}

pub proof fn lemma_progress_equality(toks: Seq<Token>, pos: int)
    requires
        0 <= pos <= toks.len(),
    ensures
        outcome_in_bounds(spec_equality(toks, pos), pos, toks.len() as int, true),
    decreases toks.len() - pos, 11int,
{
    lemma_progress_comparison(toks, pos);
    match spec_comparison(toks, pos) {
        ParseOutcome::Parsed(e, p) => {
            lemma_progress_equality_rest(toks, p, e);
        },
        _ => {},
    }
}

pub proof fn lemma_progress_expression(toks: Seq<Token>, pos: int)
    requires
        0 <= pos <= toks.len(),
    ensures
        outcome_in_bounds(spec_expression(toks, pos), pos, toks.len() as int, true),
    decreases toks.len() - pos, 12int,
{
    lemma_progress_equality(toks, pos);
}

/// How an executable result and final cursor position relate to a
/// specification outcome: on success the very tree and position, on failure
/// the very error, its token, and the cursor left on that token.
pub open spec fn outcome_matches(
    o: ParseOutcome,
    toks: Seq<Token>,
    r: Result<Expression, ParseError>,
    end: int,
) -> bool {
    match o {
        ParseOutcome::Parsed(e, p) => match r {
            Ok(re) => re == e && end == p,
            Err(_) => false,
        },
        ParseOutcome::Failed(at, k) => match r {
            Ok(_) => false,
            Err(pe) => pe.kind == k && 0 <= at < toks.len() && pe.token == toks[at] && end == at,
        },
    }
}

/// The parser: a read-only view of the token sequence and a cursor.
pub struct Parser<'a> {
    tokens: &'a Vec<Token>,
    current: usize,
}

impl<'a> Parser<'a> {
    /// The tokens being parsed.
    pub closed spec fn toks(self) -> Seq<Token> {
        self.tokens@
    }

    /// The cursor: the index of the next token to consider.
    pub closed spec fn cur(self) -> int {
        self.current as int
    }

    /// The parser's invariant: the sequence ends in an `Eof` sentinel and
    /// the cursor never moves past it.
    pub closed spec fn wf(self) -> bool {
        &&& self.tokens@.len() >= 1
        &&& self.tokens@.last()@.kind is Eof
        &&& self.current < self.tokens@.len()
    }

    /// A parser over a token sequence, which must carry its `Eof` sentinel —
    /// the scanner always puts one there.
    pub fn new(tokens: &'a Vec<Token>) -> (p: Parser<'a>)
        requires
            tokens@.len() >= 1,
            tokens@.last()@.kind is Eof,
        ensures
            p.wf(),
            p.toks() == tokens@,
            p.cur() == 0,
    {
        Parser { tokens, current: 0 }
    }

    fn peek(&self) -> (t: &Token)
        requires
            self.wf(),
        ensures
            *t == self.toks()[self.cur()],
    {
        &self.tokens[self.current]
    }

    fn previous(&self) -> (t: &Token)
        requires
            self.wf(),
            self.cur() >= 1,
        ensures
            *t == self.toks()[self.cur() - 1],
    {
        &self.tokens[self.current - 1]
    }

    fn is_at_end(&self) -> (r: bool)
        requires
            self.wf(),
        ensures
            r == (self.toks()[self.cur()]@.kind is Eof),
    {
        self.peek().kind == TokenKind::Eof
    }

    /// Step over the current token, unless it is the `Eof` sentinel, and
    /// hand back the token before the new cursor.
    fn advance(&mut self) -> (t: Token)
        requires
            old(self).wf(),
            old(self).current >= 1 || !(old(self).toks()[old(self).cur()]@.kind is Eof),
        ensures
            final (self).wf(),
            final (self).tokens == old(self).tokens,
            final (self).cur() == old(self).cur() + (if old(self).toks()[old(
                self,
            ).cur()]@.kind is Eof {
                0int
            } else {
                1int
            }),
            t == final (self).toks()[final (self).cur() - 1],
    {
        if !self.is_at_end() {
            let n = self.tokens.len();
            assert(self.current < n);
            self.current += 1;
        }
        self.previous().duplicate()
    }

    fn check(&self, token_type: TokenKind) -> (r: bool)
        requires
            self.wf(),
        ensures
            r == (!(self.toks()[self.cur()]@.kind is Eof) && self.toks()[self.cur()]@.kind
                == token_type),
    {
        if self.is_at_end() {
            return false;
        }
        self.peek().kind == token_type
    }

    /// If the current token's kind is one of `types`, consume it.
    fn match_types(&mut self, types: &[TokenKind]) -> (r: bool)
        requires
            old(self).wf(),
        ensures
            final (self).wf(),
            final (self).tokens == old(self).tokens,
            r == (!(old(self).toks()[old(self).cur()]@.kind is Eof) && types@.contains(
                old(self).toks()[old(self).cur()]@.kind,
            )),
            final (self).cur() == old(self).cur() + (if r {
                1int
            } else {
                0int
            }),
    {
        let n = types.len();
        let mut i: usize = 0;
        while i < n
            invariant
                self.wf(),
                self.tokens == old(self).tokens,
                self.current == old(self).current,
                i <= n == types@.len(),
                !(self.toks()[self.cur()]@.kind is Eof) ==> forall|j: int|
                    0 <= j < i ==> (#[trigger] types@[j]) != self.toks()[self.cur()]@.kind,
            decreases n - i,
        {
            let t = *vstd::slice::slice_index_get(types, i);
            if self.check(t) {
                self.advance();
                return true;
            }
            i += 1;
        }
        false
    }

    /// Demand a token of the given kind: consume it, or fail with the given
    /// error at the current token.
    fn consume(&mut self, token_type: TokenKind, error_kind: ParseErrorKind) -> (r: Result<
        Token,
        ParseError,
    >)
        requires
            old(self).wf(),
        ensures
            final (self).wf(),
            final (self).tokens == old(self).tokens,
            ({
                let k = old(self).toks()[old(self).cur()]@.kind;
                if !(k is Eof) && k == token_type {
                    match r {
                        Ok(t) => t == old(self).toks()[old(self).cur()] && final (self).cur() == old(
                            self,
                        ).cur() + 1,
                        Err(_) => false,
                    }
                } else {
                    match r {
                        Ok(_) => false,
                        Err(pe) => pe.token == old(self).toks()[old(self).cur()] && pe.kind
                            == error_kind && final (self).cur() == old(self).cur(),
                    }
                }
            }),
    {
        if self.check(token_type) {
            Ok(self.advance())
        } else {
            let token = self.peek().duplicate();
            Err(ParseError { token, kind: error_kind })
        }
    }

    /// Parse the whole input as one expression.  The tree must represent
    /// the entire input: success is returned only when the token after the
    /// expression is the `Eof` sentinel, and a trailing token is a syntax
    /// error located at that token.  The result — tree or typed error — is
    /// exactly what [`spec_parse`] says of the token sequence, starting at
    /// the current cursor.
    pub fn parse(&mut self) -> (r: Result<Expression, ParseError>)
        requires
            old(self).wf(),
        ensures
            final (self).wf(),
            final (self).toks() == old(self).toks(),
            outcome_matches(
                spec_parse(old(self).toks(), old(self).cur()),
                old(self).toks(),
                r,
                final (self).cur(),
            ),
        decreases self.toks().len() - self.cur(), 13int,
    {
        let r0 = self.expression();
        match r0 {
            Ok(e) => {
                if self.is_at_end() {
                    Ok(e)
                } else {
                    let token = self.peek().duplicate();
                    Err(ParseError { token, kind: ParseErrorKind::ExpectedEof })
                }
            },
            Err(pe) => Err(pe),
        }
    }

    /// Parse the whole input and report any failure through the shared
    /// error sink before handing it back: on every parse error the sink's
    /// had-error flag is latched and the formatted diagnostic line is
    /// returned beside the typed error, so no caller can drop a report.  On
    /// success the sink is untouched.
    pub fn parse_and_report(&mut self, lox: &mut crate::lox::Lox) -> (r: Result<
        Expression,
        (ParseError, String),
    >)
        requires
            old(self).wf(),
        ensures
            final (self).wf(),
            final (self).toks() == old(self).toks(),
            match spec_parse(old(self).toks(), old(self).cur()) {
                ParseOutcome::Parsed(e, p) => (match r {
                    Ok(re) => re == e && final (self).cur() == p && *final (lox) == *old(lox),
                    Err(_) => false,
                }),
                ParseOutcome::Failed(at, k) => (match r {
                    Ok(_) => false,
                    Err((pe, line)) => {
                        &&& pe.kind == k
                        &&& 0 <= at < old(self).toks().len()
                        &&& pe.token == old(self).toks()[at]
                        &&& final (self).cur() == at
                        &&& final (lox).spec_had_error()
                        &&& line@ == crate::lox::spec_error_message(
                            old(self).toks()[at]@,
                            spec_error_message(k),
                        )
                    },
                }),
            },
    {
        let r0 = self.parse();
        match r0 {
            Ok(e) => Ok(e),
            Err(pe) => {
                let message = pe.message();
                let line = lox.error(pe.token.duplicate(), message.as_str());
                Err((pe, line))
            },
        }
    }

    fn expression(&mut self) -> (r: Result<Expression, ParseError>)
        requires
            old(self).wf(),
        ensures
            final (self).wf(),
            final (self).tokens == old(self).tokens,
            outcome_matches(
                spec_expression(old(self).toks(), old(self).cur()),
                old(self).toks(),
                r,
                final (self).cur(),
            ),
        decreases self.toks().len() - self.cur(), 12int,
    {
        self.equality()
    }

    #[verifier::loop_isolation(false)]
    fn equality(&mut self) -> (r: Result<Expression, ParseError>)
        requires
            old(self).wf(),
        ensures
            final (self).wf(),
            final (self).tokens == old(self).tokens,
            outcome_matches(
                spec_equality(old(self).toks(), old(self).cur()),
                old(self).toks(),
                r,
                final (self).cur(),
            ),
        decreases self.toks().len() - self.cur(), 11int,
    {
        let ghost toks = self.tokens@;
        let ghost c0 = self.cur();
        proof {
            lemma_progress_comparison(toks, c0);
        }
        let r0 = self.comparison();
        let mut expr = match r0 {
            Ok(e) => e,
            Err(pe) => {
                return Err(pe);
            },
        };
        let ops = [TokenKind::BangEqual, TokenKind::EqualEqual];
        while self.match_types(ops.as_slice())
            invariant
                self.wf(),
                self.tokens == old(self).tokens,
                c0 <= self.cur() <= toks.len(),
                spec_equality(toks, c0) == spec_equality_rest(toks, self.cur(), expr),
            decreases toks.len() - self.cur(), 10int,
        {
            let operator = self.previous().duplicate();
            let ghost c1 = self.cur();
            let ghost k = operator@.kind;
            proof {
                assert(ops@.contains(k));
                assert(is_equality_op(k));
                lemma_progress_comparison(toks, c1);
            }
            let r1 = self.comparison();
            let right = match r1 {
                Ok(e) => e,
                Err(pe) => {
                    return Err(pe);
                },
            };
            expr = Expression::Binary(Binary::new(Box::new(expr), operator, Box::new(right)));
        }
        proof {
            let k = toks[self.cur()]@.kind;
            if is_equality_op(k) {
                if k is BangEqual {
                    assert(ops@[0] == k);
                } else {
                    assert(ops@[1] == k);
                }
                assert(ops@.contains(k));
            }
        }
        Ok(expr)
    }

    #[verifier::loop_isolation(false)]
    fn comparison(&mut self) -> (r: Result<Expression, ParseError>)
        requires
            old(self).wf(),
        ensures
            final (self).wf(),
            final (self).tokens == old(self).tokens,
            outcome_matches(
                spec_comparison(old(self).toks(), old(self).cur()),
                old(self).toks(),
                r,
                final (self).cur(),
            ),
        decreases self.toks().len() - self.cur(), 9int,
    {
        let ghost toks = self.tokens@;
        let ghost c0 = self.cur();
        proof {
            lemma_progress_term(toks, c0);
        }
        let r0 = self.term();
        let mut expr = match r0 {
            Ok(e) => e,
            Err(pe) => {
                return Err(pe);
            },
        };
        let ops = [
            TokenKind::Greater,
            TokenKind::GreaterEqual,
            TokenKind::Less,
            TokenKind::LessEqual,
        ];
        while self.match_types(ops.as_slice())
            invariant
                self.wf(),
                self.tokens == old(self).tokens,
                c0 <= self.cur() <= toks.len(),
                spec_comparison(toks, c0) == spec_comparison_rest(toks, self.cur(), expr),
            decreases toks.len() - self.cur(), 8int,
        {
            let operator = self.previous().duplicate();
            let ghost c1 = self.cur();
            let ghost k = operator@.kind;
            proof {
                assert(ops@.contains(k));
                assert(is_comparison_op(k));
                lemma_progress_term(toks, c1);
            }
            let r1 = self.term();
            let right = match r1 {
                Ok(e) => e,
                Err(pe) => {
                    return Err(pe);
                },
            };
            expr = Expression::Binary(Binary::new(Box::new(expr), operator, Box::new(right)));
        }
        proof {
            let k = toks[self.cur()]@.kind;
            if is_comparison_op(k) {
                if k is Greater {
                    assert(ops@[0] == k);
                } else if k is GreaterEqual {
                    assert(ops@[1] == k);
                } else if k is Less {
                    assert(ops@[2] == k);
                } else {
                    assert(ops@[3] == k);
                }
                assert(ops@.contains(k));
            }
        }
        Ok(expr)
    }

    #[verifier::loop_isolation(false)]
    fn term(&mut self) -> (r: Result<Expression, ParseError>)
        requires
            old(self).wf(),
        ensures
            final (self).wf(),
            final (self).tokens == old(self).tokens,
            outcome_matches(
                spec_term(old(self).toks(), old(self).cur()),
                old(self).toks(),
                r,
                final (self).cur(),
            ),
        decreases self.toks().len() - self.cur(), 7int,
    {
        let ghost toks = self.tokens@;
        let ghost c0 = self.cur();
        proof {
            lemma_progress_factor(toks, c0);
        }
        let r0 = self.factor();
        let mut expr = match r0 {
            Ok(e) => e,
            Err(pe) => {
                return Err(pe);
            },
        };
        let ops = [TokenKind::Minus, TokenKind::Plus];
        while self.match_types(ops.as_slice())
            invariant
                self.wf(),
                self.tokens == old(self).tokens,
                c0 <= self.cur() <= toks.len(),
                spec_term(toks, c0) == spec_term_rest(toks, self.cur(), expr),
            decreases toks.len() - self.cur(), 6int,
        {
            let operator = self.previous().duplicate();
            let ghost c1 = self.cur();
            let ghost k = operator@.kind;
            proof {
                assert(ops@.contains(k));
                assert(is_term_op(k));
                lemma_progress_factor(toks, c1);
            }
            let r1 = self.factor();
            let right = match r1 {
                Ok(e) => e,
                Err(pe) => {
                    return Err(pe);
                },
            };
            expr = Expression::Binary(Binary::new(Box::new(expr), operator, Box::new(right)));
        }
        proof {
            let k = toks[self.cur()]@.kind;
            if is_term_op(k) {
                if k is Minus {
                    assert(ops@[0] == k);
                } else {
                    assert(ops@[1] == k);
                }
                assert(ops@.contains(k));
            }
        }
        Ok(expr)
    }

    #[verifier::loop_isolation(false)]
    fn factor(&mut self) -> (r: Result<Expression, ParseError>)
        requires
            old(self).wf(),
        ensures
            final (self).wf(),
            final (self).tokens == old(self).tokens,
            outcome_matches(
                spec_factor(old(self).toks(), old(self).cur()),
                old(self).toks(),
                r,
                final (self).cur(),
            ),
        decreases self.toks().len() - self.cur(), 5int,
    {
        let ghost toks = self.tokens@;
        let ghost c0 = self.cur();
        proof {
            lemma_progress_unary(toks, c0);
        }
        let r0 = self.unary();
        let mut expr = match r0 {
            Ok(e) => e,
            Err(pe) => {
                return Err(pe);
            },
        };
        let ops = [TokenKind::Slash, TokenKind::Star];
        while self.match_types(ops.as_slice())
            invariant
                self.wf(),
                self.tokens == old(self).tokens,
                c0 <= self.cur() <= toks.len(),
                spec_factor(toks, c0) == spec_factor_rest(toks, self.cur(), expr),
            decreases toks.len() - self.cur(), 4int,
        {
            let operator = self.previous().duplicate();
            let ghost c1 = self.cur();
            let ghost k = operator@.kind;
            proof {
                assert(ops@.contains(k));
                assert(is_factor_op(k));
                lemma_progress_unary(toks, c1);
            }
            let r1 = self.unary();
            let right = match r1 {
                Ok(e) => e,
                Err(pe) => {
                    return Err(pe);
                },
            };
            expr = Expression::Binary(Binary::new(Box::new(expr), operator, Box::new(right)));
        }
        proof {
            let k = toks[self.cur()]@.kind;
            if is_factor_op(k) {
                if k is Slash {
                    assert(ops@[0] == k);
                } else {
                    assert(ops@[1] == k);
                }
                assert(ops@.contains(k));
            }
        }
        Ok(expr)
    }

    fn unary(&mut self) -> (r: Result<Expression, ParseError>)
        requires
            old(self).wf(),
        ensures
            final (self).wf(),
            final (self).tokens == old(self).tokens,
            outcome_matches(
                spec_unary(old(self).toks(), old(self).cur()),
                old(self).toks(),
                r,
                final (self).cur(),
            ),
        decreases self.toks().len() - self.cur(), 3int,
    {
        let ghost toks = self.tokens@;
        let ghost c0 = self.cur();
        let ops = [TokenKind::Bang, TokenKind::Minus];
        let ghost k = self.toks()[self.cur()]@.kind;
        proof {
            if k is Bang || k is Minus {
                assert(ops@[0] == TokenKind::Bang);
                assert(ops@[1] == TokenKind::Minus);
                assert(ops@.contains(k));
            }
        }
        if self.match_types(ops.as_slice()) {
            let operator = self.previous().duplicate();
            let r1 = self.unary();
            match r1 {
                Ok(right) => Ok(
                    Expression::Unary(Unary::new(operator, Box::new(right))),
                ),
                Err(pe) => Err(pe),
            }
        } else {
            self.primary()
        }
    }

    fn primary(&mut self) -> (r: Result<Expression, ParseError>)
        requires
            old(self).wf(),
        ensures
            final (self).wf(),
            final (self).tokens == old(self).tokens,
            outcome_matches(
                spec_primary(old(self).toks(), old(self).cur()),
                old(self).toks(),
                r,
                final (self).cur(),
            ),
        decreases self.toks().len() - self.cur(), 1int,
    {
        let ghost toks = self.tokens@;
        let ghost c0 = self.cur();
        let kind = self.peek().kind;
        match kind {
            TokenKind::False | TokenKind::True | TokenKind::Nil | TokenKind::Number
                | TokenKind::StringLit => {
                let t = self.advance();
                Ok(Expression::Literal(Literal::new(t)))
            },
            TokenKind::LeftParen => {
                self.advance();
                proof {
                    lemma_progress_expression(toks, c0 + 1);
                }
                let r0 = self.expression();
                match r0 {
                    Ok(inner) => {
                        match self.consume(TokenKind::RightParen, ParseErrorKind::ExpectedRightParen) {
                            Ok(_) => Ok(
                                Expression::Grouping(Grouping::new(Box::new(inner))),
                            ),
                            Err(pe) => Err(pe),
                        }
                    },
                    Err(pe) => Err(pe),
                }
            },
            _ => {
                let token = self.peek().duplicate();
                Err(ParseError { token, kind: ParseErrorKind::ExpectedExpression })
            },
        }
    }

    /// Recover after a parse error: discard at least one token, then keep
    /// discarding until the token just discarded was a semicolon, the next
    /// token begins a new statement (`return`), or the input is exhausted.
    /// Unused by the expression grammar; kept, with its contract, for when
    /// statement parsing is added.
    pub fn synchronise(&mut self)
        requires
            old(self).wf(),
            old(self).cur() >= 1 || !(old(self).toks()[old(self).cur()]@.kind is Eof),
        ensures
            final (self).wf(),
            final (self).toks() == old(self).toks(),
            final (self).cur() == spec_sync(old(self).toks(), old(self).cur()),
    {
        let ghost toks = self.tokens@;
        self.advance();
        while !self.is_at_end()
            invariant
                self.wf(),
                self.tokens == old(self).tokens,
                self.tokens@ == toks,
                self.cur() >= 1,
                spec_sync(toks, old(self).cur()) == spec_sync_scan(toks, self.cur()),
            decreases toks.len() - self.cur(),
        {
            if self.previous().kind == TokenKind::SemiColon {
                return;
            }
            if self.peek().kind == TokenKind::Return {
                return;
            }
            self.advance();
        }
    }
}

/// The scan of [`Parser::synchronise`] once the first token is discarded:
/// the first position, from `pos` on, that stands just after a semicolon,
/// at a `return`, or at the end of input.
pub open spec fn spec_sync_scan(toks: Seq<Token>, pos: int) -> int
    decreases toks.len() - pos,
{
    if 0 <= pos < toks.len() && !(toks[pos]@.kind is Eof) {
        if toks[pos - 1]@.kind is SemiColon {
            pos
        } else if toks[pos]@.kind is Return {
            pos
        } else {
            spec_sync_scan(toks, pos + 1)
        }
    } else {
        pos
    }
}

/// Where [`Parser::synchronise`] leaves the cursor: one token is always
/// discarded, then the scan above runs.
pub open spec fn spec_sync(toks: Seq<Token>, pos: int) -> int {
    if 0 <= pos < toks.len() && !(toks[pos]@.kind is Eof) {
        spec_sync_scan(toks, pos + 1)
    } else {
        spec_sync_scan(toks, pos)
    }
}

} // verus!
