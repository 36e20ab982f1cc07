//! The scanner: one left-to-right pass over the source characters, producing
//! the token sequence with source lines, terminated by a single `Eof` token.
//!
//! The whole pass is specified by [`spec_scan`]: a mathematical function from
//! the source characters to the token sequence.  The executable scanner is
//! proved to produce exactly that sequence.
//!
//! On a lexical error (an unexpected character, or a string literal still
//! open at end of input) the scanner does not stop: it emits an `Error`-kind
//! token, latches its error flag, and goes on scanning.  Identifiers and
//! numbers are runs of ASCII letters and digits.

use vstd::prelude::*;

use crate::token::{Token, TokenKind, TokenModel};
use vstd::std_specs::iter::IteratorSpec;
use vstd::string::StrSliceExecFns;
use vstd::string::StringExecFns;

verus! {

// ---------------------------------------------------------------------------
// Character classes
// ---------------------------------------------------------------------------
pub open spec fn is_digit_char(c: char) -> bool {
    48 <= c as u32 <= 57
}

pub open spec fn is_alpha_char(c: char) -> bool {
    (65 <= c as u32 <= 90) || (97 <= c as u32 <= 122)
}

pub open spec fn is_alnum_char(c: char) -> bool {
    is_digit_char(c) || is_alpha_char(c)
}

// ---------------------------------------------------------------------------
// Maximal runs: where a comment, a string body, a digit run or an
// identifier ends, starting the search at position `i`.
// ---------------------------------------------------------------------------
/// First position at or after `i` whose character is a newline, or the end
/// of the source.  A line comment spans up to, and not including, there.
pub open spec fn comment_end(src: Seq<char>, i: int) -> int
    decreases src.len() - i,
{
    if 0 <= i < src.len() && src[i] != '\n' {
        comment_end(src, i + 1)
    } else {
        i
    }
}

/// First position at or after `i` whose character is a double quote, or the
/// end of the source: the first position past the body of a string literal.
pub open spec fn string_body_end(src: Seq<char>, i: int) -> int
    decreases src.len() - i,
{
    if 0 <= i < src.len() && src[i] != '"' {
        string_body_end(src, i + 1)
    } else {
        i
    }
}

/// First position at or after `i` whose character is not an ASCII digit.
pub open spec fn digits_end(src: Seq<char>, i: int) -> int
    decreases src.len() - i,
{
    if 0 <= i < src.len() && is_digit_char(src[i]) {
        digits_end(src, i + 1)
    } else {
        i
    }
}

/// First position at or after `i` whose character is not an ASCII letter or
/// digit.
pub open spec fn alnum_end(src: Seq<char>, i: int) -> int
    decreases src.len() - i,
{
    if 0 <= i < src.len() && is_alnum_char(src[i]) {
        alnum_end(src, i + 1)
    } else {
        i
    }
}

/// How many newline characters lie in `src[i..j)`.
pub open spec fn newline_count(src: Seq<char>, i: int, j: int) -> nat
    decreases j - i,
{
    if i < j {
        (if 0 <= i < src.len() && src[i] == '\n' {
            1nat
        } else {
            0nat
        }) + newline_count(src, i + 1, j)
    } else {
        0nat
    }
}

/// Where a number token starting at the digit at `i` ends: a maximal digit
/// run, then at most one dot followed by at least one digit and the digit
/// run after it.  A dot with no digit behind it is left unconsumed.
pub open spec fn number_end(src: Seq<char>, i: int) -> int {
    let j = digits_end(src, i);
    if j < src.len() && src[j] == '.' && j + 1 < src.len() && is_digit_char(src[j + 1]) {
        digits_end(src, j + 1)
    } else {
        j
    }
}

// ---------------------------------------------------------------------------
// The keyword table
// ---------------------------------------------------------------------------
/// The reserved-word table: an exact, full-lexeme match yields the keyword
/// kind; any other spelling is an identifier.
pub open spec fn spec_keyword_kind(lex: Seq<char>) -> TokenKind {
    if lex == "and"@ {
        TokenKind::And
    } else if lex == "class"@ {
        TokenKind::Class
    } else if lex == "else"@ {
        TokenKind::Else
    } else if lex == "false"@ {
        TokenKind::False
    } else if lex == "for"@ {
        TokenKind::For
    } else if lex == "fun"@ {
        TokenKind::Fun
    } else if lex == "if"@ {
        TokenKind::If
    } else if lex == "nil"@ {
        TokenKind::Nil
    } else if lex == "or"@ {
        TokenKind::Or
    } else if lex == "print"@ {
        TokenKind::Print
    } else if lex == "return"@ {
        TokenKind::Return
    } else if lex == "super"@ {
        TokenKind::Super
    } else if lex == "this"@ {
        TokenKind::This
    } else if lex == "true"@ {
        TokenKind::True
    } else if lex == "var"@ {
        TokenKind::Var
    } else if lex == "while"@ {
        TokenKind::While
    } else {
        TokenKind::Identifier
    }
}

// ---------------------------------------------------------------------------
// One scanning step
// ---------------------------------------------------------------------------
/// The outcome of classifying one lexeme: the position after it, the token
/// it emits (none for comments and whitespace), and the line counter after
/// it.  An emitted token carries the line the scanner stood on after
/// consuming the lexeme.
pub struct ScanStep {
    pub next: int,
    pub token: Option<TokenModel>,
    pub line: nat,
}

pub open spec fn spec_token(
    kind: TokenKind,
    src: Seq<char>,
    start: int,
    end: int,
    line: nat,
) -> TokenModel {
    TokenModel { kind, lexeme: src.subrange(start, end), line }
}

pub open spec fn eof_token(line: nat) -> TokenModel {
    TokenModel { kind: TokenKind::Eof, lexeme: Seq::empty(), line }
}

pub open spec fn single_step(src: Seq<char>, i: int, line: nat, kind: TokenKind) -> ScanStep {
    ScanStep { next: i + 1, token: Some(spec_token(kind, src, i, i + 1, line)), line }
}

/// Greedy one-character lookahead: a trailing `=` chooses the two-character
/// operator `two`, anything else the one-character operator `one`.
pub open spec fn one_or_two_step(
    src: Seq<char>,
    i: int,
    line: nat,
    one: TokenKind,
    two: TokenKind,
) -> ScanStep {
    if i + 1 < src.len() && src[i + 1] == '=' {
        ScanStep { next: i + 2, token: Some(spec_token(two, src, i, i + 2, line)), line }
    } else {
        single_step(src, i, line, one)
    }
}

/// Classify the lexeme beginning at position `i` (which must be inside the
/// source), on line `line`.
pub open spec fn scan_step(src: Seq<char>, i: int, line: nat) -> ScanStep
    recommends
        0 <= i < src.len(),
{
    let c = src[i];
    if c == '(' {
        single_step(src, i, line, TokenKind::LeftParen)
    } else if c == ')' {
        single_step(src, i, line, TokenKind::RightParen)
    } else if c == '{' {
        single_step(src, i, line, TokenKind::LeftBrace)
    } else if c == '}' {
        single_step(src, i, line, TokenKind::RightBrace)
    } else if c == ',' {
        single_step(src, i, line, TokenKind::Comma)
    } else if c == '.' {
        single_step(src, i, line, TokenKind::Dot)
    } else if c == '-' {
        single_step(src, i, line, TokenKind::Minus)
    } else if c == '+' {
        single_step(src, i, line, TokenKind::Plus)
    } else if c == ';' {
        single_step(src, i, line, TokenKind::SemiColon)
    } else if c == '*' {
        single_step(src, i, line, TokenKind::Star)
    } else if c == '!' {
        one_or_two_step(src, i, line, TokenKind::Bang, TokenKind::BangEqual)
    } else if c == '=' {
        one_or_two_step(src, i, line, TokenKind::Equal, TokenKind::EqualEqual)
    } else if c == '<' {
        one_or_two_step(src, i, line, TokenKind::Less, TokenKind::LessEqual)
    } else if c == '>' {
        one_or_two_step(src, i, line, TokenKind::Greater, TokenKind::GreaterEqual)
    } else if c == '/' {
        if i + 1 < src.len() && src[i + 1] == '/' {
            // A line comment: discarded, and the newline is not consumed.
            ScanStep { next: comment_end(src, i + 2), token: None, line }
        } else {
            single_step(src, i, line, TokenKind::Slash)
        }
    } else if c == ' ' || c == '\r' || c == '\t' {
        ScanStep { next: i + 1, token: None, line }
    } else if c == '\n' {
        ScanStep { next: i + 1, token: None, line: line + 1 }
    } else if c == '"' {
        let j = string_body_end(src, i + 1);
        if j < src.len() {
            // Terminated: the lexeme is the body, without the quotes.
            let l2 = line + newline_count(src, i + 1, j);
            ScanStep {
                next: j + 1,
                token: Some(TokenModel { kind: TokenKind::StringLit, lexeme: src.subrange(i + 1, j), line: l2 }),
                line: l2,
            }
        } else {
            // Unterminated: everything to the end of input becomes one
            // Error token, quotes and all.
            let l2 = line + newline_count(src, i + 1, src.len() as int);
            ScanStep {
                next: src.len() as int,
                token: Some(
                    TokenModel {
                        kind: TokenKind::Error,
                        lexeme: src.subrange(i, src.len() as int),
                        line: l2,
                    },
                ),
                line: l2,
            }
        }
    } else if is_digit_char(c) {
        let j = number_end(src, i);
        ScanStep { next: j, token: Some(spec_token(TokenKind::Number, src, i, j, line)), line }
    } else if is_alpha_char(c) {
        let j = alnum_end(src, i);
        ScanStep {
            next: j,
            token: Some(
                TokenModel {
                    kind: spec_keyword_kind(src.subrange(i, j)),
                    lexeme: src.subrange(i, j),
                    line,
                },
            ),
            line,
        }
    } else {
        single_step(src, i, line, TokenKind::Error)
    }
}

// ---------------------------------------------------------------------------
// Bounds of the helpers, and progress of a step
// ---------------------------------------------------------------------------
pub proof fn lemma_comment_end_bounds(src: Seq<char>, i: int)
    requires
        0 <= i <= src.len(),
    ensures
        i <= comment_end(src, i) <= src.len(),
        comment_end(src, i) < src.len() ==> src[comment_end(src, i)] == '\n',
        forall|k: int| i <= k < comment_end(src, i) ==> src[k] != '\n',
    decreases src.len() - i,
{
    if i < src.len() && src[i] != '\n' {
        lemma_comment_end_bounds(src, i + 1);
    }
}

pub proof fn lemma_string_body_end_bounds(src: Seq<char>, i: int)
    requires
        0 <= i <= src.len(),
    ensures
        i <= string_body_end(src, i) <= src.len(),
        string_body_end(src, i) < src.len() ==> src[string_body_end(src, i)] == '"',
        forall|k: int| i <= k < string_body_end(src, i) ==> src[k] != '"',
    decreases src.len() - i,
{
    if i < src.len() && src[i] != '"' {
        lemma_string_body_end_bounds(src, i + 1);
    }
}

pub proof fn lemma_digits_end_bounds(src: Seq<char>, i: int)
    requires
        0 <= i <= src.len(),
    ensures
        i <= digits_end(src, i) <= src.len(),
        digits_end(src, i) < src.len() ==> !is_digit_char(src[digits_end(src, i)]),
        forall|k: int| i <= k < digits_end(src, i) ==> is_digit_char(src[k]),
    decreases src.len() - i,
{
    if i < src.len() && is_digit_char(src[i]) {
        lemma_digits_end_bounds(src, i + 1);
    }
}

pub proof fn lemma_alnum_end_bounds(src: Seq<char>, i: int)
    requires
        0 <= i <= src.len(),
    ensures
        i <= alnum_end(src, i) <= src.len(),
        alnum_end(src, i) < src.len() ==> !is_alnum_char(src[alnum_end(src, i)]),
        forall|k: int| i <= k < alnum_end(src, i) ==> is_alnum_char(src[k]),
    decreases src.len() - i,
{
    if i < src.len() && is_alnum_char(src[i]) {
        lemma_alnum_end_bounds(src, i + 1);
    }
}

/// Every step consumes at least one character and stays inside the source.
pub proof fn lemma_scan_step_bounds(src: Seq<char>, i: int, line: nat)
    requires
        0 <= i < src.len(),
    ensures
        i < scan_step(src, i, line).next <= src.len(),
{
    let c = src[i];
    if c == '/' && i + 1 < src.len() && src[i + 1] == '/' {
        lemma_comment_end_bounds(src, i + 2);
    } else if c == '"' {
        lemma_string_body_end_bounds(src, i + 1);
    } else if is_digit_char(c) {
        lemma_digits_end_bounds(src, i);
        let j = digits_end(src, i);
        if j < src.len() && src[j] == '.' && j + 1 < src.len() && is_digit_char(src[j + 1]) {
            lemma_digits_end_bounds(src, j + 1);
        }
    } else if is_alpha_char(c) {
        lemma_alnum_end_bounds(src, i);
    }
}

// ---------------------------------------------------------------------------
// The whole pass
// ---------------------------------------------------------------------------
/// The token sequence produced from position `i` on, with the line counter
/// at `line`, ending with the one `Eof` token.
pub open spec fn spec_scan_from(src: Seq<char>, i: int, line: nat) -> Seq<TokenModel>
    decreases src.len() - i,
        via spec_scan_from_decreases
{
    if !(0 <= i < src.len()) {
        seq![eof_token(line)]
    } else {
        let s = scan_step(src, i, line);
        match s.token {
            Some(t) => seq![t] + spec_scan_from(src, s.next, s.line),
            None => spec_scan_from(src, s.next, s.line),
        }
    }
}

#[via_fn]
proof fn spec_scan_from_decreases(src: Seq<char>, i: int, line: nat) {
    if 0 <= i < src.len() {
        lemma_scan_step_bounds(src, i, line);
    }
}

/// The token sequence of a whole source: scanning starts at the first
/// character, on line 1.
pub open spec fn spec_scan(src: Seq<char>) -> Seq<TokenModel> {
    spec_scan_from(src, 0, 1)
}

/// Whether a token sequence contains a lexical error.
pub open spec fn has_error_token(ts: Seq<TokenModel>) -> bool {
    exists|k: int| 0 <= k < ts.len() && ts[k].kind is Error
}

pub proof fn lemma_has_error_push(ts: Seq<TokenModel>, t: TokenModel)
    ensures
        has_error_token(ts.push(t)) == (has_error_token(ts) || t.kind is Error),
{
    if has_error_token(ts) {
        let k = choose|k: int| 0 <= k < ts.len() && ts[k].kind is Error;
        assert(ts.push(t)[k].kind is Error);
    }
    if t.kind is Error {
        assert(ts.push(t)[ts.len() as int].kind is Error);
    }
    if has_error_token(ts.push(t)) {
        let k = choose|k: int| 0 <= k < ts.push(t).len() && ts.push(t)[k].kind is Error;
        if k < ts.len() {
            assert(ts[k].kind is Error);
        }
    }
}

pub proof fn lemma_newline_count_snoc(src: Seq<char>, i: int, j: int)
    requires
        i <= j,
    ensures
        newline_count(src, i, j + 1) == newline_count(src, i, j) + (
        if 0 <= j < src.len() && src[j] == '\n' {
            1nat
        } else {
            0nat
        }),
    decreases j - i,
{
    if i < j {
        lemma_newline_count_snoc(src, i + 1, j);
    } else {
        assert(newline_count(src, i + 1, j + 1) == 0nat);
    }
}

// ---------------------------------------------------------------------------
// Laws of the token stream
// ---------------------------------------------------------------------------
/// The shape of every scan: at least one token comes out, the last one is
/// the one `Eof` token, and no token before it is an `Eof`, a `Comment` or a
/// `Whitespace` token — the two intermediate classifications never reach the
/// emitted stream.
pub proof fn lemma_scan_shape(src: Seq<char>, i: int, line: nat)
    ensures
        spec_scan_from(src, i, line).len() >= 1,
        spec_scan_from(src, i, line).last().kind is Eof,
        forall|k: int|
            0 <= k < spec_scan_from(src, i, line).len() - 1 ==> {
                &&& !(#[trigger] spec_scan_from(src, i, line)[k].kind is Eof)
                &&& !(spec_scan_from(src, i, line)[k].kind is Comment)
                &&& !(spec_scan_from(src, i, line)[k].kind is Whitespace)
            },
    decreases src.len() - i,
{
    if 0 <= i < src.len() {
        let st = scan_step(src, i, line);
        lemma_scan_step_bounds(src, i, line);
        lemma_scan_shape(src, st.next, st.line);
        let rest = spec_scan_from(src, st.next, st.line);
        match st.token {
            Some(t) => {
                assert(!(t.kind is Eof) && !(t.kind is Comment) && !(t.kind is Whitespace));
                assert(spec_scan_from(src, i, line) == seq![t] + rest);
                assert((seq![t] + rest).last() == rest.last());
                assert forall|k: int| 0 <= k < (seq![t] + rest).len() - 1 implies {
                    &&& !((seq![t] + rest)[k].kind is Eof)
                    &&& !((seq![t] + rest)[k].kind is Comment)
                    &&& !((seq![t] + rest)[k].kind is Whitespace)
                } by {
                    if k > 0 {
                        assert((seq![t] + rest)[k] == rest[k - 1]);
                    }
                }
            },
            None => {},
        }
    }
}

/// The one-character punctuation kind of a character, if it has one.
pub open spec fn punct_kind(c: char) -> Option<TokenKind> {
    if c == '(' {
        Some(TokenKind::LeftParen)
    } else if c == ')' {
        Some(TokenKind::RightParen)
    } else if c == '{' {
        Some(TokenKind::LeftBrace)
    } else if c == '}' {
        Some(TokenKind::RightBrace)
    } else if c == ',' {
        Some(TokenKind::Comma)
    } else if c == '.' {
        Some(TokenKind::Dot)
    } else if c == '-' {
        Some(TokenKind::Minus)
    } else if c == '+' {
        Some(TokenKind::Plus)
    } else if c == ';' {
        Some(TokenKind::SemiColon)
    } else if c == '/' {
        Some(TokenKind::Slash)
    } else if c == '*' {
        Some(TokenKind::Star)
    } else {
        None
    }
}

/// A source of single-character punctuation alone scans to exactly those
/// punctuation tokens in order, each with its one character as lexeme and
/// the unchanged line number, followed by the one `Eof` token.  Two adjacent
/// slashes are left out: they would begin a comment instead.
pub proof fn lemma_punctuation_only(src: Seq<char>, i: int, line: nat)
    requires
        0 <= i <= src.len(),
        forall|k: int| i <= k < src.len() ==> (#[trigger] punct_kind(src[k])) is Some,
        forall|k: int|
            i <= k < src.len() - 1 ==> !(#[trigger] src[k] == '/' && src[k + 1] == '/'),
    ensures
        spec_scan_from(src, i, line).len() == src.len() - i + 1,
        forall|k: int|
            i <= k < src.len() ==> #[trigger] spec_scan_from(src, i, line)[k - i]
                == spec_token(punct_kind(src[k])->0, src, k, k + 1, line),
        spec_scan_from(src, i, line).last() == eof_token(line),
    decreases src.len() - i,
{
    if i < src.len() {
        assert(punct_kind(src[i]) is Some);
        let st = scan_step(src, i, line);
        if i + 1 < src.len() {
            assert(!(src[i] == '/' && src[i + 1] == '/'));
        }
        assert(st == single_step(src, i, line, punct_kind(src[i])->0));
        lemma_punctuation_only(src, i + 1, line);
        let rest = spec_scan_from(src, i + 1, line);
        let ts = spec_scan_from(src, i, line);
        assert(ts == seq![st.token->0] + rest);
        assert forall|k: int| i <= k < src.len() implies #[trigger] ts[k - i] == spec_token(
            punct_kind(src[k])->0,
            src,
            k,
            k + 1,
            line,
        ) by {
            if k > i {
                assert(ts[k - i] == rest[k - (i + 1)]);
            }
        }
        assert(ts.last() == rest.last());
    }
}

/// Maximal munch for the one-or-two-character operators: `!`, `=`, `<`, `>`
/// followed by `=` always scan as the single two-character token, and as
/// their one-character counterpart otherwise.
pub proof fn lemma_greedy_operator(src: Seq<char>, i: int, line: nat, one: TokenKind, two: TokenKind)
    requires
        0 <= i < src.len(),
        (src[i] == '!' && one == TokenKind::Bang && two == TokenKind::BangEqual) || (src[i] == '='
            && one == TokenKind::Equal && two == TokenKind::EqualEqual) || (src[i] == '<' && one
            == TokenKind::Less && two == TokenKind::LessEqual) || (src[i] == '>' && one
            == TokenKind::Greater && two == TokenKind::GreaterEqual),
    ensures
        i + 1 < src.len() && src[i + 1] == '=' ==> spec_scan_from(src, i, line) == seq![
            spec_token(two, src, i, i + 2, line),
        ] + spec_scan_from(src, i + 2, line),
        !(i + 1 < src.len() && src[i + 1] == '=') ==> spec_scan_from(src, i, line) == seq![
            spec_token(one, src, i, i + 1, line),
        ] + spec_scan_from(src, i + 1, line),
{
    assert(scan_step(src, i, line) == one_or_two_step(src, i, line, one, two));
}

/// A line comment is discarded whole: scanning after `//` resumes at the end
/// of the physical line (or of the input), with the line counter unchanged —
/// the newline itself, scanned next, is what increments it.
pub proof fn lemma_comment_discarded(src: Seq<char>, i: int, line: nat)
    requires
        0 <= i,
        i + 1 < src.len(),
        src[i] == '/',
        src[i + 1] == '/',
    ensures
        spec_scan_from(src, i, line) == spec_scan_from(src, comment_end(src, i + 2), line),
{
}

/// A terminated string literal scans to one `StringLit` token whose lexeme
/// is exactly the text between the quotes — the quotes are stripped — and
/// whose line is the line of the closing quote.  A string still open at the
/// end of input scans to one `Error` token, and the scan reports an error.
pub proof fn lemma_string_literal(src: Seq<char>, i: int, line: nat)
    requires
        0 <= i < src.len(),
        src[i] == '"',
    ensures
        ({
            let j = string_body_end(src, i + 1);
            let ts = spec_scan_from(src, i, line);
            &&& (j < src.len() ==> ts[0] == (TokenModel {
                kind: TokenKind::StringLit,
                lexeme: src.subrange(i + 1, j),
                line: (line + newline_count(src, i + 1, j)) as nat,
            }))
            &&& (j >= src.len() ==> ts[0].kind is Error && has_error_token(ts))
        }),
{
    let j = string_body_end(src, i + 1);
    let ts = spec_scan_from(src, i, line);
    lemma_string_body_end_bounds(src, i + 1);
    let st = scan_step(src, i, line);
    let rest = spec_scan_from(src, st.next, st.line);
    assert(ts == seq![st.token->0] + rest);
    assert(ts[0] == st.token->0);
    if j >= src.len() {
        assert(ts[0].kind is Error);
    }
}

/// The fixed message of a lexical error.  An `Error` token's lexeme either
/// begins with the opening quote of an unterminated string literal, or is
/// the one unexpected character, which is never a quote (a quote always
/// begins a string literal): the first character tells the two apart —
/// [`lemma_error_token_shape`] states that no other `Error` token exists.
pub open spec fn spec_lex_error_message(t: TokenModel) -> Seq<char> {
    if t.lexeme.len() >= 1 && t.lexeme[0] == '"' {
        "Unterminated string."@
    } else {
        "Unexpected character."@
    }
}

/// The diagnostic message for an `Error` token.
pub fn lex_error_message(token: &Token) -> (m: &'static str)
    ensures
        m@ == spec_lex_error_message(token@),
{
    let s = token.lexeme.as_str();
    if s.unicode_len() >= 1 && s.get_char(0) == '"' {
        "Unterminated string."
    } else {
        "Unexpected character."
    }
}

/// What an `Error` token can be: its lexeme is never empty, and unless it
/// begins with a quote — the unterminated-string case — it is exactly the
/// one unexpected character.
pub proof fn lemma_error_token_shape(src: Seq<char>, i: int, line: nat)
    ensures
        forall|k: int|
            0 <= k < spec_scan_from(src, i, line).len() && (#[trigger] spec_scan_from(
                src,
                i,
                line,
            )[k]).kind is Error ==> spec_scan_from(src, i, line)[k].lexeme.len() >= 1
                && (spec_scan_from(src, i, line)[k].lexeme[0] != '"' ==> spec_scan_from(
                src,
                i,
                line,
            )[k].lexeme.len() == 1),
    decreases src.len() - i,
{
    if 0 <= i < src.len() {
        let st = scan_step(src, i, line);
        lemma_scan_step_bounds(src, i, line);
        lemma_error_token_shape(src, st.next, st.line);
        let rest = spec_scan_from(src, st.next, st.line);
        match st.token {
            Some(t) => {
                if src[i] == '"' {
                    lemma_string_body_end_bounds(src, i + 1);
                }
                assert(t.kind is Error ==> t.lexeme.len() >= 1 && (t.lexeme[0] != '"'
                    ==> t.lexeme.len() == 1));
                assert(spec_scan_from(src, i, line) == seq![t] + rest);
                assert forall|k: int|
                    0 <= k < (seq![t] + rest).len() && (#[trigger] (seq![t] + rest)[k]).kind
                        is Error implies (seq![t] + rest)[k].lexeme.len() >= 1 && ((seq![t]
                    + rest)[k].lexeme[0] != '"' ==> (seq![t] + rest)[k].lexeme.len() == 1) by {
                    if k > 0 {
                        assert((seq![t] + rest)[k] == rest[k - 1]);
                    }
                }
            },
            None => {},
        }
    }
}

/// An identifier or keyword token always covers the maximal alphanumeric
/// run from its first letter, and the keyword lookup applies to that full
/// lexeme — never to a prefix of it.
pub proof fn lemma_identifier_maximal(src: Seq<char>, i: int, line: nat)
    requires
        0 <= i < src.len(),
        is_alpha_char(src[i]),
    ensures
        ({
            let j = alnum_end(src, i);
            &&& spec_scan_from(src, i, line)[0] == (TokenModel {
                kind: spec_keyword_kind(src.subrange(i, j)),
                lexeme: src.subrange(i, j),
                line,
            })
            &&& (j < src.len() ==> !is_alnum_char(src[j]))
        }),
{
    lemma_alnum_end_bounds(src, i);
    let st = scan_step(src, i, line);
    let rest = spec_scan_from(src, st.next, st.line);
    assert(spec_scan_from(src, i, line) == seq![st.token->0] + rest);
}

// ---------------------------------------------------------------------------
// The executable scanner
// ---------------------------------------------------------------------------
fn is_digit_exec(c: char) -> (r: bool)
    ensures
        r == is_digit_char(c),
{
    let u = c as u32;
    48 <= u && u <= 57
}

fn is_alpha_exec(c: char) -> (r: bool)
    ensures
        r == is_alpha_char(c),
{
    let u = c as u32;
    (65 <= u && u <= 90) || (97 <= u && u <= 122)
}

fn is_alnum_exec(c: char) -> (r: bool)
    ensures
        r == is_alnum_char(c),
{
    is_digit_exec(c) || is_alpha_exec(c)
}

/// The characters of a source string, in order.
fn chars_of(s: &str) -> (v: Vec<char>)
    ensures
        v@ == s@,
{
    broadcast use vstd::string::axiom_spec_iter, vstd::string::next_postcondition;

    let mut v: Vec<char> = Vec::new();
    let mut it = s.chars();
    loop
        invariant
            v@ + it.remaining() == s@,
            it.decrease() is Some,
        ensures
            v@ == s@,
        decreases it.decrease()->0,
    {
        match it.next() {
            Some(c) => { v.push(c) },
            None => {
                assert(v@ =~= s@);
                break;
            },
        }
    }
    v
}

/// The scanner: the source characters, the tokens produced so far, the
/// `start`/`current` cursors into the source, the 1-based line counter, and
/// the latched lexical-error flag.
pub struct Scanner {
    source: Vec<char>,
    tokens: Vec<Token>,
    start: usize,
    current: usize,
    line: usize,
    had_error: bool,
}

impl Scanner {
    /// The source characters being scanned.
    pub closed spec fn src(self) -> Seq<char> {
        self.source@
    }

    /// The models of the tokens produced so far.
    pub closed spec fn token_seq(self) -> Seq<TokenModel> {
        crate::token::token_views(self.tokens@)
    }

    /// Whether a lexical error has been recorded.
    pub closed spec fn scan_had_error(self) -> bool {
        self.had_error
    }

    /// A scanner as `new` returns it: nothing scanned yet.
    pub closed spec fn is_fresh(self) -> bool {
        &&& self.tokens@.len() == 0
        &&& self.start == 0
        &&& self.current == 0
        &&& self.line == 1
        &&& !self.had_error
    }

    spec fn wf_scan(self) -> bool {
        &&& self.start <= self.current <= self.source@.len()
        &&& 1 <= self.line <= 1 + self.current
        &&& self.source@.len() < usize::MAX
    }

    pub fn new(source: &str) -> (s: Scanner)
        ensures
            s.src() == source@,
            s.is_fresh(),
    {
        Scanner {
            source: chars_of(source),
            tokens: Vec::new(),
            start: 0,
            current: 0,
            line: 1,
            had_error: false,
        }
    }

    /// How many characters the source holds.
    pub fn source_len(&self) -> (n: usize)
        ensures
            n == self.src().len(),
    {
        self.source.len()
    }

    /// The tokens produced so far.
    pub fn tokens(&self) -> (r: &Vec<Token>)
        ensures
            crate::token::token_views(r@) == self.token_seq(),
    {
        &self.tokens
    }

    /// Whether scanning met a lexical error.
    pub fn had_error(&self) -> (r: bool)
        ensures
            r == self.scan_had_error(),
    {
        self.had_error
    }

    fn is_at_end(&self) -> (r: bool)
        requires
            self.wf_scan(),
        ensures
            r == (self.current == self.src().len()),
    {
        self.current >= self.source.len()
    }

    fn peek(&self) -> (c: char)
        requires
            self.wf_scan(),
        ensures
            c == if self.current < self.src().len() {
                self.src()[self.current as int]
            } else {
                '\0'
            },
    {
        if self.is_at_end() {
            '\0'
        } else {
            self.source[self.current]
        }
    }

    fn peek_next(&self) -> (c: char)
        requires
            self.wf_scan(),
        ensures
            c == if self.current + 1 < self.src().len() {
                self.src()[self.current + 1]
            } else {
                '\0'
            },
    {
        if self.current + 1 >= self.source.len() {
            '\0'
        } else {
            self.source[self.current + 1]
        }
    }

    fn advance(&mut self) -> (c: char)
        requires
            old(self).wf_scan(),
            old(self).current < old(self).src().len(),
        ensures
            final (self).wf_scan(),
            c == old(self).src()[old(self).current as int],
            final (self).current == old(self).current + 1,
            final (self).source == old(self).source,
            final (self).tokens == old(self).tokens,
            final (self).start == old(self).start,
            final (self).line == old(self).line,
            final (self).had_error == old(self).had_error,
    {
        let c = self.source[self.current];
        self.current += 1;
        c
    }

    fn match_char(&mut self, expected: char) -> (r: bool)
        requires
            old(self).wf_scan(),
        ensures
            final (self).wf_scan(),
            r == (old(self).current < old(self).src().len() && old(self).src()[old(
                self,
            ).current as int] == expected),
            final (self).current == old(self).current + (if r {
                1int
            } else {
                0int
            }),
            final (self).source == old(self).source,
            final (self).tokens == old(self).tokens,
            final (self).start == old(self).start,
            final (self).line == old(self).line,
            final (self).had_error == old(self).had_error,
    {
        if self.is_at_end() || self.peek() != expected {
            return false;
        }
        self.current += 1;
        true
    }

    /// The source text between two positions, as an owned string.
    fn lexeme_of(&self, from: usize, to: usize) -> (s: String)
        requires
            from <= to <= self.src().len(),
        ensures
            s@ == self.src().subrange(from as int, to as int),
    {
        let mut s = String::new();
        let mut k = from;
        assert(s@ =~= self.src().subrange(from as int, from as int));
        while k < to
            invariant
                from <= k <= to <= self.src().len(),
                s@ == self.src().subrange(from as int, k as int),
            decreases to - k,
        {
            s.push(self.source[k]);
            k += 1;
            assert(s@ =~= self.src().subrange(from as int, k as int));
        }
        s
    }

    /// Emit one token: the kind, the source span `start..current` as its
    /// lexeme, and the line the scanner stands on.
    fn add_token(&mut self, kind: TokenKind)
        requires
            old(self).wf_scan(),
        ensures
            final (self).wf_scan(),
            crate::token::token_views(final (self).tokens@) == crate::token::token_views(
                old(self).tokens@,
            ).push(
                spec_token(
                    kind,
                    old(self).src(),
                    old(self).start as int,
                    old(self).current as int,
                    old(self).line as nat,
                ),
            ),
            final (self).source == old(self).source,
            final (self).start == old(self).start,
            final (self).current == old(self).current,
            final (self).line == old(self).line,
            final (self).had_error == old(self).had_error,
    {
        broadcast use crate::token::lemma_token_views_push;

        let lexeme = self.lexeme_of(self.start, self.current);
        let line = self.line;
        self.tokens.push(Token::new(kind, lexeme, line));
    }

    /// Consume a string literal's body and closing quote; the opening quote
    /// is already consumed.  Reports whether the closing quote was found
    /// before the end of input, and advances the line counter over embedded
    /// newlines.
    fn consume_str(&mut self) -> (terminated: bool)
        requires
            old(self).wf_scan(),
        ensures
            final (self).wf_scan(),
            final (self).source == old(self).source,
            final (self).tokens == old(self).tokens,
            final (self).start == old(self).start,
            final (self).had_error == old(self).had_error,
            ({
                let j = string_body_end(old(self).src(), old(self).current as int);
                &&& terminated == (j < old(self).src().len())
                &&& final (self).current as int == (if j < old(self).src().len() {
                    j + 1
                } else {
                    j
                })
                &&& final (self).line as nat == old(self).line as nat + newline_count(
                    old(self).src(),
                    old(self).current as int,
                    j,
                )
            }),
    {
        let ghost src = self.source@;
        let ghost c0 = self.current as int;
        let ghost l0 = self.line as int;
        proof {
            lemma_string_body_end_bounds(src, c0);
        }
        let ghost j = string_body_end(src, c0);
        while self.peek() != '"' && !self.is_at_end()
            invariant
                self.wf_scan(),
                self.source == old(self).source,
                self.source@ == src,
                self.tokens == old(self).tokens,
                self.start == old(self).start,
                self.had_error == old(self).had_error,
                c0 <= self.current as int <= j <= src.len(),
                string_body_end(src, self.current as int) == j,
                self.line as int == l0 + newline_count(src, c0, self.current as int),
                1 <= l0 <= 1 + c0,
            decreases src.len() - self.current,
        {
            proof {
                lemma_string_body_end_bounds(src, self.current as int + 1);
            }
            let c = self.advance();
            if c == '\n' {
                self.line += 1;
            }
            proof {
                lemma_newline_count_snoc(src, c0, self.current as int - 1);
            }
        }
        if self.is_at_end() {
            return false;
        }
        self.advance();
        true
    }

    /// Consume the rest of a number: the digit run, then at most one dot
    /// followed by at least one digit and its digit run.  The first digit is
    /// already consumed.
    fn consume_num(&mut self)
        requires
            old(self).wf_scan(),
            old(self).current >= 1,
            is_digit_char(old(self).src()[old(self).current - 1]),
        ensures
            final (self).wf_scan(),
            final (self).source == old(self).source,
            final (self).tokens == old(self).tokens,
            final (self).start == old(self).start,
            final (self).line == old(self).line,
            final (self).had_error == old(self).had_error,
            final (self).current as int == number_end(old(self).src(), old(self).current - 1),
    {
        let ghost src = self.source@;
        let ghost s0 = self.current as int - 1;
        proof {
            lemma_digits_end_bounds(src, self.current as int);
        }
        let ghost d1 = digits_end(src, self.current as int);
        while is_digit_exec(self.peek())
            invariant
                self.wf_scan(),
                self.source == old(self).source,
                self.source@ == src,
                self.tokens == old(self).tokens,
                self.start == old(self).start,
                self.line == old(self).line,
                self.had_error == old(self).had_error,
                self.current as int <= d1 <= src.len(),
                digits_end(src, self.current as int) == d1,
            decreases src.len() - self.current,
        {
            proof {
                lemma_digits_end_bounds(src, self.current as int + 1);
            }
            self.advance();
        }
        assert(self.current as int == d1);
        if self.peek() == '.' && is_digit_exec(self.peek_next()) {
            self.advance();
            proof {
                lemma_digits_end_bounds(src, self.current as int);
            }
            let ghost d2 = digits_end(src, self.current as int);
            while is_digit_exec(self.peek())
                invariant
                    self.wf_scan(),
                    self.source == old(self).source,
                    self.source@ == src,
                    self.tokens == old(self).tokens,
                    self.start == old(self).start,
                    self.line == old(self).line,
                    self.had_error == old(self).had_error,
                    self.current as int <= d2 <= src.len(),
                    digits_end(src, self.current as int) == d2,
                decreases src.len() - self.current,
            {
                proof {
                    lemma_digits_end_bounds(src, self.current as int + 1);
                }
                self.advance();
            }
        }
    }

    /// Consume the rest of an identifier or keyword (the first letter is
    /// already consumed) and classify its spelling.
    fn consume_identifier(&mut self) -> (k: TokenKind)
        requires
            old(self).wf_scan(),
            old(self).current >= 1,
            old(self).start == old(self).current - 1,
            is_alpha_char(old(self).src()[old(self).current - 1]),
        ensures
            final (self).wf_scan(),
            final (self).source == old(self).source,
            final (self).tokens == old(self).tokens,
            final (self).start == old(self).start,
            final (self).line == old(self).line,
            final (self).had_error == old(self).had_error,
            final (self).current as int == alnum_end(old(self).src(), old(self).current - 1),
            k == spec_keyword_kind(
                old(self).src().subrange(
                    old(self).current - 1,
                    alnum_end(old(self).src(), old(self).current - 1),
                ),
            ),
    {
        let ghost src = self.source@;
        let ghost s0 = self.current as int - 1;
        proof {
            lemma_alnum_end_bounds(src, self.current as int);
        }
        let ghost e = alnum_end(src, self.current as int);
        while is_alnum_exec(self.peek())
            invariant
                self.wf_scan(),
                self.source == old(self).source,
                self.source@ == src,
                self.tokens == old(self).tokens,
                self.start == old(self).start,
                self.line == old(self).line,
                self.had_error == old(self).had_error,
                self.current as int <= e <= src.len(),
                alnum_end(src, self.current as int) == e,
            decreases src.len() - self.current,
        {
            proof {
                lemma_alnum_end_bounds(src, self.current as int + 1);
            }
            self.advance();
        }
        let lexeme = self.lexeme_of(self.start, self.current);
        self.get_keyword_tokentype(&lexeme)
    }

    /// The reserved-word table: an exact, full-lexeme match yields the
    /// keyword kind, any other spelling an identifier.
    pub fn get_keyword_tokentype(&self, raw: &String) -> (k: TokenKind)
        ensures
            k == spec_keyword_kind(raw@),
    {
        if *raw == String::from_str("and") {
            TokenKind::And
        } else if *raw == String::from_str("class") {
            TokenKind::Class
        } else if *raw == String::from_str("else") {
            TokenKind::Else
        } else if *raw == String::from_str("false") {
            TokenKind::False
        } else if *raw == String::from_str("for") {
            TokenKind::For
        } else if *raw == String::from_str("fun") {
            TokenKind::Fun
        } else if *raw == String::from_str("if") {
            TokenKind::If
        } else if *raw == String::from_str("nil") {
            TokenKind::Nil
        } else if *raw == String::from_str("or") {
            TokenKind::Or
        } else if *raw == String::from_str("print") {
            TokenKind::Print
        } else if *raw == String::from_str("return") {
            TokenKind::Return
        } else if *raw == String::from_str("super") {
            TokenKind::Super
        } else if *raw == String::from_str("this") {
            TokenKind::This
        } else if *raw == String::from_str("true") {
            TokenKind::True
        } else if *raw == String::from_str("var") {
            TokenKind::Var
        } else if *raw == String::from_str("while") {
            TokenKind::While
        } else {
            TokenKind::Identifier
        }
    }

    /// Scan one lexeme: classify the character at `current` (which `start`
    /// also points at), consume it and whatever belongs to it, and emit its
    /// token, unless it is whitespace or a comment.
    fn scan_token(&mut self)
        requires
            old(self).wf_scan(),
            old(self).current < old(self).src().len(),
            old(self).start == old(self).current,
        ensures
            final (self).wf_scan(),
            final (self).source == old(self).source,
            ({
                let st = scan_step(old(self).src(), old(self).current as int, old(self).line as nat);
                &&& final (self).current as int == st.next
                &&& final (self).line as nat == st.line
                &&& crate::token::token_views(final (self).tokens@) == (match st.token {
                    Some(t) => crate::token::token_views(old(self).tokens@).push(t),
                    None => crate::token::token_views(old(self).tokens@),
                })
                &&& final (self).had_error == (old(self).had_error || (match st.token {
                    Some(t) => t.kind is Error,
                    None => false,
                }))
            }),
    {
        broadcast use crate::token::lemma_token_views_push;

        let ghost src = self.source@;
        let ghost i = self.current as int;
        let c = self.advance();
        if c == '(' {
            self.add_token(TokenKind::LeftParen);
        } else if c == ')' {
            self.add_token(TokenKind::RightParen);
        } else if c == '{' {
            self.add_token(TokenKind::LeftBrace);
        } else if c == '}' {
            self.add_token(TokenKind::RightBrace);
        } else if c == ',' {
            self.add_token(TokenKind::Comma);
        } else if c == '.' {
            self.add_token(TokenKind::Dot);
        } else if c == '-' {
            self.add_token(TokenKind::Minus);
        } else if c == '+' {
            self.add_token(TokenKind::Plus);
        } else if c == ';' {
            self.add_token(TokenKind::SemiColon);
        } else if c == '*' {
            self.add_token(TokenKind::Star);
        } else if c == '!' {
            let k = if self.match_char('=') {
                TokenKind::BangEqual
            } else {
                TokenKind::Bang
            };
            self.add_token(k);
        } else if c == '=' {
            let k = if self.match_char('=') {
                TokenKind::EqualEqual
            } else {
                TokenKind::Equal
            };
            self.add_token(k);
        } else if c == '<' {
            let k = if self.match_char('=') {
                TokenKind::LessEqual
            } else {
                TokenKind::Less
            };
            self.add_token(k);
        } else if c == '>' {
            let k = if self.match_char('=') {
                TokenKind::GreaterEqual
            } else {
                TokenKind::Greater
            };
            self.add_token(k);
        } else if c == '/' {
            if self.match_char('/') {
                // A comment runs to the end of the line and is discarded;
                // the newline itself is not consumed here.
                proof {
                    lemma_comment_end_bounds(src, self.current as int);
                }
                let ghost j = comment_end(src, self.current as int);
                while self.peek() != '\n' && !self.is_at_end()
                    invariant
                        self.wf_scan(),
                        self.source == old(self).source,
                        self.source@ == src,
                        self.tokens == old(self).tokens,
                        self.start == old(self).start,
                        self.line == old(self).line,
                        self.had_error == old(self).had_error,
                        self.current as int <= j <= src.len(),
                        comment_end(src, self.current as int) == j,
                    decreases src.len() - self.current,
                {
                    proof {
                        lemma_comment_end_bounds(src, self.current as int + 1);
                    }
                    self.advance();
                }
            } else {
                self.add_token(TokenKind::Slash);
            }
        } else if c == ' ' || c == '\r' || c == '\t' {
            // Whitespace: discarded.
        } else if c == '\n' {
            self.line += 1;
        } else if c == '"' {
            proof {
                lemma_string_body_end_bounds(src, i + 1);
            }
            let terminated = self.consume_str();
            if terminated {
                let lexeme = self.lexeme_of(self.start + 1, self.current - 1);
                let line = self.line;
                self.tokens.push(Token::new(TokenKind::StringLit, lexeme, line));
            } else {
                // Unterminated string: one Error token, and scanning goes on.
                let lexeme = self.lexeme_of(self.start, self.current);
                let line = self.line;
                self.tokens.push(Token::new(TokenKind::Error, lexeme, line));
                self.had_error = true;
            }
        } else if is_digit_exec(c) {
            self.consume_num();
            self.add_token(TokenKind::Number);
        } else if is_alpha_exec(c) {
            let k = self.consume_identifier();
            self.add_token(k);
        } else {
            // An unexpected character: one Error token, and scanning goes on.
            self.add_token(TokenKind::Error);
            self.had_error = true;
        }
    }

    /// Scan the whole source: the token sequence is exactly [`spec_scan`] of
    /// the source characters, and the error flag reports whether any token
    /// in it is an `Error` token.
    ///
    /// The length bound is a machine limit: the line counter is a `usize`.
    pub fn scan_tokens(&mut self)
        requires
            old(self).is_fresh(),
            old(self).src().len() < usize::MAX,
        ensures
            final (self).src() == old(self).src(),
            final (self).token_seq() == spec_scan(old(self).src()),
            final (self).scan_had_error() == has_error_token(spec_scan(old(self).src())),
    {
        let ghost src = self.source@;
        while !self.is_at_end()
            invariant
                self.wf_scan(),
                self.source == old(self).source,
                self.source@ == src,
                crate::token::token_views(self.tokens@) + spec_scan_from(
                    src,
                    self.current as int,
                    self.line as nat,
                ) == spec_scan(src),
                self.had_error == has_error_token(crate::token::token_views(self.tokens@)),
            decreases src.len() - self.current,
        {
            self.start = self.current;
            let ghost pre = self.tokens@;
            let ghost cur = self.current as int;
            let ghost line = self.line as nat;
            proof {
                lemma_scan_step_bounds(src, cur, line);
            }
            self.scan_token();
            proof {
                let st = scan_step(src, cur, line);
                match st.token {
                    Some(t) => {
                        lemma_has_error_push(crate::token::token_views(pre), t);
                        assert(crate::token::token_views(pre).push(t) + spec_scan_from(
                            src,
                            st.next,
                            st.line,
                        ) =~= crate::token::token_views(pre) + (seq![t] + spec_scan_from(
                            src,
                            st.next,
                            st.line,
                        )));
                    },
                    None => {},
                }
            }
        }
        let line = self.line;
        let ghost pre = self.tokens@;
        self.tokens.push(Token::new(TokenKind::Eof, String::new(), line));
        proof {
            broadcast use crate::token::lemma_token_views_push;

            reveal_strlit("");
            lemma_has_error_push(crate::token::token_views(pre), eof_token(line as nat));
            assert(crate::token::token_views(pre).push(eof_token(line as nat))
                =~= crate::token::token_views(pre) + seq![eof_token(line as nat)]);
        }
    }
}

} // verus!
