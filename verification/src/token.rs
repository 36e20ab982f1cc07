//! Tokens: a classified, positioned unit of source text (kind + lexeme + line).

use vstd::prelude::*;
use vstd::string::StringExecFns;

verus! {

/// The closed set of token classifications.
///
/// `Comment` and `Whitespace` are intermediate classifications used while
/// scanning; they never appear in the emitted token stream.  `Error` marks a
/// piece of source the scanner could not classify (an unexpected character or
/// an unterminated string literal).
#[derive(Debug, Clone, Copy, PartialEq, Eq, Structural)]
pub enum TokenKind {
    // Single-character punctuation
    LeftParen,
    RightParen,
    LeftBrace,
    RightBrace,
    Comma,
    Dot,
    Minus,
    Plus,
    SemiColon,
    Slash,
    Star,
    // One- or two-character operators
    Bang,
    BangEqual,
    Equal,
    EqualEqual,
    Greater,
    GreaterEqual,
    Less,
    LessEqual,
    // Literals; the text or digits live in the token's lexeme
    Identifier,
    StringLit,
    Number,
    // Reserved keywords
    And,
    Class,
    Else,
    False,
    Fun,
    For,
    If,
    Nil,
    Or,
    Print,
    Return,
    Super,
    This,
    True,
    Var,
    While,
    // Scanner-internal classifications, never emitted
    Comment,
    Whitespace,
    // Sentinels
    Eof,
    Error,
}

/// The mathematical value of a [`Token`]: its kind, the exact characters of
/// its lexeme, and its 1-based source line.
pub struct TokenModel {
    pub kind: TokenKind,
    pub lexeme: Seq<char>,
    pub line: nat,
}

/// A classified, positioned unit of source text.
///
/// The lexeme is the exact source substring the token was built from, with
/// one exception: for a string literal it is the text between the quotes,
/// without the quote characters themselves.
#[derive(Debug, Clone, PartialEq)]
pub struct Token {
    pub kind: TokenKind,
    pub lexeme: String,
    pub line: usize,
}

impl View for Token {
    type V = TokenModel;

    open spec fn view(&self) -> TokenModel {
        TokenModel { kind: self.kind, lexeme: self.lexeme@, line: self.line as nat }
    }
}

/// The models of a token sequence, element by element.
pub open spec fn token_views(ts: Seq<Token>) -> Seq<TokenModel> {
    ts.map_values(|t: Token| t@)
}

pub broadcast proof fn lemma_token_views_push(ts: Seq<Token>, t: Token)
    ensures
        #[trigger] token_views(ts.push(t)) == token_views(ts).push(t@),
{
    assert(token_views(ts.push(t)) =~= token_views(ts).push(t@));
}

/// Relies on String::push: appends the one character to the end of the
/// string.
pub assume_specification[ String::push ](s: &mut String, c: char)
    ensures
        final (s)@ == old(s)@.push(c),
;

/// The printed name of a token kind.
pub open spec fn spec_kind_name(kind: TokenKind) -> Seq<char> {
    match kind {
        TokenKind::LeftParen => "LeftParen"@,
        TokenKind::RightParen => "RightParen"@,
        TokenKind::LeftBrace => "LeftBrace"@,
        TokenKind::RightBrace => "RightBrace"@,
        TokenKind::Comma => "Comma"@,
        TokenKind::Dot => "Dot"@,
        TokenKind::Minus => "Minus"@,
        TokenKind::Plus => "Plus"@,
        TokenKind::SemiColon => "SemiColon"@,
        TokenKind::Slash => "Slash"@,
        TokenKind::Star => "Star"@,
        TokenKind::Bang => "Bang"@,
        TokenKind::BangEqual => "BangEqual"@,
        TokenKind::Equal => "Equal"@,
        TokenKind::EqualEqual => "EqualEqual"@,
        TokenKind::Greater => "Greater"@,
        TokenKind::GreaterEqual => "GreaterEqual"@,
        TokenKind::Less => "Less"@,
        TokenKind::LessEqual => "LessEqual"@,
        TokenKind::Identifier => "Identifier"@,
        TokenKind::StringLit => "StringLit"@,
        TokenKind::Number => "Number"@,
        TokenKind::And => "And"@,
        TokenKind::Class => "Class"@,
        TokenKind::Else => "Else"@,
        TokenKind::False => "False"@,
        TokenKind::Fun => "Fun"@,
        TokenKind::For => "For"@,
        TokenKind::If => "If"@,
        TokenKind::Nil => "Nil"@,
        TokenKind::Or => "Or"@,
        TokenKind::Print => "Print"@,
        TokenKind::Return => "Return"@,
        TokenKind::Super => "Super"@,
        TokenKind::This => "This"@,
        TokenKind::True => "True"@,
        TokenKind::Var => "Var"@,
        TokenKind::While => "While"@,
        TokenKind::Comment => "Comment"@,
        TokenKind::Whitespace => "Whitespace"@,
        TokenKind::Eof => "Eof"@,
        TokenKind::Error => "Error"@,
    }
}

pub fn kind_name(kind: TokenKind) -> (r: &'static str)
    ensures
        r@ == spec_kind_name(kind),
{
    match kind {
        TokenKind::LeftParen => "LeftParen",
        TokenKind::RightParen => "RightParen",
        TokenKind::LeftBrace => "LeftBrace",
        TokenKind::RightBrace => "RightBrace",
        TokenKind::Comma => "Comma",
        TokenKind::Dot => "Dot",
        TokenKind::Minus => "Minus",
        TokenKind::Plus => "Plus",
        TokenKind::SemiColon => "SemiColon",
        TokenKind::Slash => "Slash",
        TokenKind::Star => "Star",
        TokenKind::Bang => "Bang",
        TokenKind::BangEqual => "BangEqual",
        TokenKind::Equal => "Equal",
        TokenKind::EqualEqual => "EqualEqual",
        TokenKind::Greater => "Greater",
        TokenKind::GreaterEqual => "GreaterEqual",
        TokenKind::Less => "Less",
        TokenKind::LessEqual => "LessEqual",
        TokenKind::Identifier => "Identifier",
        TokenKind::StringLit => "StringLit",
        TokenKind::Number => "Number",
        TokenKind::And => "And",
        TokenKind::Class => "Class",
        TokenKind::Else => "Else",
        TokenKind::False => "False",
        TokenKind::Fun => "Fun",
        TokenKind::For => "For",
        TokenKind::If => "If",
        TokenKind::Nil => "Nil",
        TokenKind::Or => "Or",
        TokenKind::Print => "Print",
        TokenKind::Return => "Return",
        TokenKind::Super => "Super",
        TokenKind::This => "This",
        TokenKind::True => "True",
        TokenKind::Var => "Var",
        TokenKind::While => "While",
        TokenKind::Comment => "Comment",
        TokenKind::Whitespace => "Whitespace",
        TokenKind::Eof => "Eof",
        TokenKind::Error => "Error",
    }
}

/// `n` space characters.
pub open spec fn spec_spaces(n: nat) -> Seq<char> {
    Seq::new(n, |i: int| ' ')
}

/// An indentation string of `n` spaces.
pub fn spaces(n: usize) -> (s: String)
    ensures
        s@ == spec_spaces(n as nat),
{
    let mut s = String::new();
    let mut k: usize = 0;
    while k < n
        invariant
            k <= n,
            s@.len() == k as nat,
            forall|i: int| 0 <= i < k ==> s@[i] == ' ',
        decreases n - k,
    {
        s.push(' ');
        k += 1;
    }
    assert(s@ =~= spec_spaces(n as nat));
    s
}

/// Adding to an indentation width, stopped at the machine limit so that the
/// printer is total.
pub open spec fn spec_bump(i: nat, k: nat) -> nat {
    if i + k <= usize::MAX {
        i + k
    } else {
        usize::MAX as nat
    }
}

pub fn bump(i: usize, k: usize) -> (r: usize)
    ensures
        r as nat == spec_bump(i as nat, k as nat),
{
    if i <= usize::MAX - k {
        i + k
    } else {
        usize::MAX
    }
}

/// The rendering of a token inside the printed tree: its kind's name, then
/// its lexeme on a line of its own, indented by `indent`.
pub open spec fn spec_token_string(t: TokenModel, indent: nat) -> Seq<char> {
    "Token: "@ + spec_kind_name(t.kind) + "\n"@ + spec_spaces(indent) + "Lexeme: "@ + t.lexeme
        + "\n"@
}

impl Token {
    pub fn new(kind: TokenKind, lexeme: String, line: usize) -> (t: Token)
        ensures
            t@ == (TokenModel { kind, lexeme: lexeme@, line: line as nat }),
    {
        Token { kind, lexeme, line }
    }

    /// An explicit copy; the result is equal to `self` in every contract.
    pub fn duplicate(&self) -> (t: Token)
        ensures
            t == *self,
    {
        Token { kind: self.kind, lexeme: self.lexeme.clone(), line: self.line }
    }

    /// The token's rendering inside the printed tree.
    pub fn to_string(&self, indent: usize) -> (r: String)
        ensures
            r@ == spec_token_string(self@, indent as nat),
    {
        let mut r = String::from_str("Token: ");
        r.append(kind_name(self.kind));
        r.append("\n");
        let sp = spaces(indent);
        r.append(sp.as_str());
        r.append("Lexeme: ");
        r.append(self.lexeme.as_str());
        r.append("\n");
        r
    }
}

} // verus!
