//! The error-reporting collaborator: it formats every diagnostic as
//! `[line N] Error<where>: <message>` and latches a had-error flag that the
//! driver consults.  Printing the formatted line, and the driver loop
//! itself, live outside the library.

use vstd::prelude::*;
use vstd::string::StringExecFns;

use crate::token::{Token, TokenKind, TokenModel};

verus! {

/// The decimal digit `d` as a character.
pub open spec fn digit_char(d: nat) -> char
    recommends
        d < 10,
{
    ((48 + d) as u8) as char
}

/// The decimal digits of `n`, most significant first, with no sign and no
/// leading zero (except for `0` itself).
pub open spec fn spec_decimal(n: nat) -> Seq<char>
    decreases n,
{
    if n < 10 {
        seq![digit_char(n)]
    } else {
        spec_decimal(n / 10).push(digit_char(n % 10))
    }
}

/// Append the decimal rendering of `n`.
fn push_decimal(s: &mut String, n: usize)
    ensures
        final (s)@ == old(s)@ + spec_decimal(n as nat),
    decreases n,
{
    if n >= 10 {
        push_decimal(s, n / 10);
    }
    let ghost mid = s@;
    let d: u8 = (n % 10) as u8;
    s.push((48 + d) as char);
    proof {
        if n < 10 {
            assert(s@ =~= old(s)@ + spec_decimal(n as nat));
        } else {
            assert(s@ =~= old(s)@ + spec_decimal(n as nat));
        }
    }
}

/// The diagnostic line for a line number, a location phrase and a message.
pub open spec fn spec_report_message(line: nat, where_part: Seq<char>, message: Seq<char>) -> Seq<
    char,
> {
    "[line "@ + spec_decimal(line) + "] Error"@ + where_part + ": "@ + message
}

/// The location phrase of a token-located error: `" at end"` for the `Eof`
/// token, otherwise `" at '<lexeme>'"`.
pub open spec fn spec_error_location(t: TokenModel) -> Seq<char> {
    if t.kind is Eof {
        " at end"@
    } else {
        " at '"@ + t.lexeme + "'"@
    }
}

/// The diagnostic line for an error at a token.
pub open spec fn spec_error_message(t: TokenModel, message: Seq<char>) -> Seq<char> {
    spec_report_message(t.line, spec_error_location(t), message)
}

/// The shared error sink: one latched had-error flag.
pub struct Lox {
    had_error: bool,
}

impl Lox {
    /// Whether any error has been reported through this sink.
    pub closed spec fn spec_had_error(self) -> bool {
        self.had_error
    }

    pub fn new() -> (l: Lox)
        ensures
            !l.spec_had_error(),
    {
        Lox { had_error: false }
    }

    pub fn had_error(&self) -> (r: bool)
        ensures
            r == self.spec_had_error(),
    {
        self.had_error
    }

    /// Report an error at a token: latch the flag and hand back the
    /// formatted diagnostic line, locating the error "at end" for the `Eof`
    /// token and at the token's lexeme otherwise.
    pub fn error(&mut self, token: Token, message: &str) -> (r: String)
        ensures
            final (self).spec_had_error(),
            r@ == spec_error_message(token@, message@),
    {
        if token.kind == TokenKind::Eof {
            self.report(token.line, " at end", message)
        } else {
            let mut w = String::from_str(" at '");
            w.append(token.lexeme.as_str());
            w.append("'");
            self.report(token.line, w.as_str(), message)
        }
    }

    /// Latch the flag and hand back the formatted diagnostic line.
    pub fn report(&mut self, line: usize, where_part: &str, message: &str) -> (r: String)
        ensures
            final (self).spec_had_error(),
            r@ == spec_report_message(line as nat, where_part@, message@),
    {
        self.had_error = true;
        let mut r = String::from_str("[line ");
        push_decimal(&mut r, line);
        r.append("] Error");
        r.append(where_part);
        r.append(": ");
        r.append(message);
        r
    }
}

} // verus!
