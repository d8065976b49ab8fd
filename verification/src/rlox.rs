//! How errors are worded for the user.

use vstd::prelude::*;
use vstd::string::StringExecFns;
use crate::error::RuntimeError;
use crate::token::{Token, TokenKind};

verus! {

/// The character of a decimal digit.
pub open spec fn digit(d: nat) -> char {
    if d == 0 {
        '0'
    } else if d == 1 {
        '1'
    } else if d == 2 {
        '2'
    } else if d == 3 {
        '3'
    } else if d == 4 {
        '4'
    } else if d == 5 {
        '5'
    } else if d == 6 {
        '6'
    } else if d == 7 {
        '7'
    } else if d == 8 {
        '8'
    } else {
        '9'
    }
}

/// A natural number in decimal, without leading zeros.
pub open spec fn decimal(n: nat) -> Seq<char>
    decreases n,
{
    if n < 10 {
        seq![digit(n)]
    } else {
        decimal(n / 10).push(digit(n % 10))
    }
}

/// `[line N] Error L : M`, for the line `N`, the location `L` and the
/// message `M`.
pub open spec fn report_text(line: nat, location: Seq<char>, message: Seq<char>) -> Seq<char> {
    "[line "@ + decimal(line) + "] Error "@ + location + " : "@ + message
}

/// Where a token is, in words: ` at end` for the end token, and the lexeme
/// in quotes for another.
pub open spec fn location(token: Token) -> Seq<char> {
    if token.kind == TokenKind::Eof {
        " at end"@
    } else {
        " at '"@ + token.lexeme@ + "'"@
    }
}

/// A runtime error in words: its message and, on a line of its own, the
/// line of the token at fault, if there is one.
pub open spec fn runtime_text(message: Seq<char>, token: Option<Token>) -> Seq<char> {
    match token {
        Some(token) => message + "\n[line "@ + decimal(token.line as nat) + "]"@,
        None => message,
    }
}

fn digit_of(d: usize) -> (c: char)
    requires
        d < 10,
    ensures
        c == digit(d as nat),
{
    if d == 0 {
        '0'
    } else if d == 1 {
        '1'
    } else if d == 2 {
        '2'
    } else if d == 3 {
        '3'
    } else if d == 4 {
        '4'
    } else if d == 5 {
        '5'
    } else if d == 6 {
        '6'
    } else if d == 7 {
        '7'
    } else if d == 8 {
        '8'
    } else {
        '9'
    }
}

/// Writes a number in decimal.
pub fn to_decimal(n: usize) -> (text: String)
    ensures
        text@ == decimal(n as nat),
    decreases n,
{
    if n < 10 {
        let mut text = String::new();
        text.push(digit_of(n));
        assert(text@ =~= seq![digit(n as nat)]);
        text
    } else {
        let mut text = to_decimal(n / 10);
        text.push(digit_of(n % 10));
        text
    }
}

/// Words a syntax error found at `token`.
pub fn error_token(token: &Token, message: &str) -> (text: String)
    ensures
        text@ == report_text(token.line as nat, location(*token), message@),
{
    if token.kind == TokenKind::Eof {
        report(token.line, " at end", message)
    } else {
        let mut place = String::from_str(" at '");
        place.append(token.lexeme.as_str());
        place.append("'");
        report(token.line, place.as_str(), message)
    }
}

/// Words an error found on `line`.
pub fn error_line(line: usize, message: &str) -> (text: String)
    ensures
        text@ == report_text(line as nat, Seq::empty(), message@),
{
    let text = report(line, "", message);
    proof {
        reveal_strlit("");
        assert(""@ =~= Seq::<char>::empty());
    }
    text
}

/// Words an error: the line, where on it, and what is wrong.
pub fn report(line: usize, location: &str, message: &str) -> (text: String)
    ensures
        text@ == report_text(line as nat, location@, message@),
{
    let mut text = String::from_str("[line ");
    text.append(to_decimal(line).as_str());
    text.append("] Error ");
    text.append(location);
    text.append(" : ");
    text.append(message);
    text
}

/// Words a runtime error.
pub fn error_runtime(error: &RuntimeError) -> (text: String)
    ensures
        text@ == runtime_text(error.message@, error.token),
{
    let mut text = error.message.clone();
    match &error.token {
        Some(token) => {
            text.append("\n[line ");
            text.append(to_decimal(token.line).as_str());
            text.append("]");
        },
        None => {},
    }
    text
}

} // verus!
