use rlox::error::RuntimeError;
use rlox::rlox::{error_line, error_runtime, error_token, report, to_decimal};
use rlox::token::{Literal, Token, TokenKind};

fn token(kind: TokenKind, lexeme: &str, line: usize) -> Token {
    Token { kind, lexeme: lexeme.to_string(), literal: Literal::Nil, line }
}

#[test]
fn numbers_in_decimal() {
    assert_eq!(to_decimal(0), "0");
    assert_eq!(to_decimal(7), "7");
    assert_eq!(to_decimal(10), "10");
    assert_eq!(to_decimal(1234567890), "1234567890");
    assert_eq!(to_decimal(usize::MAX), usize::MAX.to_string());
}

#[test]
fn a_report_names_line_location_and_message() {
    assert_eq!(report(3, " at 'x'", "Expect expression."), "[line 3] Error  at 'x' : Expect expression.");
    assert_eq!(report(12, "", "Unexpected character"), "[line 12] Error  : Unexpected character");
}

#[test]
fn an_error_at_a_token_quotes_its_lexeme() {
    let plus = token(TokenKind::Plus, "+", 4);
    assert_eq!(error_token(&plus, "Expect expression."), "[line 4] Error  at '+' : Expect expression.");
}

#[test]
fn an_error_at_the_end_token_says_so() {
    let end = token(TokenKind::Eof, "", 9);
    assert_eq!(
        error_token(&end, "Expect ';' after expression."),
        "[line 9] Error  at end : Expect ';' after expression."
    );
}

#[test]
fn an_error_on_a_line_has_no_location() {
    assert_eq!(error_line(2, "Unterminated string."), "[line 2] Error  : Unterminated string.");
}

#[test]
fn a_runtime_error_with_and_without_a_token() {
    let with = RuntimeError::new("Operand must be a number".to_string(), Some(token(TokenKind::Minus, "-", 5)));
    assert_eq!(error_runtime(&with), "Operand must be a number\n[line 5]");
    let without = RuntimeError::new("Failed to write output".to_string(), None);
    assert_eq!(error_runtime(&without), "Failed to write output");
}
