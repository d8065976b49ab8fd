use rlox::expr::{Expr, Literal, LiteralBool, Piece};
use rlox::token::{self, Token, TokenKind};

struct TestCase<I, E> {
    input: I,
    expected: E,
}

fn operator(value: &str) -> Token {
    let kind = match value {
        "+" => TokenKind::Plus,
        "*" => TokenKind::Star,
        "-" => TokenKind::Minus,
        "/" => TokenKind::Slash,
        _ => panic!("{} not a valid token value", value),
    };
    Token { literal: token::Literal::String(value.to_string()), kind, lexeme: value.to_string(), line: 1 }
}

fn number(value: f64) -> Expr {
    Expr::literal(Literal::Number(value.to_bits()))
}

fn string(value: &str) -> Expr {
    Expr::literal(Literal::String(value.to_string()))
}

fn join(pieces: &[Piece]) -> String {
    let mut text = String::new();
    for piece in pieces {
        match piece {
            Piece::Text(words) => text.push_str(words),
            Piece::Number(bits) => text.push_str(&format!("{}", f64::from_bits(*bits))),
        }
    }
    text
}

#[test]
fn test_expr_display() {
    let test_cases = vec![
        TestCase { input: Expr::unary(operator("-"), number(456.0)), expected: "(- 456)" },
        TestCase {
            input: Expr::grouping(Expr::binary(number(456f64), operator("*"), number(789f64))),
            expected: "(group (* 456 789))",
        },
        TestCase { input: string("hello"), expected: "\"hello\"" },
        TestCase {
            input: Expr::binary(
                Expr::unary(operator("-"), number(123f64)),
                operator("*"),
                Expr::grouping(number(45.67)),
            ),
            expected: "(* (- 123) (group 45.67))",
        },
    ];

    for case in test_cases {
        assert_eq!(join(&case.input.pieces()), case.expected);
    }
}

#[test]
fn literals_as_they_are_written() {
    assert_eq!(join(&Expr::literal(Literal::Nil).pieces()), "nil");
    assert_eq!(join(&Expr::literal(Literal::Boolean(LiteralBool::True)).pieces()), "true");
    assert_eq!(join(&Expr::literal(Literal::Boolean(LiteralBool::False)).pieces()), "false");
    assert_eq!(join(&Expr::literal(Literal::Identifier("x".to_string())).pieces()), "x");
    assert_eq!(join(&string("").pieces()), "\"\"");
    assert_eq!(join(&number(0.5).pieces()), "0.5");
}

#[test]
fn a_number_is_a_piece_of_its_own() {
    let pieces = number(2.0).pieces();
    assert_eq!(pieces.len(), 1);
    assert!(matches!(pieces[0], Piece::Number(bits) if bits == 2f64.to_bits()));
}

#[test]
fn what_print_writes_has_no_quotes() {
    assert!(matches!(Literal::String("hi".to_string()).printable(), Piece::Text(ref s) if s == "hi"));
    assert!(matches!(Literal::Nil.printable(), Piece::Text(ref s) if s == "nil"));
    assert!(matches!(Literal::Boolean(LiteralBool::True).printable(), Piece::Text(ref s) if s == "true"));
    assert!(matches!(Literal::Boolean(LiteralBool::False).printable(), Piece::Text(ref s) if s == "false"));
    assert!(matches!(Literal::Number(7).printable(), Piece::Number(7)));
    assert_eq!(LiteralBool::True.to_text(), "true");
    assert_eq!(LiteralBool::False.to_text(), "false");
}

#[test]
fn variables_assignments_and_logical_operators() {
    let name = Token {
        kind: TokenKind::Identifier,
        lexeme: "a".to_string(),
        literal: token::Literal::Nil,
        line: 1,
    };
    let or = Token { kind: TokenKind::Or, lexeme: "or".to_string(), literal: token::Literal::Nil, line: 1 };
    let variable = Expr::Variable { name: name.clone() };
    assert_eq!(join(&variable.pieces()), "a");
    let assign = Expr::Assign { name: name.clone(), value: Box::new(number(1.0)) };
    assert_eq!(join(&assign.pieces()), "(= a 1)");
    let logical = Expr::Logical { left: Box::new(variable), operator: or, right: Box::new(string("b")) };
    assert_eq!(join(&logical.pieces()), "(or a \"b\")");
}
