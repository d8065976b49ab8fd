use rlox::expr::Piece;
use rlox::parser::{Parser, SyntaxError};
use rlox::scanner::Scanner;
use rlox::stmt::Stmt;
use rlox::token::{self, Token, TokenKind};

struct TestCase<I, E> {
    input: I,
    expected: E,
}

fn token_eof(line: usize) -> Token {
    Token { kind: TokenKind::Eof, lexeme: "".to_string(), literal: token::Literal::Nil, line }
}

fn join(pieces: &[Piece]) -> String {
    let mut text = String::new();
    for piece in pieces {
        match piece {
            Piece::Text(words) => text.push_str(words),
            Piece::Number(bits) => text.push_str(&format!("{}", f64::from_bits(*bits))),
        }
    }
    text
}

fn tokens_of(source: &str) -> Vec<Token> {
    let mut scanner = Scanner::new(source);
    let mut tokens = scanner.scan_tokens().clone();
    for token in tokens.iter_mut() {
        if token.kind == TokenKind::Number {
            token.literal = token::Literal::Number(token.lexeme.parse::<f64>().unwrap().to_bits());
        }
    }
    tokens
}

fn parse(source: &str) -> Result<Vec<Stmt>, Vec<SyntaxError>> {
    let tokens = tokens_of(source);
    let mut parser = Parser::new(&tokens);
    parser.parse()
}

fn texts(source: &str) -> Vec<String> {
    match parse(source) {
        Ok(statements) => statements.iter().map(|s| join(&s.pieces())).collect(),
        Err(errors) => panic!("{:?}", errors),
    }
}

fn messages(source: &str) -> Vec<(String, String)> {
    match parse(source) {
        Ok(statements) => panic!("{:?}", statements),
        Err(errors) => errors.iter().map(|e| (e.message.to_string(), e.token.lexeme.clone())).collect(),
    }
}

#[test]
fn test_expression_parsing() {
    let test_cases = vec![
        TestCase {
            input: vec![
                Token { kind: TokenKind::Minus, lexeme: "-".to_string(), literal: token::Literal::Nil, line: 1 },
                Token {
                    kind: TokenKind::Number,
                    lexeme: "456".to_string(),
                    literal: token::Literal::Number(456f64.to_bits()),
                    line: 1,
                },
                Token {
                    kind: TokenKind::Semicolon,
                    lexeme: ";".to_string(),
                    literal: token::Literal::String(";".to_string()),
                    line: 1,
                },
                token_eof(1),
            ],
            expected: "(- 456)",
        },
        TestCase {
            input: vec![
                Token { kind: TokenKind::LeftParen, lexeme: "(".to_string(), literal: token::Literal::Nil, line: 1 },
                Token {
                    kind: TokenKind::Number,
                    lexeme: "456".to_string(),
                    literal: token::Literal::Number(456f64.to_bits()),
                    line: 1,
                },
                Token { kind: TokenKind::Star, lexeme: "*".to_string(), literal: token::Literal::Nil, line: 1 },
                Token {
                    kind: TokenKind::Number,
                    lexeme: "789".to_string(),
                    literal: token::Literal::Number(789f64.to_bits()),
                    line: 1,
                },
                Token { kind: TokenKind::RightParen, lexeme: ")".to_string(), literal: token::Literal::Nil, line: 1 },
                Token {
                    kind: TokenKind::Semicolon,
                    lexeme: ";".to_string(),
                    literal: token::Literal::String(";".to_string()),
                    line: 1,
                },
                token_eof(1),
            ],
            expected: "(group (* 456 789))",
        },
        TestCase {
            input: vec![
                Token {
                    kind: TokenKind::String,
                    lexeme: "\"hello\"".to_string(),
                    literal: token::Literal::String("hello".to_string()),
                    line: 1,
                },
                Token {
                    kind: TokenKind::Semicolon,
                    lexeme: ";".to_string(),
                    literal: token::Literal::String(";".to_string()),
                    line: 1,
                },
                token_eof(1),
            ],
            expected: "\"hello\"",
        },
        TestCase {
            input: vec![
                Token { kind: TokenKind::Minus, lexeme: "-".to_string(), literal: token::Literal::Nil, line: 1 },
                Token {
                    kind: TokenKind::Number,
                    lexeme: "123".to_string(),
                    literal: token::Literal::Number(123f64.to_bits()),
                    line: 1,
                },
                Token { kind: TokenKind::Star, lexeme: "*".to_string(), literal: token::Literal::Nil, line: 1 },
                Token { kind: TokenKind::LeftParen, lexeme: "(".to_string(), literal: token::Literal::Nil, line: 1 },
                Token {
                    kind: TokenKind::Number,
                    lexeme: "45.67".to_string(),
                    literal: token::Literal::Number(45.67f64.to_bits()),
                    line: 1,
                },
                Token { kind: TokenKind::RightParen, lexeme: ")".to_string(), literal: token::Literal::Nil, line: 1 },
                Token {
                    kind: TokenKind::Semicolon,
                    lexeme: ";".to_string(),
                    literal: token::Literal::String(";".to_string()),
                    line: 1,
                },
                token_eof(1),
            ],
            expected: "(* (- 123) (group 45.67))",
        },
    ];

    for test_case in test_cases {
        let mut parser = Parser::new(&test_case.input);
        let result = parser.parse();

        match result {
            Err(e) => panic!("Parsing failed: {:?} input: {:?}", e, test_case.input),
            Ok(expr) => {
                assert!(expr.len() == 1);
                assert_eq!(join(&expr.first().unwrap().pieces()), test_case.expected);
            }
        };
    }
}

#[test]
fn an_empty_program_has_no_statements() {
    assert_eq!(texts(""), Vec::<String>::new());
}

#[test]
fn binary_operators_fold_to_the_left() {
    assert_eq!(texts("1 - 2 - 3;"), vec!["(- (- 1 2) 3)"]);
    assert_eq!(texts("8 / 4 / 2;"), vec!["(/ (/ 8 4) 2)"]);
    assert_eq!(texts("1 < 2 == true;"), vec!["(== (< 1 2) true)"]);
}

#[test]
fn tighter_operators_bind_first() {
    assert_eq!(texts("1 + 2 * 3;"), vec!["(+ 1 (* 2 3))"]);
    assert_eq!(texts("1 * 2 + 3;"), vec!["(+ (* 1 2) 3)"]);
    assert_eq!(texts("1 + 2 < 3 + 4;"), vec!["(< (+ 1 2) (+ 3 4))"]);
    assert_eq!(texts("1 == 2 != 3 >= 4;"), vec!["(!= (== 1 2) (>= 3 4))"]);
    assert_eq!(texts("-1 * !2;"), vec!["(* (- 1) (! 2))"]);
    assert_eq!(texts("!!true;"), vec!["(! (! true))"]);
    assert_eq!(texts("a or b and c;"), vec!["(or a (and b c))"]);
    assert_eq!(texts("a and b or c and d;"), vec!["(or (and a b) (and c d))"]);
    assert_eq!(texts("a == b and c;"), vec!["(and (== a b) c)"]);
}

#[test]
fn assignment_is_right_associative() {
    assert_eq!(texts("a = b = 3;"), vec!["(= a (= b 3))"]);
    assert_eq!(texts("a = 1 or 2;"), vec!["(= a (or 1 2))"]);
}

#[test]
fn the_target_of_an_assignment_must_be_a_variable() {
    assert_eq!(messages("1 = 2;"), vec![("Invalid assignment target.".to_string(), "=".to_string())]);
    assert_eq!(messages("(a) = 2;"), vec![("Invalid assignment target.".to_string(), "=".to_string())]);
    assert_eq!(messages("a + b = 2;"), vec![("Invalid assignment target.".to_string(), "=".to_string())]);
}

#[test]
fn statements_of_every_kind() {
    assert_eq!(texts("print 1;"), vec!["print 1"]);
    assert_eq!(texts("var a;"), vec!["var a = nil"]);
    assert_eq!(texts("var a = 1 + 2;"), vec!["var a = (+ 1 2)"]);
    assert_eq!(texts("{ }"), vec!["{ }"]);
    assert_eq!(texts("{ var a = 1; print a; }"), vec!["{ var a = 1 print a }"]);
    assert_eq!(texts("if (a) print 1;"), vec!["if a then print 1 "]);
    assert_eq!(texts("if (a) print 1; else print 2;"), vec!["if a then print 1 else print 2"]);
    assert_eq!(texts("while (a < 3) a = a + 1;"), vec!["while (< a 3) (= a (+ a 1))"]);
    assert_eq!(texts("1; 2;"), vec!["1", "2"]);
}

#[test]
fn an_else_belongs_to_the_nearest_if() {
    assert_eq!(
        texts("if (a) if (b) print 1; else print 2;"),
        vec!["if a then if b then print 1 else print 2 "]
    );
}

#[test]
fn a_for_loop_is_rewritten_as_a_while_loop() {
    assert_eq!(
        texts("for (var i = 0; i < 5; i = i + 1) print i;"),
        vec!["{ var i = 0 while (< i 5) { print i (= i (+ i 1)) } }"]
    );
    assert_eq!(texts("for (;;) print 1;"), vec!["while true print 1"]);
    assert_eq!(texts("for (; a;) print 1;"), vec!["while a print 1"]);
    assert_eq!(texts("for (a = 0;;) print 1;"), vec!["{ (= a 0) while true print 1 }"]);
    assert_eq!(texts("for (;; a = 1) print 1;"), vec!["while true { print 1 (= a 1) }"]);
}

#[test]
fn what_is_missing_is_named() {
    assert_eq!(messages("print 1"), vec![("Expect ';' after expression.".to_string(), "".to_string())]);
    assert_eq!(messages("1"), vec![("Expect ';' after expression statement.".to_string(), "".to_string())]);
    assert_eq!(messages("var 1;"), vec![("Expect variable name.".to_string(), "1".to_string())]);
    assert_eq!(
        messages("var a = 1"),
        vec![("Expect ';' after variable declaration.".to_string(), "".to_string())]
    );
    assert_eq!(messages("if a"), vec![("Expect '(' after 'if'.".to_string(), "a".to_string())]);
    assert_eq!(messages("if (a print"), vec![("Expect ')' after if condition.".to_string(), "print".to_string())]);
    assert_eq!(messages("while a"), vec![("Expect '(' after 'while'.".to_string(), "a".to_string())]);
    assert_eq!(messages("while (a print"), vec![("Expect ')' after condition.".to_string(), "print".to_string())]);
    assert_eq!(messages("for a"), vec![("Expect '(' after 'for'.".to_string(), "a".to_string())]);
    assert_eq!(messages("for (; a print"), vec![("Expect ';' after loop condition.".to_string(), "print".to_string())]);
    assert_eq!(messages("for (;; a print"), vec![("Expect ')' after for clauses.".to_string(), "print".to_string())]);
    assert_eq!(messages("{ 1;"), vec![("Expect '}' after block.".to_string(), "".to_string())]);
    assert_eq!(messages("(1;"), vec![("Expect ')' after expression.".to_string(), ";".to_string())]);
    assert_eq!(messages("+;"), vec![("Expect expression.".to_string(), "+".to_string())]);
}

#[test]
fn words_kept_for_later_are_no_expressions() {
    for source in ["class;", "fun;", "return;", "super;", "this;"] {
        let errors = messages(source);
        assert_eq!(errors[0].0, "Expect expression.", "{}", source);
    }
}

#[test]
fn an_error_does_not_hide_a_later_one() {
    let errors = messages("var 1 = 2;\nprint 3;\nvar = 5;\nprint 4;");
    assert_eq!(
        errors,
        vec![
            ("Expect variable name.".to_string(), "1".to_string()),
            ("Expect variable name.".to_string(), "=".to_string()),
        ]
    );
}

#[test]
fn errors_carry_the_line_of_their_token() {
    match parse("print 1;\nprint ;\n\nprint +;") {
        Ok(statements) => panic!("{:?}", statements),
        Err(errors) => {
            assert_eq!(errors.len(), 2);
            assert_eq!(errors[0].token.line, 2);
            assert_eq!(errors[1].token.line, 4);
        }
    }
}

#[test]
fn after_an_error_parsing_goes_on_behind_the_next_semicolon() {
    let errors = messages("1 + ; 2 + ; 3;");
    assert_eq!(errors.len(), 2);
    assert_eq!(errors[0], ("Expect expression.".to_string(), ";".to_string()));
    assert_eq!(errors[1], ("Expect expression.".to_string(), ";".to_string()));
}

#[test]
fn after_an_error_parsing_goes_on_before_the_next_statement_word() {
    let errors = messages("1 2 3 print ; 4 5 var ;");
    assert_eq!(
        errors,
        vec![
            ("Expect ';' after expression statement.".to_string(), "2".to_string()),
            ("Expect expression.".to_string(), ";".to_string()),
            ("Expect ';' after expression statement.".to_string(), "5".to_string()),
            ("Expect variable name.".to_string(), ";".to_string()),
        ]
    );
}

#[test]
fn an_error_in_a_block_synchronizes_at_every_level() {
    let errors = messages("{ print ; print 1; } print +;");
    assert_eq!(
        errors,
        vec![
            ("Expect expression.".to_string(), ";".to_string()),
            ("Expect expression.".to_string(), "}".to_string()),
            ("Expect expression.".to_string(), "+".to_string()),
        ]
    );
}

#[test]
fn a_parser_can_be_used_piece_by_piece() {
    let tokens = tokens_of("1 + 2 3");
    let mut parser = Parser::new(&tokens);
    let first = parser.expression().unwrap();
    assert_eq!(join(&first.pieces()), "(+ 1 2)");
    let second = parser.primary().unwrap();
    assert_eq!(join(&second.pieces()), "3");
    assert!(parser.primary().is_err());
}
