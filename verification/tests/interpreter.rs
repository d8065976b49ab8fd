use rlox::environment::Environment;
use rlox::error::RuntimeError;
use rlox::expr::{Expr, Literal, LiteralBool, Piece};
use rlox::interpreter::{
    apply_binary, apply_unary, decide_logical, is_equal, is_truthy, Applied, Arithmetic, Interpreter, Reply,
    Request,
};
use rlox::number;
use rlox::parser::Parser;
use rlox::scanner::Scanner;
use rlox::stmt::Stmt;
use rlox::token::{self, Token, TokenKind};

struct TestCase<'a> {
    source: &'a str,
    expected_output: &'a [u8],
    description: &'static str,
}

fn written(piece: &Piece) -> String {
    match piece {
        Piece::Text(words) => words.clone(),
        Piece::Number(bits) => format!("{}", f64::from_bits(*bits)),
    }
}

fn computed(operation: Arithmetic, left: u64, right: u64) -> u64 {
    let (left, right) = (f64::from_bits(left), f64::from_bits(right));
    let result = match operation {
        Arithmetic::Add => left + right,
        Arithmetic::Subtract => left - right,
        Arithmetic::Multiply => left * right,
        Arithmetic::Divide => left / right,
    };
    result.to_bits()
}

fn parse(source: &str) -> Vec<Stmt> {
    let mut scanner = Scanner::new(source);
    let mut tokens = scanner.scan_tokens().clone();
    assert!(scanner.errors().is_empty());
    for token in tokens.iter_mut() {
        if token.kind == TokenKind::Number {
            token.literal = token::Literal::Number(token.lexeme.parse::<f64>().unwrap().to_bits());
        }
    }
    let mut parser = Parser::new(&tokens);
    parser.parse().unwrap()
}

/// Drives the machine to the end of the statements; the sink takes at most
/// `room` lines.
fn drive(
    statements: &Vec<Stmt>,
    environment: Environment,
    output: &mut Vec<u8>,
    room: usize,
) -> (Environment, Result<(), RuntimeError>) {
    let mut interpreter = Interpreter::new(environment);
    interpreter.interpret(statements);
    let mut lines = 0;
    let mut reply = Reply::Nothing;
    let result = loop {
        match interpreter.step(reply) {
            Request::Proceed => reply = Reply::Nothing,
            Request::Compute { operation, left, right } => {
                reply = Reply::Number(computed(operation, left, right));
            }
            Request::Print(piece) => {
                if lines < room {
                    output.extend_from_slice(written(&piece).as_bytes());
                    output.push(b'\n');
                    lines += 1;
                    reply = Reply::Written(true);
                } else {
                    reply = Reply::Written(false);
                }
            }
            Request::Done => break Ok(()),
            Request::Failed(error) => break Err(error),
        }
    };
    (interpreter.into_environment(), result)
}

fn run(source: &str) -> (String, Result<(), RuntimeError>) {
    let statements = parse(source);
    let mut output = Vec::new();
    let (_, result) = drive(&statements, Environment::default(), &mut output, usize::MAX);
    (String::from_utf8(output).unwrap(), result)
}

fn output_of(source: &str) -> String {
    let (output, result) = run(source);
    assert!(result.is_ok(), "{:?}", result);
    output
}

fn error_of(source: &str) -> String {
    let (_, result) = run(source);
    result.unwrap_err().message
}

fn token(kind: TokenKind, lexeme: &str) -> Token {
    Token { kind, literal: token::Literal::String(lexeme.to_string()), lexeme: lexeme.to_string(), line: 0 }
}

fn number(value: f64) -> Literal {
    Literal::Number(value.to_bits())
}

fn boolean(value: bool) -> Literal {
    Literal::boolean(value)
}

fn evaluate(expr: Expr) -> Result<Literal, RuntimeError> {
    let name = token(TokenKind::Identifier, "result");
    let statements = vec![Stmt::Var { name: name.clone(), initializer: expr }];
    let mut output = Vec::new();
    let (environment, result) = drive(&statements, Environment::default(), &mut output, 0);
    result.map(|_| environment.get(&name).unwrap().clone())
}

#[test]
fn test_scripts() {
    let test_cases = vec![
        TestCase { source: "print 1;", expected_output: b"1\n", description: "Print number" },
        TestCase { source: r#"print "hello";"#, expected_output: b"hello\n", description: "Print string" },
        TestCase { source: "print true;", expected_output: b"true\n", description: "Print boolean" },
        TestCase { source: "print nil;", expected_output: b"nil\n", description: "Print nil" },
        TestCase {
            source: r#"

            var count = 0;
            while (count < 10) {
                count = count + 1;
            }
            print count;

            "#,
            expected_output: b"10\n",
            description: "While loop",
        },
        TestCase {
            source: r#"

            var count = 0;
            for(var i = 0; i < 5; i = i + 1) {
              if (i == 3) {
                count = 42;
              }
            }

            print count;

            "#,
            expected_output: b"42\n",
            description: "For loop with if statement",
        },
    ];

    for TestCase { source, expected_output, description } in test_cases {
        let statements = parse(source);
        let mut output = Vec::new();
        let (_, result) = drive(&statements, Environment::default(), &mut output, usize::MAX);
        assert!(result.is_ok());

        assert_eq!(output, expected_output, "{}", description);
    }
}

#[test]
fn test_valid_expressions() {
    struct Case {
        input: Expr,
        expected: Literal,
    }
    let error = Literal::String("error".to_string());
    let test_cases = vec![
        Case {
            input: Expr::Unary {
                operator: token(TokenKind::Minus, "-"),
                right: Box::new(Expr::Literal(number(5.0))),
            },
            expected: number(-5.0),
        },
        Case {
            input: Expr::Unary {
                operator: token(TokenKind::Bang, "!"),
                right: Box::new(Expr::Literal(boolean(true))),
            },
            expected: boolean(false),
        },
        Case {
            input: Expr::Unary {
                operator: token(TokenKind::Bang, "!"),
                right: Box::new(Expr::Literal(boolean(false))),
            },
            expected: boolean(true),
        },
        Case {
            input: Expr::Unary {
                operator: token(TokenKind::Bang, "!"),
                right: Box::new(Expr::Literal(Literal::Nil)),
            },
            expected: boolean(true),
        },
        Case {
            input: Expr::Unary {
                operator: token(TokenKind::Minus, "-"),
                right: Box::new(Expr::Literal(boolean(true))),
            },
            expected: Literal::String("error".to_string()),
        },
    ];

    for test_case in test_cases {
        let value = evaluate(test_case.input);
        if is_equal(&test_case.expected, &error) {
            assert!(value.is_err());
        } else {
            assert!(value.is_ok());
            assert!(is_equal(&value.unwrap(), &test_case.expected));
        }
    }
}

#[test]
fn negating_a_truth_value_is_an_error() {
    let minus = token(TokenKind::Minus, "-");
    let error = apply_unary(&minus, &boolean(true)).unwrap_err();
    assert!(error.message.starts_with("Operand must be a number"));
    assert_eq!(error.message, "Operand must be a number, got Boolean");
    assert_eq!(error.token.unwrap().kind, TokenKind::Minus);
    assert_eq!(error_of("print -true;"), "Operand must be a number, got Boolean");
    assert_eq!(error_of("print -\"a\";"), "Operand must be a number, got String");
    assert_eq!(error_of("print -nil;"), "Operand must be a number, got Nil");
}

#[test]
fn what_counts_as_true() {
    assert!(!is_truthy(&Literal::Nil));
    assert!(!is_truthy(&Literal::Boolean(LiteralBool::False)));
    assert!(is_truthy(&Literal::Boolean(LiteralBool::True)));
    assert!(is_truthy(&number(0.0)));
    assert!(is_truthy(&number(f64::NAN)));
    assert!(is_truthy(&Literal::String("".to_string())));
    assert!(is_truthy(&Literal::Identifier("x".to_string())));
}

#[test]
fn what_counts_as_equal() {
    assert!(is_equal(&Literal::Nil, &Literal::Nil));
    assert!(!is_equal(&Literal::Nil, &number(0.0)));
    assert!(!is_equal(&number(0.0), &Literal::Nil));
    assert!(!is_equal(&Literal::Nil, &boolean(false)));
    assert!(is_equal(&number(1.5), &number(1.5)));
    assert!(!is_equal(&number(1.5), &number(2.5)));
    assert!(is_equal(&number(0.0), &number(-0.0)));
    assert!(!is_equal(&number(f64::NAN), &number(f64::NAN)));
    assert!(is_equal(&Literal::String("a".to_string()), &Literal::String("a".to_string())));
    assert!(!is_equal(&Literal::String("a".to_string()), &Literal::String("b".to_string())));
    assert!(!is_equal(&Literal::String("a".to_string()), &Literal::Identifier("a".to_string())));
    assert!(is_equal(&boolean(true), &boolean(true)));
    assert!(!is_equal(&boolean(true), &boolean(false)));
    assert!(!is_equal(&number(1.0), &Literal::String("1".to_string())));
}

fn samples() -> Vec<f64> {
    vec![
        0.0,
        -0.0,
        1.0,
        -1.0,
        0.5,
        -0.5,
        2.0,
        1e300,
        -1e300,
        5e-324,
        -5e-324,
        f64::MAX,
        f64::MIN,
        f64::MIN_POSITIVE,
        f64::INFINITY,
        f64::NEG_INFINITY,
        f64::NAN,
        -f64::NAN,
        45.67,
        123456789.0,
    ]
}

#[test]
fn numbers_compare_as_doubles_do() {
    for a in samples() {
        for b in samples() {
            let (x, y) = (a.to_bits(), b.to_bits());
            assert_eq!(number::is_less(x, y), a < b, "{} < {}", a, b);
            assert_eq!(number::is_less_equal(x, y), a <= b, "{} <= {}", a, b);
            assert_eq!(number::is_equal(x, y), a == b, "{} == {}", a, b);
        }
        assert_eq!(number::nan(a.to_bits()), a.is_nan());
        assert_eq!(number::negate(a.to_bits()), (-a).to_bits());
    }
}

#[test]
fn comparisons_of_numbers_match_the_host() {
    let operators = [
        (TokenKind::Greater, ">"),
        (TokenKind::GreaterEqual, ">="),
        (TokenKind::Less, "<"),
        (TokenKind::LessEqual, "<="),
        (TokenKind::EqualEqual, "=="),
        (TokenKind::BangEqual, "!="),
    ];
    for a in samples() {
        for b in samples() {
            for (kind, lexeme) in operators {
                let expected = match kind {
                    TokenKind::Greater => a > b,
                    TokenKind::GreaterEqual => a >= b,
                    TokenKind::Less => a < b,
                    TokenKind::LessEqual => a <= b,
                    TokenKind::EqualEqual => a == b,
                    _ => a != b,
                };
                match apply_binary(&token(kind, lexeme), &number(a), &number(b)) {
                    Ok(Applied::Value(Literal::Boolean(found))) => {
                        assert_eq!(found == LiteralBool::True, expected, "{} {} {}", a, lexeme, b)
                    }
                    other => panic!("{:?}", other),
                }
            }
        }
    }
}

#[test]
fn arithmetic_on_numbers_is_handed_on() {
    let cases = [
        (TokenKind::Plus, "+", Arithmetic::Add),
        (TokenKind::Minus, "-", Arithmetic::Subtract),
        (TokenKind::Star, "*", Arithmetic::Multiply),
        (TokenKind::Slash, "/", Arithmetic::Divide),
    ];
    for (kind, lexeme, expected) in cases {
        match apply_binary(&token(kind, lexeme), &number(6.0), &number(0.0)) {
            Ok(Applied::Compute { operation, left, right }) => {
                assert_eq!(operation, expected);
                assert_eq!(left, 6f64.to_bits());
                assert_eq!(right, 0f64.to_bits());
            }
            other => panic!("{:?}", other),
        }
    }
}

#[test]
fn arithmetic_end_to_end() {
    assert_eq!(output_of("print 1 + 2;"), "3\n");
    assert_eq!(output_of("print 7 - 10;"), "-3\n");
    assert_eq!(output_of("print 6 * 7;"), "42\n");
    assert_eq!(output_of("print 1 / 4;"), "0.25\n");
    assert_eq!(output_of("print 0.1 + 0.2;"), "0.30000000000000004\n");
    assert_eq!(output_of("print (1 + 2) * 3 - 4 / 8;"), "8.5\n");
    assert_eq!(output_of("print -(3 - 5);"), "2\n");
    assert_eq!(output_of("print --3;"), "3\n");
}

#[test]
fn division_by_zero_is_no_error() {
    assert_eq!(output_of("print 1 / 0;"), "inf\n");
    assert_eq!(output_of("print -1 / 0;"), "-inf\n");
    assert_eq!(output_of("print 0 / 0;"), "NaN\n");
    assert_eq!(output_of("print 0 / 0 == 0 / 0;"), "false\n");
    assert_eq!(output_of("print 0 / 0 != 0 / 0;"), "true\n");
}

#[test]
fn comparisons_end_to_end() {
    assert_eq!(output_of("print 1 < 2;"), "true\n");
    assert_eq!(output_of("print 2 < 1;"), "false\n");
    assert_eq!(output_of("print 2 <= 2;"), "true\n");
    assert_eq!(output_of("print 2 > 2;"), "false\n");
    assert_eq!(output_of("print 2 >= 2;"), "true\n");
    assert_eq!(output_of("print 1 == 1;"), "true\n");
    assert_eq!(output_of("print 1 != 1;"), "false\n");
    assert_eq!(output_of("print -1 < 0;"), "true\n");
}

#[test]
fn strings_are_joined_with_plus() {
    assert_eq!(output_of("print \"foo\" + \"bar\";"), "foobar\n");
    assert_eq!(output_of("print \"\" + \"\";"), "\n");
    assert_eq!(output_of("var a = \"x\"; a = a + a + a; print a;"), "xxx\n");
}

#[test]
fn strings_support_no_other_operator() {
    assert_eq!(error_of("print \"a\" - \"b\";"), "Unsupported binary operator '-' for strings");
    assert_eq!(error_of("print \"a\" == \"a\";"), "Unsupported binary operator '==' for strings");
    assert_eq!(error_of("print \"a\" < \"b\";"), "Unsupported binary operator '<' for strings");
}

#[test]
fn mixed_operands_can_only_be_tested_for_equality() {
    assert_eq!(output_of("print nil == nil;"), "true\n");
    assert_eq!(output_of("print nil != nil;"), "false\n");
    assert_eq!(output_of("print nil == 0;"), "false\n");
    assert_eq!(output_of("print 1 == \"1\";"), "false\n");
    assert_eq!(output_of("print 1 != \"1\";"), "true\n");
    assert_eq!(output_of("print true == true;"), "true\n");
    assert_eq!(output_of("print true == false;"), "false\n");
    assert_eq!(output_of("print true != nil;"), "true\n");
    assert_eq!(error_of("print 1 + \"a\";"), "Unsupported binary operator '+' for types (Number, String)");
    assert_eq!(error_of("print nil < 1;"), "Unsupported binary operator '<' for types (Nil, Number)");
    assert_eq!(error_of("print true * true;"), "Unsupported binary operator '*' for types (Boolean, Boolean)");
}

#[test]
fn an_operator_that_is_none_is_rejected() {
    let comma = token(TokenKind::Comma, ",");
    assert_eq!(
        apply_binary(&comma, &number(1.0), &number(2.0)).unwrap_err().message,
        "Unsupported binary operator ',' for numbers"
    );
    assert_eq!(apply_unary(&comma, &number(1.0)).unwrap_err().message, "Unsupported unary operator ','");
    assert_eq!(decide_logical(&comma, &number(1.0)).unwrap_err().message, "Unsupported logical operator ','");
}

#[test]
fn not_gives_the_opposite_of_truthiness() {
    assert_eq!(output_of("print !true;"), "false\n");
    assert_eq!(output_of("print !false;"), "true\n");
    assert_eq!(output_of("print !nil;"), "true\n");
    assert_eq!(output_of("print !0;"), "false\n");
    assert_eq!(output_of("print !\"\";"), "false\n");
}

#[test]
fn logical_operators_give_the_deciding_operand() {
    assert_eq!(output_of("print nil or \"yes\";"), "yes\n");
    assert_eq!(output_of("print 1 or 2;"), "1\n");
    assert_eq!(output_of("print false or false;"), "false\n");
    assert_eq!(output_of("print nil and 1;"), "nil\n");
    assert_eq!(output_of("print 1 and 2;"), "2\n");
    assert_eq!(output_of("print false and 1;"), "false\n");
    assert_eq!(output_of("print 0 and \"zero is true\";"), "zero is true\n");
}

#[test]
fn logical_operators_skip_what_they_do_not_need() {
    assert_eq!(output_of("var a = 1; false and (a = 2); print a;"), "1\n");
    assert_eq!(output_of("var a = 1; true or (a = 2); print a;"), "1\n");
    assert_eq!(output_of("var a = 1; true and (a = 2); print a;"), "2\n");
    assert_eq!(output_of("var a = 1; false or (a = 2); print a;"), "2\n");
    assert_eq!(output_of("print true or missing;"), "true\n");
    assert_eq!(error_of("print false or missing;"), "Undefined variable 'missing'");
}

#[test]
fn an_assignment_has_the_assigned_value() {
    assert_eq!(output_of("var a; print a = 3;"), "3\n");
    assert_eq!(output_of("var a; var b; a = b = 4; print a; print b;"), "4\n4\n");
}

#[test]
fn variables() {
    assert_eq!(output_of("var a; print a;"), "nil\n");
    assert_eq!(output_of("var a = 1; var a = 2; print a;"), "2\n");
    assert_eq!(output_of("var a = 1; var b = a + 1; print b;"), "2\n");
    assert_eq!(error_of("print a;"), "Undefined variable 'a'");
    assert_eq!(error_of("var a = a;"), "Undefined variable 'a'");
}

#[test]
fn assigning_an_undefined_variable_is_an_error() {
    assert_eq!(error_of("a = 1;"), "Undefined variable 'a'");
    assert_eq!(error_of("{ a = 1; }"), "Undefined variable 'a'");
    assert_eq!(error_of("{ var a = 1; } a = 2;"), "Undefined variable 'a'");
    let (_, result) = run("{ { b = 1; } }");
    let error = result.unwrap_err();
    assert!(error.message.starts_with("Undefined variable"));
    assert_eq!(error.token.unwrap().lexeme, "b");
}

#[test]
fn a_variable_of_a_block_is_gone_when_the_block_closes() {
    assert_eq!(error_of("{ var a = 1; print a; } print a;"), "Undefined variable 'a'");
    let (output, result) = run("{ var a = 1; print a; } print a;");
    assert_eq!(output, "1\n");
    assert!(result.is_err());
}

#[test]
fn blocks_shadow_and_restore() {
    assert_eq!(
        output_of("var a = 1; { var a = 2; print a; { var a = 3; print a; } print a; } print a;"),
        "2\n3\n2\n1\n"
    );
    assert_eq!(output_of("var a = 1; { a = 2; } print a;"), "2\n");
    assert_eq!(output_of("var a = 1; { var b = a + 1; a = b * 2; } print a;"), "4\n");
}

#[test]
fn if_takes_one_branch() {
    assert_eq!(output_of("if (true) print 1; else print 2;"), "1\n");
    assert_eq!(output_of("if (false) print 1; else print 2;"), "2\n");
    assert_eq!(output_of("if (nil) print 1;"), "");
    assert_eq!(output_of("if (0) print 1;"), "1\n");
    assert_eq!(output_of("if (1 > 2) print 1; else if (2 > 1) print 2; else print 3;"), "2\n");
}

#[test]
fn while_tests_before_each_round() {
    assert_eq!(output_of("while (false) print 1;"), "");
    assert_eq!(output_of("var i = 0; while (i < 3) { print i; i = i + 1; }"), "0\n1\n2\n");
    assert_eq!(output_of("var i = 3; while (i) { i = i - 1; if (i == 0) i = nil; } print i;"), "nil\n");
}

#[test]
fn for_loops() {
    assert_eq!(output_of("for (var i = 0; i < 3; i = i + 1) print i;"), "0\n1\n2\n");
    assert_eq!(output_of("var i = 0; for (; i < 2;) i = i + 1; print i;"), "2\n");
    assert_eq!(error_of("for (var i = 0; i < 1; i = i + 1) {} print i;"), "Undefined variable 'i'");
    assert_eq!(
        output_of("var a = 0; var b = 1; for (var i = 0; i < 10; i = i + 1) { var t = a + b; a = b; b = t; } print a;"),
        "55\n"
    );
}

#[test]
fn an_error_ends_the_run() {
    let (output, result) = run("print 1; print -nil; print 2;");
    assert_eq!(output, "1\n");
    assert!(result.is_err());
}

#[test]
fn the_scopes_of_a_failed_block_are_released() {
    let statements = parse("var a = 1; { var b = 2; { var c = 3; print -nil; } }");
    let mut output = Vec::new();
    let (environment, result) = drive(&statements, Environment::default(), &mut output, usize::MAX);
    assert!(result.is_err());
    assert_eq!(environment.depth(), 1);
    let a = token(TokenKind::Identifier, "a");
    let b = token(TokenKind::Identifier, "b");
    assert!(environment.get(&a).is_ok());
    assert!(environment.get(&b).is_err());
}

#[test]
fn the_environment_outlives_the_run() {
    let first = parse("var a = 1;");
    let second = parse("a = a + 1; print a;");
    let mut output = Vec::new();
    let (environment, result) = drive(&first, Environment::default(), &mut output, usize::MAX);
    assert!(result.is_ok());
    let (environment, result) = drive(&second, environment, &mut output, usize::MAX);
    assert!(result.is_ok());
    assert_eq!(output, b"2\n");
    assert_eq!(environment.depth(), 1);
}

#[test]
fn a_failed_write_is_a_runtime_error() {
    let statements = parse("print 1; print 2; print 3;");
    let mut output = Vec::new();
    let (_, result) = drive(&statements, Environment::default(), &mut output, 2);
    let error = result.unwrap_err();
    assert_eq!(error.message, "Failed to write output");
    assert!(error.token.is_none());
    assert_eq!(output, b"1\n2\n");
}

#[test]
fn a_request_stands_until_it_is_answered() {
    let statements = parse("print 1 + 2;");
    let mut interpreter = Interpreter::new(Environment::default());
    interpreter.interpret(&statements);
    let mut request = interpreter.step(Reply::Nothing);
    while matches!(request, Request::Proceed) {
        request = interpreter.step(Reply::Nothing);
    }
    assert!(matches!(request, Request::Compute { operation: Arithmetic::Add, .. }));
    assert!(matches!(interpreter.step(Reply::Nothing), Request::Compute { operation: Arithmetic::Add, .. }));
    assert!(matches!(interpreter.step(Reply::Written(true)), Request::Compute { .. }));
    let mut request = interpreter.step(Reply::Number(3f64.to_bits()));
    while matches!(request, Request::Proceed) {
        request = interpreter.step(Reply::Number(0));
    }
    assert!(matches!(request, Request::Print(Piece::Number(bits)) if bits == 3f64.to_bits()));
    assert!(matches!(interpreter.step(Reply::Nothing), Request::Print(_)));
    assert!(matches!(interpreter.step(Reply::Number(1)), Request::Print(_)));
    let mut request = interpreter.step(Reply::Written(true));
    while matches!(request, Request::Proceed) {
        request = interpreter.step(Reply::Nothing);
    }
    assert!(matches!(request, Request::Done));
    assert!(matches!(interpreter.step(Reply::Nothing), Request::Done));
}

#[test]
fn loading_a_program_abandons_the_one_that_runs() {
    let first = parse("{ var a = 1; print a; }");
    let second = parse("print 2;");
    let mut interpreter = Interpreter::new(Environment::default());
    interpreter.interpret(&first);
    let mut request = interpreter.step(Reply::Nothing);
    while matches!(request, Request::Proceed) {
        request = interpreter.step(Reply::Nothing);
    }
    assert!(matches!(request, Request::Print(_)));
    assert_eq!(interpreter.environment().depth(), 2);
    interpreter.interpret(&second);
    assert_eq!(interpreter.environment().depth(), 1);
    let mut request = interpreter.step(Reply::Nothing);
    while matches!(request, Request::Proceed) {
        request = interpreter.step(Reply::Nothing);
    }
    assert!(matches!(request, Request::Print(Piece::Number(bits)) if bits == 2f64.to_bits()));
}

#[test]
fn an_idle_machine_is_done() {
    let mut interpreter = Interpreter::new(Environment::default());
    assert!(matches!(interpreter.step(Reply::Nothing), Request::Done));
    let nothing = parse("");
    interpreter.interpret(&nothing);
    let mut request = interpreter.step(Reply::Nothing);
    while matches!(request, Request::Proceed) {
        request = interpreter.step(Reply::Nothing);
    }
    assert!(matches!(request, Request::Done));
}
