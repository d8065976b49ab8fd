use rlox::parser::is_well_formed;
use rlox::scanner::{self, give_values, numerals_of, ScanError, ScanErrorKind, Scanner};
use rlox::token::{Literal, Token, TokenKind};

fn scan(source: &str) -> (Vec<Token>, Vec<ScanError>) {
    let mut scanner = Scanner::new(source);
    let tokens = scanner.scan_tokens().clone();
    let errors = scanner.errors().clone();
    (tokens, errors)
}

fn kinds(source: &str) -> Vec<TokenKind> {
    scan(source).0.iter().map(|t| t.kind).collect()
}

fn lexemes(source: &str) -> Vec<String> {
    scan(source).0.iter().map(|t| t.lexeme.clone()).collect()
}

#[test]
pub fn test_simple_statements() {
    struct TestCase {
        source: &'static str,
        expected_tokens: Vec<TokenKind>,
    }

    let test_cases = vec![
        TestCase {
            source: "var x = 10;",
            expected_tokens: vec![
                TokenKind::Var,
                TokenKind::Identifier,
                TokenKind::Equal,
                TokenKind::Number,
                TokenKind::Semicolon,
                TokenKind::Eof,
            ],
        },
        TestCase {
            source: "print \"Hello, World!\";",
            expected_tokens: vec![
                TokenKind::Print,
                TokenKind::String,
                TokenKind::Semicolon,
                TokenKind::Eof,
            ],
        },
        TestCase {
            source: "if (x > 5) { print x; }",
            expected_tokens: vec![
                TokenKind::If,
                TokenKind::LeftParen,
                TokenKind::Identifier,
                TokenKind::Greater,
                TokenKind::Number,
                TokenKind::RightParen,
                TokenKind::LeftBrace,
                TokenKind::Print,
                TokenKind::Identifier,
                TokenKind::Semicolon,
                TokenKind::RightBrace,
                TokenKind::Eof,
            ],
        },
        TestCase {
            source: r#"
                fun addPair(a, b) {
                    return a + b;
                }
                "#,
            expected_tokens: vec![
                TokenKind::Fun,
                TokenKind::Identifier,
                TokenKind::LeftParen,
                TokenKind::Identifier,
                TokenKind::Comma,
                TokenKind::Identifier,
                TokenKind::RightParen,
                TokenKind::LeftBrace,
                TokenKind::Return,
                TokenKind::Identifier,
                TokenKind::Plus,
                TokenKind::Identifier,
                TokenKind::Semicolon,
                TokenKind::RightBrace,
                TokenKind::Eof,
            ],
        },
        TestCase {
            source: r#"
                fun returnFunction() {
                    var outside = "outside";

                    fun inner() {
                        print outside;
                    }

                    return inner;
                }
                "#,
            expected_tokens: vec![
                TokenKind::Fun,
                TokenKind::Identifier,
                TokenKind::LeftParen,
                TokenKind::RightParen,
                TokenKind::LeftBrace,
                TokenKind::Var,
                TokenKind::Identifier,
                TokenKind::Equal,
                TokenKind::String,
                TokenKind::Semicolon,
                TokenKind::Fun,
                TokenKind::Identifier,
                TokenKind::LeftParen,
                TokenKind::RightParen,
                TokenKind::LeftBrace,
                TokenKind::Print,
                TokenKind::Identifier,
                TokenKind::Semicolon,
                TokenKind::RightBrace,
                TokenKind::Return,
                TokenKind::Identifier,
                TokenKind::Semicolon,
                TokenKind::RightBrace,
                TokenKind::Eof,
            ],
        },
        TestCase {
            source: r#"
                class Breakfast {
                    cook() {
                        print "Eggs a-fryin'!";
                    }

                    serve(who) {
                        print "Enjoy your breakfast, " + who + ".";
                    }
                }
                "#,
            expected_tokens: vec![
                TokenKind::Class,
                TokenKind::Identifier,
                TokenKind::LeftBrace,
                TokenKind::Identifier,
                TokenKind::LeftParen,
                TokenKind::RightParen,
                TokenKind::LeftBrace,
                TokenKind::Print,
                TokenKind::String,
                TokenKind::Semicolon,
                TokenKind::RightBrace,
                TokenKind::Identifier,
                TokenKind::LeftParen,
                TokenKind::Identifier,
                TokenKind::RightParen,
                TokenKind::LeftBrace,
                TokenKind::Print,
                TokenKind::String,
                TokenKind::Plus,
                TokenKind::Identifier,
                TokenKind::Plus,
                TokenKind::String,
                TokenKind::Semicolon,
                TokenKind::RightBrace,
                TokenKind::RightBrace,
                TokenKind::Eof,
            ],
        },
        TestCase {
            source: r#"
                class Brunch < Breakfast {
                    init(meat, bread, drink) {
                        super.init(meat, bread);
                        this.drink = drink;
                    }
                }
                "#,
            expected_tokens: vec![
                TokenKind::Class,
                TokenKind::Identifier,
                TokenKind::Less,
                TokenKind::Identifier,
                TokenKind::LeftBrace,
                TokenKind::Identifier,
                TokenKind::LeftParen,
                TokenKind::Identifier,
                TokenKind::Comma,
                TokenKind::Identifier,
                TokenKind::Comma,
                TokenKind::Identifier,
                TokenKind::RightParen,
                TokenKind::LeftBrace,
                TokenKind::Super,
                TokenKind::Dot,
                TokenKind::Identifier,
                TokenKind::LeftParen,
                TokenKind::Identifier,
                TokenKind::Comma,
                TokenKind::Identifier,
                TokenKind::RightParen,
                TokenKind::Semicolon,
                TokenKind::This,
                TokenKind::Dot,
                TokenKind::Identifier,
                TokenKind::Equal,
                TokenKind::Identifier,
                TokenKind::Semicolon,
                TokenKind::RightBrace,
                TokenKind::RightBrace,
                TokenKind::Eof,
            ],
        },
    ];

    for case in test_cases {
        let mut scanner = Scanner::new(case.source);
        let tokens = scanner.scan_tokens();
        let token_kinds: Vec<TokenKind> = tokens.iter().map(|t| t.kind).collect();
        assert_eq!(
            token_kinds, case.expected_tokens,
            "Failed on source: {}",
            case.source
        );
    }
}

#[test]
fn empty_source_gives_the_end_token_alone() {
    let (tokens, errors) = scan("");
    assert_eq!(tokens.len(), 1);
    assert_eq!(tokens[0].kind, TokenKind::Eof);
    assert_eq!(tokens[0].lexeme, "");
    assert_eq!(tokens[0].line, 1);
    assert!(matches!(tokens[0].literal, Literal::Nil));
    assert!(errors.is_empty());
}

#[test]
fn single_character_tokens() {
    assert_eq!(
        kinds("(){},.-+;*/"),
        vec![
            TokenKind::LeftParen,
            TokenKind::RightParen,
            TokenKind::LeftBrace,
            TokenKind::RightBrace,
            TokenKind::Comma,
            TokenKind::Dot,
            TokenKind::Minus,
            TokenKind::Plus,
            TokenKind::Semicolon,
            TokenKind::Star,
            TokenKind::Slash,
            TokenKind::Eof,
        ]
    );
}

#[test]
fn two_character_operators_take_the_longest_match() {
    assert_eq!(
        kinds("! != = == < <= > >="),
        vec![
            TokenKind::Bang,
            TokenKind::BangEqual,
            TokenKind::Equal,
            TokenKind::EqualEqual,
            TokenKind::Less,
            TokenKind::LessEqual,
            TokenKind::Greater,
            TokenKind::GreaterEqual,
            TokenKind::Eof,
        ]
    );
    assert_eq!(lexemes("!==="), vec!["!=", "==", ""]);
    assert_eq!(lexemes("<=>="), vec!["<=", ">=", ""]);
    assert_eq!(kinds("="), vec![TokenKind::Equal, TokenKind::Eof]);
}

#[test]
fn a_comment_runs_to_the_end_of_the_line() {
    let (tokens, errors) = scan("1 // two three\n4 / 5 // end");
    let found: Vec<(TokenKind, String, usize)> =
        tokens.iter().map(|t| (t.kind, t.lexeme.clone(), t.line)).collect();
    assert_eq!(
        found,
        vec![
            (TokenKind::Number, "1".to_string(), 1),
            (TokenKind::Number, "4".to_string(), 2),
            (TokenKind::Slash, "/".to_string(), 2),
            (TokenKind::Number, "5".to_string(), 2),
            (TokenKind::Eof, "".to_string(), 2),
        ]
    );
    assert!(errors.is_empty());
}

#[test]
fn whitespace_is_skipped_and_lines_are_counted() {
    let (tokens, _) = scan(" \t\r\n\n  x\n");
    assert_eq!(tokens.len(), 2);
    assert_eq!(tokens[0].kind, TokenKind::Identifier);
    assert_eq!(tokens[0].line, 3);
    assert_eq!(tokens[1].kind, TokenKind::Eof);
    assert_eq!(tokens[1].line, 4);
}

#[test]
fn a_string_keeps_its_text_and_its_line_breaks() {
    let (tokens, errors) = scan("\"one\ntwo\" x");
    assert!(errors.is_empty());
    assert_eq!(tokens[0].kind, TokenKind::String);
    assert_eq!(tokens[0].lexeme, "\"one\ntwo\"");
    match &tokens[0].literal {
        Literal::String(s) => assert_eq!(s, "one\ntwo"),
        other => panic!("{:?}", other),
    }
    assert_eq!(tokens[0].line, 2);
    assert_eq!(tokens[1].kind, TokenKind::Identifier);
    assert_eq!(tokens[1].line, 2);
}

#[test]
fn an_empty_string_is_a_string() {
    let (tokens, errors) = scan("\"\"");
    assert!(errors.is_empty());
    assert_eq!(tokens[0].kind, TokenKind::String);
    assert_eq!(tokens[0].lexeme, "\"\"");
    match &tokens[0].literal {
        Literal::String(s) => assert_eq!(s, ""),
        other => panic!("{:?}", other),
    }
}

#[test]
fn an_unterminated_string_is_reported_and_scanning_ends() {
    let (tokens, errors) = scan("x \"abc\ndef");
    assert_eq!(
        tokens.iter().map(|t| t.kind).collect::<Vec<_>>(),
        vec![TokenKind::Identifier, TokenKind::Eof]
    );
    assert_eq!(errors, vec![ScanError { kind: ScanErrorKind::UnterminatedString, line: 2 }]);
    assert_eq!(tokens[1].line, 2);
}

#[test]
fn numerals_with_and_without_a_fraction() {
    assert_eq!(lexemes("123 45.67 0.5"), vec!["123", "45.67", "0.5", ""]);
    assert_eq!(
        kinds("123 45.67"),
        vec![TokenKind::Number, TokenKind::Number, TokenKind::Eof]
    );
}

#[test]
fn a_dot_without_a_digit_after_it_is_not_part_of_the_numeral() {
    assert_eq!(lexemes("123."), vec!["123", ".", ""]);
    assert_eq!(kinds("123."), vec![TokenKind::Number, TokenKind::Dot, TokenKind::Eof]);
    assert_eq!(lexemes("1.x"), vec!["1", ".", "x", ""]);
    assert_eq!(lexemes("1.2.3"), vec!["1.2", ".", "3", ""]);
    assert_eq!(lexemes(".5"), vec![".", "5", ""]);
}

#[test]
fn a_numeral_leaves_the_scanner_without_a_value() {
    let (tokens, _) = scan("42");
    assert!(matches!(tokens[0].literal, Literal::Nil));
}

#[test]
fn identifiers_and_reserved_words() {
    assert_eq!(
        kinds("and class else false fun for if nil or print return super this true var while"),
        vec![
            TokenKind::And,
            TokenKind::Class,
            TokenKind::Else,
            TokenKind::False,
            TokenKind::Fun,
            TokenKind::For,
            TokenKind::If,
            TokenKind::Nil,
            TokenKind::Or,
            TokenKind::Print,
            TokenKind::Return,
            TokenKind::Super,
            TokenKind::This,
            TokenKind::True,
            TokenKind::Var,
            TokenKind::While,
            TokenKind::Eof,
        ]
    );
    assert_eq!(
        kinds("andy _if x1 While or_"),
        vec![
            TokenKind::Identifier,
            TokenKind::Identifier,
            TokenKind::Identifier,
            TokenKind::Identifier,
            TokenKind::Identifier,
            TokenKind::Eof,
        ]
    );
    assert_eq!(lexemes("foo_bar1+2"), vec!["foo_bar1", "+", "2", ""]);
}

#[test]
fn an_unexpected_character_is_reported_and_scanning_goes_on() {
    let (tokens, errors) = scan("a @ b\n# c");
    assert_eq!(lexemes("a @ b\n# c"), vec!["a", "b", "c", ""]);
    assert_eq!(tokens.len(), 4);
    assert_eq!(
        errors,
        vec![
            ScanError { kind: ScanErrorKind::UnexpectedCharacter, line: 1 },
            ScanError { kind: ScanErrorKind::UnexpectedCharacter, line: 2 },
        ]
    );
}

#[test]
fn characters_outside_ascii_are_single_errors() {
    let (tokens, errors) = scan("é1");
    assert_eq!(tokens.len(), 2);
    assert_eq!(tokens[0].lexeme, "1");
    assert_eq!(errors.len(), 1);
}

#[test]
fn the_payload_of_a_plain_token_is_its_lexeme() {
    let (tokens, _) = scan("foo >=");
    match &tokens[0].literal {
        Literal::String(s) => assert_eq!(s, "foo"),
        other => panic!("{:?}", other),
    }
    match &tokens[1].literal {
        Literal::String(s) => assert_eq!(s, ">="),
        other => panic!("{:?}", other),
    }
}

#[test]
fn scanning_again_only_adds_another_end_token() {
    let mut scanner = Scanner::new("x");
    assert_eq!(scanner.scan_tokens().len(), 2);
    let again = scanner.scan_tokens();
    assert_eq!(again.len(), 3);
    assert_eq!(again[2].kind, TokenKind::Eof);
}

#[test]
fn scanning_a_text_in_one_go() {
    let (tokens, faults) = scanner::scan("var a = 1; @");
    assert_eq!(
        tokens.iter().map(|t| t.kind).collect::<Vec<_>>(),
        vec![
            TokenKind::Var,
            TokenKind::Identifier,
            TokenKind::Equal,
            TokenKind::Number,
            TokenKind::Semicolon,
            TokenKind::Eof,
        ]
    );
    assert_eq!(faults, vec![ScanError { kind: ScanErrorKind::UnexpectedCharacter, line: 1 }]);
    assert_eq!(faults[0].message(), "Unexpected character");
    assert_eq!(ScanError { kind: ScanErrorKind::UnterminatedString, line: 1 }.message(), "Unterminated string.");
}

#[test]
fn the_numerals_of_a_text_in_order() {
    let (tokens, _) = scanner::scan("1 + x * 2.5 - \"3\" / 40;");
    assert_eq!(numerals_of(&tokens), vec!["1", "2.5", "40"]);
    let (tokens, _) = scanner::scan("print x;");
    assert!(numerals_of(&tokens).is_empty());
}

#[test]
fn numerals_get_their_values_in_order() {
    let (mut tokens, _) = scanner::scan("1 + x * 2.5;");
    assert!(!is_well_formed(&tokens));
    let values = vec![1f64.to_bits(), 2.5f64.to_bits()];
    assert!(give_values(&mut tokens, &values));
    assert!(is_well_formed(&tokens));
    assert!(matches!(tokens[0].literal, Literal::Number(bits) if bits == 1f64.to_bits()));
    assert!(matches!(tokens[4].literal, Literal::Number(bits) if bits == 2.5f64.to_bits()));
    assert!(matches!(tokens[1].literal, Literal::String(ref s) if s == "+"));
    assert_eq!(tokens[4].lexeme, "2.5");
}

#[test]
fn too_few_or_too_many_values_are_noticed() {
    let (mut tokens, _) = scanner::scan("1 2 3");
    assert!(!give_values(&mut tokens, &vec![7, 8]));
    assert!(matches!(tokens[0].literal, Literal::Number(7)));
    assert!(matches!(tokens[1].literal, Literal::Number(8)));
    assert!(matches!(tokens[2].literal, Literal::Nil));
    assert!(!is_well_formed(&tokens));
    let (mut tokens, _) = scanner::scan("1");
    assert!(!give_values(&mut tokens, &vec![7, 8]));
    assert!(matches!(tokens[0].literal, Literal::Number(7)));
    assert!(is_well_formed(&tokens));
}

#[test]
fn tokens_without_an_end_are_not_well_formed() {
    assert!(!is_well_formed(&Vec::new()));
    let (mut tokens, _) = scanner::scan("x");
    assert!(is_well_formed(&tokens));
    tokens.pop();
    assert!(!is_well_formed(&tokens));
}
