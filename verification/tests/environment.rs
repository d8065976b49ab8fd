use rlox::environment::Environment;
use rlox::expr::{Literal, LiteralBool};
use rlox::token::{self, Token, TokenKind};

fn name(text: &str) -> Token {
    Token { kind: TokenKind::Identifier, lexeme: text.to_string(), literal: token::Literal::Nil, line: 7 }
}

fn number(value: f64) -> Literal {
    Literal::Number(value.to_bits())
}

fn is_number(found: &Literal, value: f64) -> bool {
    matches!(found, Literal::Number(bits) if *bits == value.to_bits())
}

#[test]
fn a_new_environment_has_the_global_scope_alone() {
    let environment = Environment::new();
    assert_eq!(environment.depth(), 1);
    assert!(environment.get(&name("a")).is_err());
    assert_eq!(Environment::default().depth(), 1);
}

#[test]
fn a_defined_variable_can_be_read() {
    let mut environment = Environment::new();
    environment.define("a".to_string(), number(1.0));
    assert!(is_number(environment.get(&name("a")).unwrap(), 1.0));
}

#[test]
fn defining_again_replaces_the_value() {
    let mut environment = Environment::new();
    environment.define("a".to_string(), number(1.0));
    environment.define("a".to_string(), Literal::String("two".to_string()));
    assert!(matches!(environment.get(&name("a")).unwrap(), Literal::String(s) if s == "two"));
}

#[test]
fn reading_an_unknown_variable_fails() {
    let environment = Environment::new();
    let error = environment.get(&name("ghost")).unwrap_err();
    assert_eq!(error.message, "Undefined variable 'ghost'");
    let token = error.token.unwrap();
    assert_eq!(token.lexeme, "ghost");
    assert_eq!(token.line, 7);
}

#[test]
fn assigning_an_unknown_variable_fails_and_defines_nothing() {
    let mut environment = Environment::new();
    let error = environment.assign(&name("a"), &number(1.0)).unwrap_err();
    assert_eq!(error.message, "Undefined variable 'a'");
    assert!(environment.get(&name("a")).is_err());
    environment.add_scope();
    assert!(environment.assign(&name("a"), &number(1.0)).is_err());
    assert!(environment.get(&name("a")).is_err());
}

#[test]
fn assigning_changes_the_nearest_scope_that_has_the_name() {
    let mut environment = Environment::new();
    environment.define("a".to_string(), number(1.0));
    environment.add_scope();
    environment.assign(&name("a"), &number(2.0)).unwrap();
    assert!(is_number(environment.get(&name("a")).unwrap(), 2.0));
    let inner = environment.pop_scope();
    let _ = inner;
    assert!(is_number(environment.get(&name("a")).unwrap(), 2.0));
}

#[test]
fn an_inner_definition_shadows_and_goes_with_its_scope() {
    let mut environment = Environment::new();
    environment.define("a".to_string(), number(1.0));
    environment.add_scope();
    environment.define("a".to_string(), number(2.0));
    environment.define("b".to_string(), Literal::Boolean(LiteralBool::True));
    assert_eq!(environment.depth(), 2);
    assert!(is_number(environment.get(&name("a")).unwrap(), 2.0));
    environment.assign(&name("a"), &number(3.0)).unwrap();
    assert!(is_number(environment.get(&name("a")).unwrap(), 3.0));
    environment.pop_scope();
    assert_eq!(environment.depth(), 1);
    assert!(is_number(environment.get(&name("a")).unwrap(), 1.0));
    assert!(environment.get(&name("b")).is_err());
    assert!(environment.assign(&name("b"), &number(0.0)).is_err());
}

#[test]
fn many_names_in_one_scope() {
    let mut environment = Environment::new();
    for i in 0..50 {
        environment.define(format!("v{}", i), number(i as f64));
    }
    for i in 0..50 {
        environment.assign(&name(&format!("v{}", i)), &number((i * 2) as f64)).unwrap();
    }
    for i in 0..50 {
        assert!(is_number(environment.get(&name(&format!("v{}", i))).unwrap(), (i * 2) as f64));
    }
}
