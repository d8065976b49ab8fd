//! Parsing always moves on.
//!
//! Whatever the grammar's functions parse, they end inside the tokens, at or
//! after the place where they began; what parses takes at least one token;
//! and a declaration that fails leaves at least the offending token behind.
//! So a pass over the tokens reaches their end, and every declaration of the
//! program has its statement or its error in what the pass gives.

use vstd::prelude::*;
use crate::expr::Expr;
use crate::parser::{
    Level, Parsed, assignment, at_end, binary, block_statement, boundary, check, condition, declaration,
    expression, for_clauses, for_condition, for_increment, for_initializer, for_statement, if_statement,
    lemma_boundary, more, node, operand, primary, program, statement, synchronize, terminated, unary,
    var_declaration, well_formed, while_statement,
};
use crate::stmt::StmtView;
use crate::token::{Token, TokenKind};

verus! {

/// Parsing from `at` ended inside the tokens, at or after `at`, and took at
/// least one token if it succeeded.
pub open spec fn moved<T>(parsed: Parsed<T>, tokens: Seq<Token>, at: int) -> bool {
    &&& at <= parsed.next < tokens.len()
    &&& parsed.result is Ok ==> at < parsed.next
}

pub proof fn lemma_primary(tokens: Seq<Token>, at: int)
    requires
        well_formed(tokens),
        0 <= at < tokens.len(),
    ensures
        moved(primary(tokens, at), tokens, at),
    decreases tokens.len() - at, 0nat, 0nat,
{
    if check(tokens, at, TokenKind::LeftParen) {
        lemma_assignment(tokens, at + 1);
    }
}

pub proof fn lemma_unary(tokens: Seq<Token>, at: int)
    requires
        well_formed(tokens),
        0 <= at < tokens.len(),
    ensures
        moved(unary(tokens, at), tokens, at),
    decreases tokens.len() - at, 1nat, 0nat,
{
    if check(tokens, at, TokenKind::Bang) || check(tokens, at, TokenKind::Minus) {
        lemma_unary(tokens, at + 1);
    } else {
        lemma_primary(tokens, at);
    }
}

pub proof fn lemma_operand(tokens: Seq<Token>, at: int, level: Level)
    requires
        well_formed(tokens),
        0 <= at < tokens.len(),
    ensures
        moved(operand(tokens, at, level), tokens, at),
    decreases tokens.len() - at, crate::parser::rank(level), 0nat,
{
    match level {
        Level::Or => lemma_binary(tokens, at, Level::And),
        Level::And => lemma_binary(tokens, at, Level::Equality),
        Level::Equality => lemma_binary(tokens, at, Level::Comparison),
        Level::Comparison => lemma_binary(tokens, at, Level::Term),
        Level::Term => lemma_binary(tokens, at, Level::Factor),
        Level::Factor => lemma_unary(tokens, at),
    }
}

pub proof fn lemma_binary(tokens: Seq<Token>, at: int, level: Level)
    requires
        well_formed(tokens),
        0 <= at < tokens.len(),
    ensures
        moved(binary(tokens, at, level), tokens, at),
    decreases tokens.len() - at, crate::parser::rank(level), 2nat,
{
    lemma_operand(tokens, at, level);
    let first = operand(tokens, at, level);
    if let Ok(left) = first.result {
        lemma_more(tokens, first.next, level, left);
    }
}

pub proof fn lemma_more(tokens: Seq<Token>, at: int, level: Level, left: Expr)
    requires
        well_formed(tokens),
        0 <= at < tokens.len(),
    ensures
        at <= more(tokens, at, level, left).next < tokens.len(),
    decreases tokens.len() - at, crate::parser::rank(level), 1nat,
{
    if !at_end(tokens, at) && crate::parser::operator_of(level, tokens[at].kind) {
        lemma_operand(tokens, at + 1, level);
        let second = operand(tokens, at + 1, level);
        if let Ok(right) = second.result {
            lemma_more(tokens, second.next, level, node(level, left, tokens[at], right));
        }
    }
}

pub proof fn lemma_assignment(tokens: Seq<Token>, at: int)
    requires
        well_formed(tokens),
        0 <= at < tokens.len(),
    ensures
        moved(assignment(tokens, at), tokens, at),
    decreases tokens.len() - at, 8nat, 0nat,
{
    lemma_binary(tokens, at, Level::Or);
    let target = binary(tokens, at, Level::Or);
    if target.result is Ok && check(tokens, target.next, TokenKind::Equal) {
        lemma_assignment(tokens, target.next + 1);
    }
}

/// An expression ends inside the tokens and, if it parses, takes at least
/// one token.
pub proof fn lemma_expression(tokens: Seq<Token>, at: int)
    requires
        well_formed(tokens),
        0 <= at < tokens.len(),
    ensures
        moved(expression(tokens, at), tokens, at),
{
    lemma_assignment(tokens, at);
}

pub proof fn lemma_var_declaration(tokens: Seq<Token>, at: int)
    requires
        well_formed(tokens),
        0 <= at < tokens.len(),
    ensures
        moved(var_declaration(tokens, at), tokens, at),
{
    if check(tokens, at, TokenKind::Identifier) && check(tokens, at + 1, TokenKind::Equal) {
        lemma_expression(tokens, at + 2);
    }
}

pub proof fn lemma_terminated(tokens: Seq<Token>, at: int, print: bool)
    requires
        well_formed(tokens),
        0 <= at < tokens.len(),
    ensures
        moved(terminated(tokens, at, print), tokens, at),
{
    lemma_expression(tokens, at);
}

pub proof fn lemma_condition(tokens: Seq<Token>, at: int, open: &'static str, close: &'static str)
    requires
        well_formed(tokens),
        0 <= at < tokens.len(),
    ensures
        moved(condition(tokens, at, open, close), tokens, at),
{
    if check(tokens, at, TokenKind::LeftParen) {
        lemma_expression(tokens, at + 1);
    }
}

pub proof fn lemma_for_clauses(tokens: Seq<Token>, at: int)
    requires
        well_formed(tokens),
        0 <= at < tokens.len(),
    ensures
        moved(for_clauses(tokens, at), tokens, at),
{
    if check(tokens, at, TokenKind::LeftParen) {
        let start = at + 1;
        if !check(tokens, start, TokenKind::Semicolon) {
            if check(tokens, start, TokenKind::Var) {
                lemma_var_declaration(tokens, start + 1);
            } else {
                lemma_terminated(tokens, start, false);
            }
        }
        let first = for_initializer(tokens, start);
        assert(moved(first, tokens, start));
        if first.result is Ok {
            if !check(tokens, first.next, TokenKind::Semicolon) {
                lemma_expression(tokens, first.next);
            }
            let second = for_condition(tokens, first.next);
            assert(moved(second, tokens, first.next));
            if second.result is Ok {
                if !check(tokens, second.next, TokenKind::RightParen) {
                    lemma_expression(tokens, second.next);
                }
                let third = for_increment(tokens, second.next);
                assert(moved(third, tokens, second.next));
            }
        }
    }
}

pub proof fn lemma_statement(tokens: Seq<Token>, at: int)
    requires
        well_formed(tokens),
        0 <= at < tokens.len(),
    ensures
        moved(statement(tokens, at), tokens, at),
    decreases tokens.len() - at, 2nat,
{
    if check(tokens, at, TokenKind::If) {
        lemma_if_statement(tokens, at + 1);
    } else if check(tokens, at, TokenKind::Print) {
        lemma_terminated(tokens, at + 1, true);
    } else if check(tokens, at, TokenKind::LeftBrace) {
        lemma_block_statement(tokens, at + 1, Seq::empty());
    } else if check(tokens, at, TokenKind::While) {
        lemma_while_statement(tokens, at + 1);
    } else if check(tokens, at, TokenKind::For) {
        lemma_for_statement(tokens, at + 1);
    } else {
        lemma_terminated(tokens, at, false);
    }
}

pub proof fn lemma_if_statement(tokens: Seq<Token>, at: int)
    requires
        well_formed(tokens),
        0 <= at < tokens.len(),
    ensures
        moved(if_statement(tokens, at), tokens, at),
    decreases tokens.len() - at, 1nat,
{
    lemma_condition(tokens, at, "Expect '(' after 'if'.", "Expect ')' after if condition.");
    let head = condition(tokens, at, "Expect '(' after 'if'.", "Expect ')' after if condition.");
    if head.result is Ok {
        lemma_statement(tokens, head.next);
        let first = statement(tokens, head.next);
        if first.result is Ok && check(tokens, first.next, TokenKind::Else) {
            lemma_statement(tokens, first.next + 1);
        }
    }
}

pub proof fn lemma_while_statement(tokens: Seq<Token>, at: int)
    requires
        well_formed(tokens),
        0 <= at < tokens.len(),
    ensures
        moved(while_statement(tokens, at), tokens, at),
    decreases tokens.len() - at, 1nat,
{
    lemma_condition(tokens, at, "Expect '(' after 'while'.", "Expect ')' after condition.");
    let head = condition(tokens, at, "Expect '(' after 'while'.", "Expect ')' after condition.");
    if head.result is Ok {
        lemma_statement(tokens, head.next);
    }
}

pub proof fn lemma_for_statement(tokens: Seq<Token>, at: int)
    requires
        well_formed(tokens),
        0 <= at < tokens.len(),
    ensures
        moved(for_statement(tokens, at), tokens, at),
    decreases tokens.len() - at, 1nat,
{
    lemma_for_clauses(tokens, at);
    let head = for_clauses(tokens, at);
    if head.result is Ok {
        lemma_statement(tokens, head.next);
    }
}

pub proof fn lemma_block_statement(tokens: Seq<Token>, at: int, done: Seq<StmtView>)
    requires
        well_formed(tokens),
        0 <= at < tokens.len(),
    ensures
        moved(block_statement(tokens, at, done), tokens, at),
    decreases tokens.len() - at, 4nat,
{
    if !check(tokens, at, TokenKind::RightBrace) && !at_end(tokens, at) {
        lemma_declaration(tokens, at);
        let first = declaration(tokens, at);
        if let Ok(stmt) = first.result {
            lemma_block_statement(tokens, first.next, done.push(stmt));
        }
    }
}

/// A declaration ends inside the tokens; unless it begins at the end token
/// it leaves at least one token behind, whether it parses or not.
pub proof fn lemma_declaration(tokens: Seq<Token>, at: int)
    requires
        well_formed(tokens),
        0 <= at < tokens.len(),
    ensures
        moved(declaration(tokens, at), tokens, at),
        !at_end(tokens, at) ==> at < declaration(tokens, at).next,
    decreases tokens.len() - at, 3nat,
{
    let parsed = if check(tokens, at, TokenKind::Var) {
        lemma_var_declaration(tokens, at + 1);
        var_declaration(tokens, at + 1)
    } else {
        lemma_statement(tokens, at);
        statement(tokens, at)
    };
    if parsed.result is Err {
        if at_end(tokens, parsed.next) {
            lemma_boundary(tokens, parsed.next);
        } else {
            lemma_boundary(tokens, parsed.next + 1);
        }
    }
}

/// A pass gives, for the declaration that it begins with, the statement or
/// the error of that declaration, and after it what the pass from behind
/// that declaration gives.
pub proof fn lemma_program_unfolds(tokens: Seq<Token>, at: int)
    requires
        well_formed(tokens),
        0 <= at < tokens.len(),
        !at_end(tokens, at),
    ensures
        at < declaration(tokens, at).next < tokens.len(),
        match declaration(tokens, at).result {
            Ok(stmt) => program(tokens, at).statements == seq![stmt] + program(
                tokens,
                declaration(tokens, at).next,
            ).statements && program(tokens, at).errors == program(tokens, declaration(tokens, at).next).errors,
            Err(error) => program(tokens, at).statements == program(
                tokens,
                declaration(tokens, at).next,
            ).statements && program(tokens, at).errors == seq![error] + program(
                tokens,
                declaration(tokens, at).next,
            ).errors,
        },
{
    lemma_declaration(tokens, at);
}

/// A syntax error does not hide a later one: if a declaration fails, and
/// the declaration at which parsing goes on fails too, the pass reports
/// both, the earlier one first.
pub proof fn lemma_later_error_reported(tokens: Seq<Token>, at: int)
    requires
        well_formed(tokens),
        0 <= at < tokens.len(),
        !at_end(tokens, at),
        declaration(tokens, at).result is Err,
        !at_end(tokens, declaration(tokens, at).next),
        declaration(tokens, declaration(tokens, at).next).result is Err,
    ensures
        program(tokens, at).errors.len() >= 2,
        program(tokens, at).errors[0] == declaration(tokens, at).result->Err_0,
        program(tokens, at).errors[1] == declaration(tokens, declaration(tokens, at).next).result->Err_0,
{
    let next = declaration(tokens, at).next;
    lemma_program_unfolds(tokens, at);
    lemma_program_unfolds(tokens, next);
}

/// A pass reports an error exactly if one of its declarations fails: with
/// no error, every declaration has its statement.
pub proof fn lemma_errors_or_statements(tokens: Seq<Token>, at: int)
    requires
        well_formed(tokens),
        0 <= at < tokens.len(),
    ensures
        program(tokens, at).errors.len() == 0 <==> forall|p: int|
            started(tokens, at, p) && !at_end(tokens, p) ==> (#[trigger] declaration(tokens, p)).result is Ok,
    decreases tokens.len() - at,
{
    if !at_end(tokens, at) {
        lemma_program_unfolds(tokens, at);
        let next = declaration(tokens, at).next;
        lemma_errors_or_statements(tokens, next);
        assert(started(tokens, at, at));
        assert forall|p: int| started(tokens, at, p) && p != at implies started(tokens, next, p) by {}
        assert forall|p: int| started(tokens, next, p) implies started(tokens, at, p) by {
            lemma_started_later(tokens, next, p);
        }
    } else {
        assert forall|p: int| started(tokens, at, p) implies p == at by {}
    }
}

/// Whether the pass that begins at `at` begins a declaration at `p`.
pub open spec fn started(tokens: Seq<Token>, at: int, p: int) -> bool
    decreases tokens.len() - at,
{
    if p == at {
        true
    } else if 0 <= at < tokens.len() && !at_end(tokens, at) && at < declaration(tokens, at).next <= tokens.len() {
        started(tokens, declaration(tokens, at).next, p)
    } else {
        false
    }
}

/// A pass begins no declaration before its own beginning.
pub proof fn lemma_started_later(tokens: Seq<Token>, at: int, p: int)
    requires
        started(tokens, at, p),
    ensures
        at <= p,
    decreases tokens.len() - at,
{
    if p != at {
        lemma_started_later(tokens, declaration(tokens, at).next, p);
    }
}

} // verus!
