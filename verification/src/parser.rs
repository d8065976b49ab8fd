//! The parser: tokens to statements, by recursive descent.
//!
//! The grammar is stated once, as functions on a sequence of tokens and a
//! position in it; the parser is proved to compute them.

use vstd::prelude::*;
use crate::expr::{Expr, Literal, LiteralBool};
use crate::stmt::{Stmt, StmtView, stmt_views};
use crate::token::{Token, TokenKind};

verus! {

/// A syntax error: what was expected, and the token that was found.
#[derive(Debug)]
pub struct SyntaxError {
    pub message: &'static str,
    pub token: Token,
}

/// The binary operators, by how tightly they bind, loosest first.
#[derive(Clone, Copy, Debug, PartialEq, Eq, Structural)]
pub enum Level {
    Or,
    And,
    Equality,
    Comparison,
    Term,
    Factor,
}

/// What parsing from some position gives: a result, and the position
/// reached. After an error that is the position of the offending token.
pub struct Parsed<T> {
    pub result: Result<T, SyntaxError>,
    pub next: int,
}

/// The last token of the sequence is the end token, and every number and
/// string token carries its value.
pub open spec fn well_formed(tokens: Seq<Token>) -> bool {
    &&& tokens.len() > 0
    &&& tokens.last().kind == TokenKind::Eof
    &&& forall|i: int| 0 <= i < tokens.len() ==> (#[trigger] tokens[i]).carries_value()
}

/// Whether `tokens` are well formed.
pub fn is_well_formed(tokens: &Vec<Token>) -> (answer: bool)
    ensures
        answer == well_formed(tokens@),
{
    let n = tokens.len();
    if n == 0 {
        return false;
    }
    if tokens[n - 1].kind != TokenKind::Eof {
        return false;
    }
    let mut i: usize = 0;
    while i < n
        invariant
            n == tokens@.len(),
            i <= n,
            forall|k: int| 0 <= k < i ==> (#[trigger] tokens@[k]).carries_value(),
        decreases n - i,
    {
        let carries = match tokens[i].kind {
            TokenKind::Number => matches!(tokens[i].literal, crate::token::Literal::Number(_)),
            TokenKind::String => matches!(tokens[i].literal, crate::token::Literal::String(_)),
            _ => true,
        };
        if !carries {
            return false;
        }
        i += 1;
    }
    true
}

/// Whether the token at `at` is the end token.
pub open spec fn at_end(tokens: Seq<Token>, at: int) -> bool {
    tokens[at].kind == TokenKind::Eof
}

/// Whether the token at `at` is of `kind`, and not the end token.
pub open spec fn check(tokens: Seq<Token>, at: int, kind: TokenKind) -> bool {
    0 <= at < tokens.len() && !at_end(tokens, at) && tokens[at].kind == kind
}

/// The error at `at`.
pub open spec fn fail<T>(tokens: Seq<Token>, at: int, message: &'static str) -> Parsed<T> {
    Parsed { result: Err(SyntaxError { message, token: tokens[at] }), next: at }
}

/// The operators of a level.
pub open spec fn operator_of(level: Level, kind: TokenKind) -> bool {
    match level {
        Level::Or => kind == TokenKind::Or,
        Level::And => kind == TokenKind::And,
        Level::Equality => kind == TokenKind::EqualEqual || kind == TokenKind::BangEqual,
        Level::Comparison => kind == TokenKind::Greater || kind == TokenKind::GreaterEqual || kind
            == TokenKind::Less || kind == TokenKind::LessEqual,
        Level::Term => kind == TokenKind::Minus || kind == TokenKind::Plus,
        Level::Factor => kind == TokenKind::Slash || kind == TokenKind::Star,
    }
}

/// How tightly a level binds.
pub open spec fn rank(level: Level) -> nat {
    match level {
        Level::Or => 7,
        Level::And => 6,
        Level::Equality => 5,
        Level::Comparison => 4,
        Level::Term => 3,
        Level::Factor => 2,
    }
}

/// The node for `left operator right` at a level: `and` and `or` make a
/// logical node, the others a binary one.
pub open spec fn node(level: Level, left: Expr, operator: Token, right: Expr) -> Expr {
    match level {
        Level::Or => Expr::Logical { left: Box::new(left), operator, right: Box::new(right) },
        Level::And => Expr::Logical { left: Box::new(left), operator, right: Box::new(right) },
        _ => Expr::Binary { left: Box::new(left), operator, right: Box::new(right) },
    }
}

/// The value of a number or string token as a literal expression.
pub open spec fn literal_of(token: Token) -> Expr {
    match token.literal {
        crate::token::Literal::String(s) => Expr::Literal(Literal::String(s)),
        crate::token::Literal::Number(n) => Expr::Literal(Literal::Number(n)),
        _ => Expr::Literal(Literal::Nil),
    }
}

/// `primary := NUMBER | STRING | "true" | "false" | "nil" | IDENTIFIER | "(" expression ")"`
pub open spec fn primary(tokens: Seq<Token>, at: int) -> Parsed<Expr>
    decreases tokens.len() - at, 0nat, 0nat,
{
    if check(tokens, at, TokenKind::False) {
        Parsed { result: Ok(Expr::Literal(Literal::Boolean(LiteralBool::False))), next: at + 1 }
    } else if check(tokens, at, TokenKind::True) {
        Parsed { result: Ok(Expr::Literal(Literal::Boolean(LiteralBool::True))), next: at + 1 }
    } else if check(tokens, at, TokenKind::Nil) {
        Parsed { result: Ok(Expr::Literal(Literal::Nil)), next: at + 1 }
    } else if check(tokens, at, TokenKind::Number) || check(tokens, at, TokenKind::String) {
        Parsed { result: Ok(literal_of(tokens[at])), next: at + 1 }
    } else if check(tokens, at, TokenKind::LeftParen) {
        let inner = assignment(tokens, at + 1);
        match inner.result {
            Ok(expression) => if check(tokens, inner.next, TokenKind::RightParen) {
                Parsed { result: Ok(Expr::Grouping { expression: Box::new(expression) }), next: inner.next + 1 }
            } else {
                fail(tokens, inner.next, "Expect ')' after expression.")
            },
            Err(error) => Parsed { result: Err(error), next: inner.next },
        }
    } else if check(tokens, at, TokenKind::Identifier) {
        Parsed { result: Ok(Expr::Variable { name: tokens[at] }), next: at + 1 }
    } else {
        fail(tokens, at, "Expect expression.")
    }
}

/// `unary := ("!"|"-") unary | primary`
pub open spec fn unary(tokens: Seq<Token>, at: int) -> Parsed<Expr>
    decreases tokens.len() - at, 1nat, 0nat,
{
    if check(tokens, at, TokenKind::Bang) || check(tokens, at, TokenKind::Minus) {
        let operand = unary(tokens, at + 1);
        match operand.result {
            Ok(right) => Parsed {
                result: Ok(Expr::Unary { operator: tokens[at], right: Box::new(right) }),
                next: operand.next,
            },
            Err(error) => Parsed { result: Err(error), next: operand.next },
        }
    } else {
        primary(tokens, at)
    }
}

/// An operand of a binary operator of `level`: an expression of the next
/// tighter level.
pub open spec fn operand(tokens: Seq<Token>, at: int, level: Level) -> Parsed<Expr>
    decreases tokens.len() - at, rank(level), 0nat,
{
    match level {
        Level::Or => binary(tokens, at, Level::And),
        Level::And => binary(tokens, at, Level::Equality),
        Level::Equality => binary(tokens, at, Level::Comparison),
        Level::Comparison => binary(tokens, at, Level::Term),
        Level::Term => binary(tokens, at, Level::Factor),
        Level::Factor => unary(tokens, at),
    }
}

/// `level := operand (operator operand)*`, folded to the left.
pub open spec fn binary(tokens: Seq<Token>, at: int, level: Level) -> Parsed<Expr>
    decreases tokens.len() - at, rank(level), 2nat,
{
    let first = operand(tokens, at, level);
    match first.result {
        Ok(left) => if at <= first.next <= tokens.len() {
            more(tokens, first.next, level, left)
        } else {
            first
        },
        Err(_) => first,
    }
}

/// The rest of a level after `left`: as long as an operator of the level
/// follows, the operand after it is joined to what came before.
pub open spec fn more(tokens: Seq<Token>, at: int, level: Level, left: Expr) -> Parsed<Expr>
    decreases tokens.len() - at, rank(level), 1nat,
{
    if 0 <= at < tokens.len() && !at_end(tokens, at) && operator_of(level, tokens[at].kind) {
        let second = operand(tokens, at + 1, level);
        match second.result {
            Ok(right) => if at < second.next <= tokens.len() {
                more(tokens, second.next, level, node(level, left, tokens[at], right))
            } else {
                second
            },
            Err(_) => second,
        }
    } else {
        Parsed { result: Ok(left), next: at }
    }
}

/// `assignment := logic_or ("=" assignment)?`, where the left side of `=`
/// must be a variable.
pub open spec fn assignment(tokens: Seq<Token>, at: int) -> Parsed<Expr>
    decreases tokens.len() - at, 8nat, 0nat,
{
    let target = binary(tokens, at, Level::Or);
    match target.result {
        Ok(left) => if at <= target.next && check(tokens, target.next, TokenKind::Equal) {
            let source = assignment(tokens, target.next + 1);
            match source.result {
                Ok(value) => match left {
                    Expr::Variable { name } => Parsed {
                        result: Ok(Expr::Assign { name, value: Box::new(value) }),
                        next: source.next,
                    },
                    _ => Parsed {
                        result: Err(
                            SyntaxError { message: "Invalid assignment target.", token: tokens[target.next] },
                        ),
                        next: source.next,
                    },
                },
                Err(_) => source,
            }
        } else {
            target
        },
        Err(_) => target,
    }
}

/// `expression := assignment`
pub open spec fn expression(tokens: Seq<Token>, at: int) -> Parsed<Expr> {
    assignment(tokens, at)
}

/// `"var" IDENTIFIER ("=" expression)? ";"`, from after `var`. Without an
/// initializer the variable is `nil`.
pub open spec fn var_declaration(tokens: Seq<Token>, at: int) -> Parsed<StmtView> {
    if !check(tokens, at, TokenKind::Identifier) {
        fail(tokens, at, "Expect variable name.")
    } else {
        let value = if check(tokens, at + 1, TokenKind::Equal) {
            expression(tokens, at + 2)
        } else {
            Parsed { result: Ok(Expr::Literal(Literal::Nil)), next: at + 1 }
        };
        match value.result {
            Ok(initializer) => if check(tokens, value.next, TokenKind::Semicolon) {
                Parsed { result: Ok(StmtView::Var { name: tokens[at], initializer }), next: value.next + 1 }
            } else {
                fail(tokens, value.next, "Expect ';' after variable declaration.")
            },
            Err(error) => Parsed { result: Err(error), next: value.next },
        }
    }
}

/// `expression ";"`: a print statement if `print` is set, an expression
/// statement if not.
pub open spec fn terminated(tokens: Seq<Token>, at: int, print: bool) -> Parsed<StmtView> {
    let value = expression(tokens, at);
    match value.result {
        Ok(expr) => if check(tokens, value.next, TokenKind::Semicolon) {
            Parsed {
                result: Ok(
                    if print {
                        StmtView::Print(expr)
                    } else {
                        StmtView::Expr(expr)
                    },
                ),
                next: value.next + 1,
            }
        } else {
            fail(
                tokens,
                value.next,
                if print {
                    "Expect ';' after expression."
                } else {
                    "Expect ';' after expression statement."
                },
            )
        },
        Err(error) => Parsed { result: Err(error), next: value.next },
    }
}

/// `printStmt := "print" expression ";"`, from after `print`.
pub open spec fn print_statement(tokens: Seq<Token>, at: int) -> Parsed<StmtView> {
    terminated(tokens, at, true)
}

/// `exprStmt := expression ";"`
pub open spec fn expression_statement(tokens: Seq<Token>, at: int) -> Parsed<StmtView> {
    terminated(tokens, at, false)
}

/// `"(" expression ")"`, as `if` and `while` have it.
pub open spec fn condition(tokens: Seq<Token>, at: int, open: &'static str, close: &'static str) -> Parsed<Expr> {
    if !check(tokens, at, TokenKind::LeftParen) {
        fail(tokens, at, open)
    } else {
        let value = expression(tokens, at + 1);
        match value.result {
            Ok(expr) => if check(tokens, value.next, TokenKind::RightParen) {
                Parsed { result: Ok(expr), next: value.next + 1 }
            } else {
                fail(tokens, value.next, close)
            },
            Err(_) => value,
        }
    }
}

/// The three clauses of a `for`, without its body.
pub struct Clauses {
    pub initializer: Option<StmtView>,
    pub condition: Expr,
    pub increment: Option<Expr>,
}

/// The first clause of a `for`: nothing, a variable declaration or an
/// expression statement.
pub open spec fn for_initializer(tokens: Seq<Token>, at: int) -> Parsed<Option<StmtView>> {
    if check(tokens, at, TokenKind::Semicolon) {
        Parsed { result: Ok(None), next: at + 1 }
    } else {
        let first = if check(tokens, at, TokenKind::Var) {
            var_declaration(tokens, at + 1)
        } else {
            expression_statement(tokens, at)
        };
        match first.result {
            Ok(stmt) => Parsed { result: Ok(Some(stmt)), next: first.next },
            Err(error) => Parsed { result: Err(error), next: first.next },
        }
    }
}

/// The second clause of a `for`: a condition, `true` if there is none.
pub open spec fn for_condition(tokens: Seq<Token>, at: int) -> Parsed<Expr> {
    let value = if !check(tokens, at, TokenKind::Semicolon) {
        expression(tokens, at)
    } else {
        Parsed { result: Ok(Expr::Literal(Literal::Boolean(LiteralBool::True))), next: at }
    };
    match value.result {
        Ok(expr) => if check(tokens, value.next, TokenKind::Semicolon) {
            Parsed { result: Ok(expr), next: value.next + 1 }
        } else {
            fail(tokens, value.next, "Expect ';' after loop condition.")
        },
        Err(_) => value,
    }
}

/// The third clause of a `for`: an expression or nothing.
pub open spec fn for_increment(tokens: Seq<Token>, at: int) -> Parsed<Option<Expr>> {
    let value: Parsed<Option<Expr>> = if !check(tokens, at, TokenKind::RightParen) {
        let step = expression(tokens, at);
        match step.result {
            Ok(expr) => Parsed { result: Ok(Some(expr)), next: step.next },
            Err(error) => Parsed { result: Err(error), next: step.next },
        }
    } else {
        Parsed { result: Ok(None), next: at }
    };
    match value.result {
        Ok(_) => if check(tokens, value.next, TokenKind::RightParen) {
            Parsed { result: value.result, next: value.next + 1 }
        } else {
            fail(tokens, value.next, "Expect ')' after for clauses.")
        },
        Err(_) => value,
    }
}

/// `"(" (varDecl|exprStmt|";") expression? ";" expression? ")"`
pub open spec fn for_clauses(tokens: Seq<Token>, at: int) -> Parsed<Clauses> {
    if !check(tokens, at, TokenKind::LeftParen) {
        fail(tokens, at, "Expect '(' after 'for'.")
    } else {
        let first = for_initializer(tokens, at + 1);
        match first.result {
            Ok(initializer) => {
                let second = for_condition(tokens, first.next);
                match second.result {
                    Ok(condition) => {
                        let third = for_increment(tokens, second.next);
                        match third.result {
                            Ok(increment) => Parsed {
                                result: Ok(Clauses { initializer, condition, increment }),
                                next: third.next,
                            },
                            Err(error) => Parsed { result: Err(error), next: third.next },
                        }
                    },
                    Err(error) => Parsed { result: Err(error), next: second.next },
                }
            },
            Err(error) => Parsed { result: Err(error), next: first.next },
        }
    }
}

/// What a `for` stands for: `{ initializer; while (condition) { body; increment } }`,
/// without the parts that are not there.
pub open spec fn desugared(clauses: Clauses, body: StmtView) -> StmtView {
    let repeated = match clauses.increment {
        Some(increment) => StmtView::Block(seq![body, StmtView::Expr(increment)]),
        None => body,
    };
    let whole = StmtView::While { condition: clauses.condition, body: Box::new(repeated) };
    match clauses.initializer {
        Some(initializer) => StmtView::Block(seq![initializer, whole]),
        None => whole,
    }
}

/// `statement := exprStmt | printStmt | block | ifStmt | whileStmt | forStmt`
pub open spec fn statement(tokens: Seq<Token>, at: int) -> Parsed<StmtView>
    decreases tokens.len() - at, 2nat,
{
    if check(tokens, at, TokenKind::If) {
        if_statement(tokens, at + 1)
    } else if check(tokens, at, TokenKind::Print) {
        print_statement(tokens, at + 1)
    } else if check(tokens, at, TokenKind::LeftBrace) {
        block_statement(tokens, at + 1, Seq::empty())
    } else if check(tokens, at, TokenKind::While) {
        while_statement(tokens, at + 1)
    } else if check(tokens, at, TokenKind::For) {
        for_statement(tokens, at + 1)
    } else {
        expression_statement(tokens, at)
    }
}

/// `ifStmt := "if" "(" expression ")" statement ("else" statement)?`, from
/// after `if`.
pub open spec fn if_statement(tokens: Seq<Token>, at: int) -> Parsed<StmtView>
    decreases tokens.len() - at, 1nat,
{
    let head = condition(tokens, at, "Expect '(' after 'if'.", "Expect ')' after if condition.");
    match head.result {
        Ok(condition) => if at < head.next <= tokens.len() {
            let first = statement(tokens, head.next);
            match first.result {
                Ok(then_branch) => if head.next < first.next <= tokens.len() && check(
                    tokens,
                    first.next,
                    TokenKind::Else,
                ) {
                    let second = statement(tokens, first.next + 1);
                    match second.result {
                        Ok(else_branch) => Parsed {
                            result: Ok(
                                StmtView::If {
                                    condition,
                                    then_branch: Box::new(then_branch),
                                    else_branch: Some(Box::new(else_branch)),
                                },
                            ),
                            next: second.next,
                        },
                        Err(_) => second,
                    }
                } else {
                    Parsed {
                        result: Ok(
                            StmtView::If { condition, then_branch: Box::new(then_branch), else_branch: None },
                        ),
                        next: first.next,
                    }
                },
                Err(_) => first,
            }
        } else {
            Parsed { result: Err(head.result->Err_0), next: head.next }
        },
        Err(error) => Parsed { result: Err(error), next: head.next },
    }
}

/// `whileStmt := "while" "(" expression ")" statement`, from after `while`.
pub open spec fn while_statement(tokens: Seq<Token>, at: int) -> Parsed<StmtView>
    decreases tokens.len() - at, 1nat,
{
    let head = condition(tokens, at, "Expect '(' after 'while'.", "Expect ')' after condition.");
    match head.result {
        Ok(condition) => if at < head.next <= tokens.len() {
            let inner = statement(tokens, head.next);
            match inner.result {
                Ok(body) => Parsed {
                    result: Ok(StmtView::While { condition, body: Box::new(body) }),
                    next: inner.next,
                },
                Err(_) => inner,
            }
        } else {
            Parsed { result: Err(head.result->Err_0), next: head.next }
        },
        Err(error) => Parsed { result: Err(error), next: head.next },
    }
}

/// `forStmt := "for" "(" (varDecl|exprStmt|";") expression? ";" expression? ")" statement`,
/// from after `for`.
pub open spec fn for_statement(tokens: Seq<Token>, at: int) -> Parsed<StmtView>
    decreases tokens.len() - at, 1nat,
{
    let head = for_clauses(tokens, at);
    match head.result {
        Ok(clauses) => if at < head.next <= tokens.len() {
            let inner = statement(tokens, head.next);
            match inner.result {
                Ok(body) => Parsed { result: Ok(desugared(clauses, body)), next: inner.next },
                Err(_) => inner,
            }
        } else {
            Parsed { result: Err(head.result->Err_0), next: head.next }
        },
        Err(error) => Parsed { result: Err(error), next: head.next },
    }
}

/// `block := "{" declaration* "}"`, from after `{` and the declarations
/// `done` so far.
pub open spec fn block_statement(tokens: Seq<Token>, at: int, done: Seq<StmtView>) -> Parsed<StmtView>
    decreases tokens.len() - at, 4nat,
{
    if check(tokens, at, TokenKind::RightBrace) {
        Parsed { result: Ok(StmtView::Block(done)), next: at + 1 }
    } else if 0 <= at < tokens.len() && !at_end(tokens, at) {
        let first = declaration(tokens, at);
        match first.result {
            Ok(stmt) => if at < first.next <= tokens.len() {
                block_statement(tokens, first.next, done.push(stmt))
            } else {
                first
            },
            Err(_) => first,
        }
    } else {
        fail(tokens, at, "Expect '}' after block.")
    }
}

/// `declaration := "var" IDENTIFIER ("=" expression)? ";" | statement`.
/// After an error the parser synchronizes.
pub open spec fn declaration(tokens: Seq<Token>, at: int) -> Parsed<StmtView>
    decreases tokens.len() - at, 3nat,
{
    let parsed = if check(tokens, at, TokenKind::Var) {
        var_declaration(tokens, at + 1)
    } else {
        statement(tokens, at)
    };
    match parsed.result {
        Ok(_) => parsed,
        Err(error) => Parsed { result: Err(error), next: synchronize(tokens, parsed.next) },
    }
}

/// The kinds of token that begin a statement.
pub open spec fn starts_statement(kind: TokenKind) -> bool {
    kind == TokenKind::Class || kind == TokenKind::Fun || kind == TokenKind::Var || kind == TokenKind::For
        || kind == TokenKind::If || kind == TokenKind::While || kind == TokenKind::Print || kind
        == TokenKind::Return
}

/// The first position at or after `at` where parsing can go on: the end,
/// just after a semicolon, or before a token that begins a statement.
pub open spec fn boundary(tokens: Seq<Token>, at: int) -> int
    decreases tokens.len() - at,
{
    if !(0 < at < tokens.len()) || at_end(tokens, at) {
        at
    } else if tokens[at - 1].kind == TokenKind::Semicolon {
        at
    } else if starts_statement(tokens[at].kind) {
        at
    } else {
        boundary(tokens, at + 1)
    }
}

/// Where parsing goes on after an error at `at`: the offending token is
/// dropped, and the tokens after it up to the next boundary.
pub open spec fn synchronize(tokens: Seq<Token>, at: int) -> int {
    if at_end(tokens, at) {
        boundary(tokens, at)
    } else {
        boundary(tokens, at + 1)
    }
}

/// What one pass over the tokens gives.
pub struct Program {
    pub statements: Seq<StmtView>,
    pub errors: Seq<SyntaxError>,
}

/// `program := declaration* EOF`: the statements of the declarations that
/// parse, and the errors of those that do not, each in order.
pub open spec fn program(tokens: Seq<Token>, at: int) -> Program
    decreases tokens.len() - at,
{
    if !(0 <= at < tokens.len()) || at_end(tokens, at) {
        Program { statements: Seq::empty(), errors: Seq::empty() }
    } else {
        let first = declaration(tokens, at);
        if at < first.next <= tokens.len() {
            let rest = program(tokens, first.next);
            match first.result {
                Ok(stmt) => Program { statements: seq![stmt] + rest.statements, errors: rest.errors },
                Err(error) => Program { statements: rest.statements, errors: seq![error] + rest.errors },
            }
        } else {
            Program { statements: Seq::empty(), errors: Seq::empty() }
        }
    }
}

/// The boundary after an error lies at or after the error, inside the
/// tokens.
pub proof fn lemma_boundary(tokens: Seq<Token>, at: int)
    requires
        0 <= at < tokens.len(),
        tokens.last().kind == TokenKind::Eof,
    ensures
        at <= boundary(tokens, at) < tokens.len(),
    decreases tokens.len() - at,
{
    if 0 < at && !at_end(tokens, at) && tokens[at - 1].kind != TokenKind::Semicolon && !starts_statement(
        tokens[at].kind,
    ) {
        lemma_boundary(tokens, at + 1);
    }
}

/// The model of a block is the sequence of its statements' models.
pub proof fn lemma_block_view(statements: Vec<Stmt>)
    ensures
        Stmt::Block(statements)@ == StmtView::Block(stmt_views(statements@)),
{
    assert(Stmt::Block(statements).model()->Block_0 =~= stmt_views(statements@));
}

/// The parser's state: the tokens and the position reached in them.
pub struct Parser<'a> {
    tokens: &'a Vec<Token>,
    current: usize,
}

impl<'a> Parser<'a> {
    /// The tokens are well formed and the position is inside them.
    pub open spec fn wf(&self) -> bool {
        &&& well_formed(self.tokens())
        &&& 0 <= self.position() < self.tokens().len() <= usize::MAX
    }

    /// The tokens being parsed.
    pub closed spec fn tokens(&self) -> Seq<Token> {
        self.tokens@
    }

    /// The position reached.
    pub closed spec fn position(&self) -> int {
        self.current as int
    }

    /// A parser at the start of `tokens`.
    pub fn new(tokens: &'a Vec<Token>) -> (parser: Self)
        requires
            well_formed(tokens@),
        ensures
            parser.wf(),
            parser.tokens() == tokens@,
            parser.position() == 0,
    {
        let _ = tokens.len();
        Self { tokens, current: 0 }
    }

    /// What was parsed, with the position reached.
    pub open spec fn parsed<T>(&self, result: Result<T, SyntaxError>) -> Parsed<T> {
        Parsed { result, next: self.position() }
    }

    /// What was parsed, with the position reached: a statement by its model.
    pub open spec fn parsed_stmt(&self, result: Result<Stmt, SyntaxError>) -> Parsed<StmtView> {
        Parsed {
            result: match result {
                Ok(stmt) => Ok(stmt@),
                Err(error) => Err(error),
            },
            next: self.position(),
        }
    }

    /// Parses the tokens from the position reached to the end. With no
    /// syntax error the statements are returned; otherwise all the errors
    /// are, in the order in which they were found.
    pub fn parse(&mut self) -> (result: Result<Vec<Stmt>, Vec<SyntaxError>>)
        requires
            old(self).wf(),
        ensures
            final(self).wf(),
            final(self).tokens() == old(self).tokens(),
            at_end(final(self).tokens(), final(self).position()),
            match result {
                Ok(statements) => program(old(self).tokens(), old(self).position()).errors.len() == 0
                    && stmt_views(statements@) == program(old(self).tokens(), old(self).position()).statements,
                Err(errors) => errors@.len() > 0 && errors@ == program(
                    old(self).tokens(),
                    old(self).position(),
                ).errors,
            },
    {
        let mut statements: Vec<Stmt> = Vec::new();
        let mut errors: Vec<SyntaxError> = Vec::new();
        let ghost goal = program(self.tokens@, self.current as int);
        assert(stmt_views(statements@) =~= Seq::empty());
        while !self.at_end()
            invariant
                self.wf(),
                self.tokens@ == old(self).tokens@,
                stmt_views(statements@) + program(self.tokens@, self.current as int).statements == goal.statements,
                errors@ + program(self.tokens@, self.current as int).errors == goal.errors,
            decreases self.tokens@.len() - self.current,
        {
            let ghost rest = program(self.tokens@, self.current as int);
            let ghost before = stmt_views(statements@);
            let ghost found = errors@;
            match self.declaration() {
                Ok(stmt) => {
                    proof {
                        let after = program(self.tokens@, self.current as int);
                        assert(stmt_views(statements@.push(stmt)) =~= before.push(stmt@));
                        assert(before.push(stmt@) + after.statements =~= before + (seq![stmt@]
                            + after.statements));
                    }
                    statements.push(stmt);
                },
                Err(error) => {
                    proof {
                        let after = program(self.tokens@, self.current as int);
                        assert(found.push(error) + after.errors =~= found + (seq![error] + after.errors));
                    }
                    errors.push(error);
                },
            }
        }
        proof {
            assert(stmt_views(statements@) =~= goal.statements);
            assert(errors@ =~= goal.errors);
        }
        if errors.len() == 0 {
            Ok(statements)
        } else {
            Err(errors)
        }
    }

    pub fn declaration(&mut self) -> (result: Result<Stmt, SyntaxError>)
        requires
            old(self).wf(),
        ensures
            final(self).wf(),
            final(self).tokens() == old(self).tokens(),
            old(self).position() <= final(self).position(),
            !at_end(old(self).tokens(), old(self).position()) ==> old(self).position() < final(self).position(),
            final(self).parsed_stmt(result) == declaration(old(self).tokens(), old(self).position()),
        decreases old(self).tokens().len() - old(self).position(), 3nat,
    {
        let parsed = if self.match_kinds(&[TokenKind::Var]) {
            self.var_declaration()
        } else {
            self.statement()
        };
        match parsed {
            Ok(stmt) => Ok(stmt),
            Err(error) => {
                self.synchronize();
                Err(error)
            },
        }
    }

    pub fn var_declaration(&mut self) -> (result: Result<Stmt, SyntaxError>)
        requires
            old(self).wf(),
        ensures
            final(self).wf(),
            final(self).tokens() == old(self).tokens(),
            old(self).position() <= final(self).position(),
            result is Ok ==> old(self).position() < final(self).position(),
            final(self).parsed_stmt(result) == var_declaration(old(self).tokens(), old(self).position()),
    {
        let name = self.consume(TokenKind::Identifier, "Expect variable name.")?.clone();
        let initializer = if self.match_kinds(&[TokenKind::Equal]) {
            self.expression()?
        } else {
            Expr::literal(Literal::Nil)
        };
        self.consume(TokenKind::Semicolon, "Expect ';' after variable declaration.")?;
        Ok(Stmt::Var { name, initializer })
    }

    pub fn statement(&mut self) -> (result: Result<Stmt, SyntaxError>)
        requires
            old(self).wf(),
        ensures
            final(self).wf(),
            final(self).tokens() == old(self).tokens(),
            old(self).position() <= final(self).position(),
            result is Ok ==> old(self).position() < final(self).position(),
            final(self).parsed_stmt(result) == statement(old(self).tokens(), old(self).position()),
        decreases old(self).tokens().len() - old(self).position(), 2nat,
    {
        if self.match_kinds(&[TokenKind::If]) {
            return self.if_statement();
        }
        if self.match_kinds(&[TokenKind::Print]) {
            return self.print_statement();
        }
        if self.match_kinds(&[TokenKind::LeftBrace]) {
            return self.block_statement();
        }
        if self.match_kinds(&[TokenKind::While]) {
            return self.while_statement();
        }
        if self.match_kinds(&[TokenKind::For]) {
            return self.for_statement();
        }
        self.expression_statement()
    }

    /// A condition in parentheses.
    fn condition(&mut self, open: &'static str, close: &'static str) -> (result: Result<Expr, SyntaxError>)
        requires
            old(self).wf(),
        ensures
            final(self).wf(),
            final(self).tokens@ == old(self).tokens@,
            old(self).current <= final(self).current,
            result is Ok ==> old(self).current < final(self).current,
            final(self).parsed(result) == condition(old(self).tokens@, old(self).current as int, open, close),
    {
        self.consume(TokenKind::LeftParen, open)?;
        let condition = self.expression()?;
        self.consume(TokenKind::RightParen, close)?;
        Ok(condition)
    }

    pub fn if_statement(&mut self) -> (result: Result<Stmt, SyntaxError>)
        requires
            old(self).wf(),
        ensures
            final(self).wf(),
            final(self).tokens() == old(self).tokens(),
            old(self).position() <= final(self).position(),
            result is Ok ==> old(self).position() < final(self).position(),
            final(self).parsed_stmt(result) == if_statement(old(self).tokens(), old(self).position()),
        decreases old(self).tokens().len() - old(self).position(), 1nat,
    {
        let condition = self.condition("Expect '(' after 'if'.", "Expect ')' after if condition.")?;
        let then_branch = Box::new(self.statement()?);
        let else_branch = if self.match_kinds(&[TokenKind::Else]) {
            Some(Box::new(self.statement()?))
        } else {
            None
        };
        Ok(Stmt::If { condition, then_branch, else_branch })
    }

    /// The first clause of a `for`.
    fn for_initializer(&mut self) -> (result: Result<Option<Stmt>, SyntaxError>)
        requires
            old(self).wf(),
        ensures
            final(self).wf(),
            final(self).tokens@ == old(self).tokens@,
            old(self).current <= final(self).current,
            result is Ok ==> old(self).current < final(self).current,
            final(self).current == for_initializer(old(self).tokens@, old(self).current as int).next,
            match (result, for_initializer(old(self).tokens@, old(self).current as int).result) {
                (Ok(Some(stmt)), Ok(Some(view))) => stmt@ == view,
                (Ok(None), Ok(None)) => true,
                (Err(error), Err(expected)) => error == expected,
                _ => false,
            },
    {
        if self.match_kinds(&[TokenKind::Semicolon]) {
            Ok(None)
        } else if self.match_kinds(&[TokenKind::Var]) {
            Ok(Some(self.var_declaration()?))
        } else {
            Ok(Some(self.expression_statement()?))
        }
    }

    /// The second clause of a `for`.
    fn for_condition(&mut self) -> (result: Result<Expr, SyntaxError>)
        requires
            old(self).wf(),
        ensures
            final(self).wf(),
            final(self).tokens@ == old(self).tokens@,
            old(self).current <= final(self).current,
            final(self).parsed(result) == for_condition(old(self).tokens@, old(self).current as int),
    {
        let condition = if !self.check(TokenKind::Semicolon) {
            self.expression()?
        } else {
            Expr::Literal(Literal::Boolean(LiteralBool::True))
        };
        self.consume(TokenKind::Semicolon, "Expect ';' after loop condition.")?;
        Ok(condition)
    }

    /// The third clause of a `for`.
    fn for_increment(&mut self) -> (result: Result<Option<Expr>, SyntaxError>)
        requires
            old(self).wf(),
        ensures
            final(self).wf(),
            final(self).tokens@ == old(self).tokens@,
            old(self).current <= final(self).current,
            final(self).parsed(result) == for_increment(old(self).tokens@, old(self).current as int),
    {
        let increment = if !self.check(TokenKind::RightParen) {
            Some(self.expression()?)
        } else {
            None
        };
        self.consume(TokenKind::RightParen, "Expect ')' after for clauses.")?;
        Ok(increment)
    }

    pub fn for_statement(&mut self) -> (result: Result<Stmt, SyntaxError>)
        requires
            old(self).wf(),
        ensures
            final(self).wf(),
            final(self).tokens() == old(self).tokens(),
            old(self).position() <= final(self).position(),
            result is Ok ==> old(self).position() < final(self).position(),
            final(self).parsed_stmt(result) == for_statement(old(self).tokens(), old(self).position()),
        decreases old(self).tokens().len() - old(self).position(), 1nat,
    {
        self.consume(TokenKind::LeftParen, "Expect '(' after 'for'.")?;
        let initializer = self.for_initializer()?;
        let condition = self.for_condition()?;
        let increment = self.for_increment()?;
        let ghost clauses = for_clauses(old(self).tokens@, old(self).current as int).result->Ok_0;
        let mut body = self.statement()?;
        let ghost inner = body@;
        if let Some(inc) = increment {
            let mut both: Vec<Stmt> = Vec::new();
            both.push(body);
            both.push(Stmt::Expr(inc));
            proof {
                lemma_block_view(both);
                assert(stmt_views(both@) =~= seq![inner, StmtView::Expr(inc)]);
            }
            body = Stmt::Block(both);
        }
        body = Stmt::While { condition, body: Box::new(body) };
        let ghost whole = body@;
        if let Some(init) = initializer {
            let mut both: Vec<Stmt> = Vec::new();
            let ghost first = init@;
            both.push(init);
            both.push(body);
            proof {
                lemma_block_view(both);
                assert(stmt_views(both@) =~= seq![first, whole]);
            }
            body = Stmt::Block(both);
        }
        proof {
            assert(body@ == desugared(clauses, inner));
        }
        Ok(body)
    }

    pub fn while_statement(&mut self) -> (result: Result<Stmt, SyntaxError>)
        requires
            old(self).wf(),
        ensures
            final(self).wf(),
            final(self).tokens() == old(self).tokens(),
            old(self).position() <= final(self).position(),
            result is Ok ==> old(self).position() < final(self).position(),
            final(self).parsed_stmt(result) == while_statement(old(self).tokens(), old(self).position()),
        decreases old(self).tokens().len() - old(self).position(), 1nat,
    {
        let condition = self.condition("Expect '(' after 'while'.", "Expect ')' after condition.")?;
        let body = Box::new(self.statement()?);
        Ok(Stmt::While { condition, body })
    }

    pub fn block_statement(&mut self) -> (result: Result<Stmt, SyntaxError>)
        requires
            old(self).wf(),
        ensures
            final(self).wf(),
            final(self).tokens() == old(self).tokens(),
            old(self).position() <= final(self).position(),
            result is Ok ==> old(self).position() < final(self).position(),
            final(self).parsed_stmt(result) == block_statement(
                old(self).tokens(),
                old(self).position(),
                Seq::empty(),
            ),
        decreases old(self).tokens().len() - old(self).position(), 5nat,
    {
        let mut statements: Vec<Stmt> = Vec::new();
        let ghost goal = block_statement(self.tokens@, self.current as int, Seq::empty());
        assert(stmt_views(statements@) =~= Seq::empty());
        while !self.check(TokenKind::RightBrace) && !self.at_end()
            invariant
                self.wf(),
                self.tokens@ == old(self).tokens@,
                old(self).current <= self.current,
                block_statement(self.tokens@, self.current as int, stmt_views(statements@)) == goal,
                goal == block_statement(old(self).tokens@, old(self).current as int, Seq::empty()),
            decreases self.tokens@.len() - self.current,
        {
            let ghost before = stmt_views(statements@);
            let stmt = self.declaration()?;
            proof {
                assert(stmt_views(statements@.push(stmt)) =~= before.push(stmt@));
            }
            statements.push(stmt);
        }
        self.consume(TokenKind::RightBrace, "Expect '}' after block.")?;
        proof {
            lemma_block_view(statements);
        }
        Ok(Stmt::Block(statements))
    }

    pub fn print_statement(&mut self) -> (result: Result<Stmt, SyntaxError>)
        requires
            old(self).wf(),
        ensures
            final(self).wf(),
            final(self).tokens() == old(self).tokens(),
            old(self).position() <= final(self).position(),
            result is Ok ==> old(self).position() < final(self).position(),
            final(self).parsed_stmt(result) == print_statement(old(self).tokens(), old(self).position()),
    {
        let expr = self.expression()?;
        self.consume(TokenKind::Semicolon, "Expect ';' after expression.")?;
        Ok(Stmt::Print(expr))
    }

    pub fn expression_statement(&mut self) -> (result: Result<Stmt, SyntaxError>)
        requires
            old(self).wf(),
        ensures
            final(self).wf(),
            final(self).tokens() == old(self).tokens(),
            old(self).position() <= final(self).position(),
            result is Ok ==> old(self).position() < final(self).position(),
            final(self).parsed_stmt(result) == expression_statement(old(self).tokens(), old(self).position()),
    {
        let expr = self.expression()?;
        self.consume(TokenKind::Semicolon, "Expect ';' after expression statement.")?;
        Ok(Stmt::Expr(expr))
    }

    /// After an error: drops the offending token and those after it up to
    /// the next place where a statement may begin.
    pub fn synchronize(&mut self)
        requires
            old(self).wf(),
        ensures
            final(self).wf(),
            final(self).tokens() == old(self).tokens(),
            final(self).position() == synchronize(old(self).tokens(), old(self).position()),
            old(self).position() <= final(self).position(),
            !at_end(old(self).tokens(), old(self).position()) ==> old(self).position() < final(self).position(),
    {
        self.advance();
        proof {
            lemma_boundary(self.tokens@, self.current as int);
        }
        while !self.at_end()
            invariant
                self.wf(),
                self.tokens@ == old(self).tokens@,
                self.current > 0 || at_end(self.tokens@, self.current as int),
                boundary(self.tokens@, self.current as int) == synchronize(
                    old(self).tokens@,
                    old(self).current as int,
                ),
                old(self).current <= self.current,
                !at_end(old(self).tokens@, old(self).current as int) ==> old(self).current < self.current,
            decreases self.tokens@.len() - self.current,
        {
            if self.previous().kind == TokenKind::Semicolon {
                return ;
            }
            match self.peek().kind {
                TokenKind::Class
                | TokenKind::Fun
                | TokenKind::Var
                | TokenKind::For
                | TokenKind::If
                | TokenKind::While
                | TokenKind::Print
                | TokenKind::Return => {
                    return ;
                },
                _ => {},
            }
            self.advance();
        }
    }

    pub fn expression(&mut self) -> (result: Result<Expr, SyntaxError>)
        requires
            old(self).wf(),
        ensures
            final(self).wf(),
            final(self).tokens() == old(self).tokens(),
            old(self).position() <= final(self).position(),
            result is Ok ==> old(self).position() < final(self).position(),
            final(self).parsed(result) == expression(old(self).tokens(), old(self).position()),
        decreases old(self).tokens().len() - old(self).position(), 9nat, 0nat,
    {
        self.assignment()
    }

    pub fn assignment(&mut self) -> (result: Result<Expr, SyntaxError>)
        requires
            old(self).wf(),
        ensures
            final(self).wf(),
            final(self).tokens() == old(self).tokens(),
            old(self).position() <= final(self).position(),
            result is Ok ==> old(self).position() < final(self).position(),
            final(self).parsed(result) == assignment(old(self).tokens(), old(self).position()),
        decreases old(self).tokens().len() - old(self).position(), 8nat, 0nat,
    {
        let expr = self.or()?;
        if self.match_kinds(&[TokenKind::Equal]) {
            let equals = self.previous().clone();
            let value = self.assignment()?;
            return match expr {
                Expr::Variable { name } => Ok(Expr::Assign { name, value: Box::new(value) }),
                _ => Err(SyntaxError { message: "Invalid assignment target.", token: equals }),
            };
        }
        Ok(expr)
    }

    pub fn or(&mut self) -> (result: Result<Expr, SyntaxError>)
        requires
            old(self).wf(),
        ensures
            final(self).wf(),
            final(self).tokens() == old(self).tokens(),
            old(self).position() <= final(self).position(),
            result is Ok ==> old(self).position() < final(self).position(),
            final(self).parsed(result) == binary(old(self).tokens(), old(self).position(), Level::Or),
        decreases old(self).tokens().len() - old(self).position(), 7nat, 3nat,
    {
        self.level(Level::Or)
    }

    pub fn and(&mut self) -> (result: Result<Expr, SyntaxError>)
        requires
            old(self).wf(),
        ensures
            final(self).wf(),
            final(self).tokens() == old(self).tokens(),
            old(self).position() <= final(self).position(),
            result is Ok ==> old(self).position() < final(self).position(),
            final(self).parsed(result) == binary(old(self).tokens(), old(self).position(), Level::And),
        decreases old(self).tokens().len() - old(self).position(), 6nat, 3nat,
    {
        self.level(Level::And)
    }

    pub fn equality(&mut self) -> (result: Result<Expr, SyntaxError>)
        requires
            old(self).wf(),
        ensures
            final(self).wf(),
            final(self).tokens() == old(self).tokens(),
            old(self).position() <= final(self).position(),
            result is Ok ==> old(self).position() < final(self).position(),
            final(self).parsed(result) == binary(old(self).tokens(), old(self).position(), Level::Equality),
        decreases old(self).tokens().len() - old(self).position(), 5nat, 3nat,
    {
        self.level(Level::Equality)
    }

    pub fn comparison(&mut self) -> (result: Result<Expr, SyntaxError>)
        requires
            old(self).wf(),
        ensures
            final(self).wf(),
            final(self).tokens() == old(self).tokens(),
            old(self).position() <= final(self).position(),
            result is Ok ==> old(self).position() < final(self).position(),
            final(self).parsed(result) == binary(old(self).tokens(), old(self).position(), Level::Comparison),
        decreases old(self).tokens().len() - old(self).position(), 4nat, 3nat,
    {
        self.level(Level::Comparison)
    }

    pub fn term(&mut self) -> (result: Result<Expr, SyntaxError>)
        requires
            old(self).wf(),
        ensures
            final(self).wf(),
            final(self).tokens() == old(self).tokens(),
            old(self).position() <= final(self).position(),
            result is Ok ==> old(self).position() < final(self).position(),
            final(self).parsed(result) == binary(old(self).tokens(), old(self).position(), Level::Term),
        decreases old(self).tokens().len() - old(self).position(), 3nat, 3nat,
    {
        self.level(Level::Term)
    }

    pub fn factor(&mut self) -> (result: Result<Expr, SyntaxError>)
        requires
            old(self).wf(),
        ensures
            final(self).wf(),
            final(self).tokens() == old(self).tokens(),
            old(self).position() <= final(self).position(),
            result is Ok ==> old(self).position() < final(self).position(),
            final(self).parsed(result) == binary(old(self).tokens(), old(self).position(), Level::Factor),
        decreases old(self).tokens().len() - old(self).position(), 2nat, 3nat,
    {
        self.level(Level::Factor)
    }

    /// An operand of an operator of `level`.
    fn operand(&mut self, level: Level) -> (result: Result<Expr, SyntaxError>)
        requires
            old(self).wf(),
        ensures
            final(self).wf(),
            final(self).tokens() == old(self).tokens(),
            old(self).position() <= final(self).position(),
            result is Ok ==> old(self).position() < final(self).position(),
            final(self).parsed(result) == operand(old(self).tokens(), old(self).position(), level),
        decreases old(self).tokens().len() - old(self).position(), rank(level), 0nat,
    {
        match level {
            Level::Or => self.and(),
            Level::And => self.equality(),
            Level::Equality => self.comparison(),
            Level::Comparison => self.term(),
            Level::Term => self.factor(),
            Level::Factor => self.unary(),
        }
    }

    /// Whether the token at the position reached is an operator of `level`;
    /// if it is, it is consumed.
    fn match_operator(&mut self, level: Level) -> (found: bool)
        requires
            old(self).wf(),
        ensures
            final(self).wf(),
            final(self).tokens@ == old(self).tokens@,
            found == (!at_end(old(self).tokens@, old(self).current as int) && operator_of(
                level,
                old(self).tokens@[old(self).current as int].kind,
            )),
            final(self).current == if found {
                old(self).current + 1
            } else {
                old(self).current as int
            },
    {
        match level {
            Level::Or => self.match_kinds(&[TokenKind::Or]),
            Level::And => self.match_kinds(&[TokenKind::And]),
            Level::Equality => self.match_kinds(&[TokenKind::EqualEqual, TokenKind::BangEqual]),
            Level::Comparison => self.match_kinds(
                &[TokenKind::Greater, TokenKind::GreaterEqual, TokenKind::Less, TokenKind::LessEqual],
            ),
            Level::Term => self.match_kinds(&[TokenKind::Minus, TokenKind::Plus]),
            Level::Factor => self.match_kinds(&[TokenKind::Slash, TokenKind::Star]),
        }
    }

    /// An expression of `level`: operands joined by the level's operators,
    /// from the left.
    fn level(&mut self, level: Level) -> (result: Result<Expr, SyntaxError>)
        requires
            old(self).wf(),
        ensures
            final(self).wf(),
            final(self).tokens() == old(self).tokens(),
            old(self).position() <= final(self).position(),
            result is Ok ==> old(self).position() < final(self).position(),
            final(self).parsed(result) == binary(old(self).tokens(), old(self).position(), level),
        decreases old(self).tokens().len() - old(self).position(), rank(level), 2nat,
    {
        let mut expr = self.operand(level)?;
        let ghost goal = binary(self.tokens@, old(self).current as int, level);
        loop
            invariant
                self.wf(),
                self.tokens@ == old(self).tokens@,
                old(self).current < self.current,
                more(self.tokens@, self.current as int, level, expr) == goal,
                goal == binary(old(self).tokens@, old(self).current as int, level),
            ensures
                goal == (Parsed { result: Ok(expr), next: self.current as int }),
            decreases self.tokens@.len() - self.current,
        {
            if !self.match_operator(level) {
                break ;
            }
            let operator = self.previous().clone();
            let right = self.operand(level)?;
            expr = match level {
                Level::Or => Expr::Logical { left: Box::new(expr), operator, right: Box::new(right) },
                Level::And => Expr::Logical { left: Box::new(expr), operator, right: Box::new(right) },
                _ => Expr::binary(expr, operator, right),
            };
        }
        Ok(expr)
    }

    pub fn unary(&mut self) -> (result: Result<Expr, SyntaxError>)
        requires
            old(self).wf(),
        ensures
            final(self).wf(),
            final(self).tokens() == old(self).tokens(),
            old(self).position() <= final(self).position(),
            result is Ok ==> old(self).position() < final(self).position(),
            final(self).parsed(result) == unary(old(self).tokens(), old(self).position()),
        decreases old(self).tokens().len() - old(self).position(), 1nat, 0nat,
    {
        if self.match_kinds(&[TokenKind::Bang, TokenKind::Minus]) {
            let operator = self.previous().clone();
            let right = self.unary()?;
            return Ok(Expr::unary(operator, right));
        }
        self.primary()
    }

    pub fn primary(&mut self) -> (result: Result<Expr, SyntaxError>)
        requires
            old(self).wf(),
        ensures
            final(self).wf(),
            final(self).tokens() == old(self).tokens(),
            old(self).position() <= final(self).position(),
            result is Ok ==> old(self).position() < final(self).position(),
            final(self).parsed(result) == primary(old(self).tokens(), old(self).position()),
        decreases old(self).tokens().len() - old(self).position(), 0nat, 0nat,
    {
        if self.match_kinds(&[TokenKind::False]) {
            return Ok(Expr::Literal(Literal::Boolean(LiteralBool::False)));
        }
        if self.match_kinds(&[TokenKind::True]) {
            return Ok(Expr::Literal(Literal::Boolean(LiteralBool::True)));
        }
        if self.match_kinds(&[TokenKind::Nil]) {
            return Ok(Expr::literal(Literal::Nil));
        }
        if self.match_kinds(&[TokenKind::Number, TokenKind::String]) {
            match &self.previous().literal {
                crate::token::Literal::String(s) => {
                    return Ok(Expr::Literal(Literal::String(s.clone())));
                },
                crate::token::Literal::Number(n) => {
                    return Ok(Expr::Literal(Literal::Number(*n)));
                },
                _ => {
                    return Ok(Expr::Literal(Literal::Nil));
                },
            }
        }
        if self.match_kinds(&[TokenKind::LeftParen]) {
            let expr = self.expression()?;
            self.consume(TokenKind::RightParen, "Expect ')' after expression.")?;
            return Ok(Expr::grouping(expr));
        }
        if self.match_kinds(&[TokenKind::Identifier]) {
            let name = self.previous().clone();
            return Ok(Expr::Variable { name });
        }
        Err(SyntaxError { message: "Expect expression.", token: self.peek().clone() })
    }

    /// Whether the token at the position reached is of one of `kinds`; if it
    /// is, it is consumed.
    fn match_kinds(&mut self, kinds: &[TokenKind]) -> (found: bool)
        requires
            old(self).wf(),
        ensures
            final(self).wf(),
            final(self).tokens@ == old(self).tokens@,
            found == (!at_end(old(self).tokens@, old(self).current as int) && kinds@.contains(
                old(self).tokens@[old(self).current as int].kind,
            )),
            final(self).current == if found {
                old(self).current + 1
            } else {
                old(self).current as int
            },
    {
        let mut i: usize = 0;
        while i < kinds.len()
            invariant
                self.wf(),
                self.tokens@ == old(self).tokens@,
                self.current == old(self).current,
                i <= kinds@.len(),
                forall|k: int| 0 <= k < i ==> !check(self.tokens@, self.current as int, kinds@[k]),
            decreases kinds@.len() - i,
        {
            if self.check(kinds[i]) {
                self.advance();
                return true;
            }
            i += 1;
        }
        false
    }

    /// Consumes the token at the position reached if it is of `kind`, and
    /// fails with `message` if it is not.
    fn consume(&mut self, kind: TokenKind, message: &'static str) -> (result: Result<&Token, SyntaxError>)
        requires
            old(self).wf(),
        ensures
            final(self).wf(),
            final(self).tokens@ == old(self).tokens@,
            check(old(self).tokens@, old(self).current as int, kind) ==> final(self).current == old(self).current
                + 1 && result == Ok::<&Token, SyntaxError>(&old(self).tokens@[old(self).current as int]),
            !check(old(self).tokens@, old(self).current as int, kind) ==> final(self).current == old(
                self,
            ).current && result == Err::<&Token, SyntaxError>(
                SyntaxError { message, token: old(self).tokens@[old(self).current as int] },
            ),
    {
        if self.check(kind) {
            return Ok(self.advance());
        }
        Err(SyntaxError { message, token: self.peek().clone() })
    }

    /// Whether the token at the position reached is of `kind`, and not the
    /// end token.
    fn check(&self, kind: TokenKind) -> (same: bool)
        requires
            self.wf(),
        ensures
            same == check(self.tokens@, self.current as int, kind),
    {
        if self.at_end() {
            return false;
        }
        self.peek().kind == kind
    }

    /// Consumes the token at the position reached, unless it is the end
    /// token, and returns the token before the position reached then.
    fn advance(&mut self) -> (token: &Token)
        requires
            old(self).wf(),
        ensures
            final(self).wf(),
            final(self).tokens@ == old(self).tokens@,
            final(self).current == if at_end(old(self).tokens@, old(self).current as int) {
                old(self).current as int
            } else {
                old(self).current + 1
            },
            final(self).current > 0 ==> *token == final(self).tokens@[final(self).current - 1],
    {
        if !self.at_end() {
            self.current += 1;
        }
        if self.current > 0 {
            self.previous()
        } else {
            self.peek()
        }
    }

    /// Whether the token at the position reached is the end token.
    fn at_end(&self) -> (end: bool)
        requires
            self.wf(),
        ensures
            end == at_end(self.tokens@, self.current as int),
    {
        self.peek().kind == TokenKind::Eof
    }

    /// The token at the position reached.
    fn peek(&self) -> (token: &Token)
        requires
            self.wf(),
        ensures
            *token == self.tokens@[self.current as int],
    {
        &self.tokens[self.current]
    }

    /// The token before the position reached.
    fn previous(&self) -> (token: &Token)
        requires
            self.wf(),
            self.current > 0,
        ensures
            *token == self.tokens@[self.current - 1],
    {
        &self.tokens[self.current - 1]
    }
}

} // verus!
