//! The evaluator: what the operators do to values, and the machine that
//! walks a program.

use vstd::prelude::*;
use vstd::string::StringExecFns;
use crate::consistency::{consistent, lemma_loaded_consistent, lemma_step_consistent};
use crate::environment::{Environment, assigned, defined, lookup, undefined_variable};
use crate::error::{RuntimeError, RuntimeErrorView};
use crate::expr::{Expr, Literal, LiteralBool, LiteralView, Piece, PieceView, printable};
use crate::number;
use crate::stmt::Stmt;
use crate::token::{Token, TokenKind};

verus! {

/// `false` and `nil` are falsy; every other value is truthy.
pub open spec fn truthy(value: LiteralView) -> bool {
    match value {
        LiteralView::Boolean(LiteralBool::False) => false,
        LiteralView::Nil => false,
        _ => true,
    }
}

/// Equality of values: `nil` equals `nil` alone, numbers are equal as
/// doubles are, and strings, truth values and names are equal when they are
/// the same. Values of different kinds are never equal.
pub open spec fn equal(left: LiteralView, right: LiteralView) -> bool {
    match (left, right) {
        (LiteralView::Nil, LiteralView::Nil) => true,
        (LiteralView::Number(l), LiteralView::Number(r)) => number::equal(l, r),
        (LiteralView::String(l), LiteralView::String(r)) => l == r,
        (LiteralView::Boolean(l), LiteralView::Boolean(r)) => l == r,
        (LiteralView::Identifier(l), LiteralView::Identifier(r)) => l == r,
        _ => false,
    }
}

/// The value that stands for a truth value.
pub open spec fn boolean(value: bool) -> LiteralView {
    LiteralView::Boolean(
        if value {
            LiteralBool::True
        } else {
            LiteralBool::False
        },
    )
}

/// The name of a value's kind, as error messages give it.
pub open spec fn kind_name(value: LiteralView) -> Seq<char> {
    match value {
        LiteralView::Number(_) => "Number"@,
        LiteralView::String(_) => "String"@,
        LiteralView::Boolean(_) => "Boolean"@,
        LiteralView::Identifier(_) => "Identifier"@,
        LiteralView::Nil => "Nil"@,
    }
}

/// The error of a negation whose operand is not a number.
pub open spec fn operand_must_be_number(operator: Token, operand: LiteralView) -> RuntimeErrorView {
    RuntimeErrorView { message: "Operand must be a number, got "@ + kind_name(operand), token: Some(operator) }
}

/// The error of an operator that the values at hand do not support.
pub open spec fn unsupported(what: Seq<char>, operator: Token, operands: Seq<char>) -> RuntimeErrorView {
    RuntimeErrorView { message: what + operator.lexeme@ + operands, token: Some(operator) }
}

/// What a unary operator makes of its operand: `-` negates a number and
/// rejects everything else, `!` gives the opposite of the operand's
/// truthiness.
pub open spec fn unary_result(operator: Token, operand: LiteralView) -> Result<LiteralView, RuntimeErrorView> {
    match operator.kind {
        TokenKind::Minus => match operand {
            LiteralView::Number(n) => Ok(LiteralView::Number(number::negated(n))),
            _ => Err(operand_must_be_number(operator, operand)),
        },
        TokenKind::Bang => Ok(boolean(!truthy(operand))),
        _ => Err(unsupported("Unsupported unary operator '"@, operator, "'"@)),
    }
}

/// The four operations on numbers that are not computed here.
#[derive(Clone, Copy, Debug, PartialEq, Eq, Structural)]
pub enum Arithmetic {
    Add,
    Subtract,
    Multiply,
    Divide,
}

/// What a binary operator makes of its operands: a value, or a sum,
/// difference, product or quotient of two doubles that is still to be
/// computed.
#[derive(Debug)]
pub enum Applied {
    Value(Literal),
    Compute { operation: Arithmetic, left: u64, right: u64 },
}

/// The mathematical model of `Applied`.
pub enum AppliedView {
    Value(LiteralView),
    Compute { operation: Arithmetic, left: u64, right: u64 },
}

impl View for Applied {
    type V = AppliedView;

    open spec fn view(&self) -> AppliedView {
        match self {
            Applied::Value(v) => AppliedView::Value(v@),
            Applied::Compute { operation, left, right } => AppliedView::Compute {
                operation: *operation,
                left: *left,
                right: *right,
            },
        }
    }
}

/// A binary operator on two numbers: the comparisons are decided, the
/// arithmetic is handed on.
pub open spec fn binary_on_numbers(operator: Token, left: u64, right: u64) -> Result<
    AppliedView,
    RuntimeErrorView,
> {
    match operator.kind {
        TokenKind::Greater => Ok(AppliedView::Value(boolean(number::less(right, left)))),
        TokenKind::GreaterEqual => Ok(AppliedView::Value(boolean(number::less_equal(right, left)))),
        TokenKind::Less => Ok(AppliedView::Value(boolean(number::less(left, right)))),
        TokenKind::LessEqual => Ok(AppliedView::Value(boolean(number::less_equal(left, right)))),
        TokenKind::BangEqual => Ok(AppliedView::Value(boolean(!number::equal(left, right)))),
        TokenKind::EqualEqual => Ok(AppliedView::Value(boolean(number::equal(left, right)))),
        TokenKind::Plus => Ok(AppliedView::Compute { operation: Arithmetic::Add, left, right }),
        TokenKind::Minus => Ok(AppliedView::Compute { operation: Arithmetic::Subtract, left, right }),
        TokenKind::Slash => Ok(AppliedView::Compute { operation: Arithmetic::Divide, left, right }),
        TokenKind::Star => Ok(AppliedView::Compute { operation: Arithmetic::Multiply, left, right }),
        _ => Err(unsupported("Unsupported binary operator '"@, operator, "' for numbers"@)),
    }
}

/// What a binary operator makes of its operands. Two numbers can be
/// compared and calculated with; two strings can be joined with `+`; any
/// other pair can only be tested with `==` and `!=`.
pub open spec fn binary_result(operator: Token, left: LiteralView, right: LiteralView) -> Result<
    AppliedView,
    RuntimeErrorView,
> {
    match (left, right) {
        (LiteralView::Number(l), LiteralView::Number(r)) => binary_on_numbers(operator, l, r),
        (LiteralView::String(l), LiteralView::String(r)) => match operator.kind {
            TokenKind::Plus => Ok(AppliedView::Value(LiteralView::String(l + r))),
            _ => Err(unsupported("Unsupported binary operator '"@, operator, "' for strings"@)),
        },
        _ => match operator.kind {
            TokenKind::BangEqual => Ok(AppliedView::Value(boolean(!equal(left, right)))),
            TokenKind::EqualEqual => Ok(AppliedView::Value(boolean(equal(left, right)))),
            _ => Err(
                unsupported(
                    "Unsupported binary operator '"@,
                    operator,
                    "' for types ("@ + kind_name(left) + ", "@ + kind_name(right) + ")"@,
                ),
            ),
        },
    }
}

/// Whether a logical operator is decided by its left operand alone: `and`
/// by a falsy one, `or` by a truthy one.
pub open spec fn decided_by_left(operator: Token, left: LiteralView) -> Result<bool, RuntimeErrorView> {
    match operator.kind {
        TokenKind::And => Ok(!truthy(left)),
        TokenKind::Or => Ok(truthy(left)),
        _ => Err(unsupported("Unsupported logical operator '"@, operator, "'"@)),
    }
}

/// Whether the value counts as true.
pub fn is_truthy(literal: &Literal) -> (answer: bool)
    ensures
        answer == truthy(literal@),
{
    match literal {
        Literal::Boolean(b) => matches!(b, LiteralBool::True),
        Literal::Nil => false,
        _ => true,
    }
}

/// Whether two values are equal.
pub fn is_equal(left: &Literal, right: &Literal) -> (answer: bool)
    ensures
        answer == equal(left@, right@),
{
    match (left, right) {
        (Literal::Nil, Literal::Nil) => true,
        (Literal::Number(l), Literal::Number(r)) => number::is_equal(*l, *r),
        (Literal::String(l), Literal::String(r)) => *l == *r,
        (Literal::Boolean(l), Literal::Boolean(r)) => *l == *r,
        (Literal::Identifier(l), Literal::Identifier(r)) => *l == *r,
        _ => false,
    }
}

fn kind_of(value: &Literal) -> (name: &'static str)
    ensures
        name@ == kind_name(value@),
{
    match value {
        Literal::Number(_) => "Number",
        Literal::String(_) => "String",
        Literal::Boolean(_) => "Boolean",
        Literal::Identifier(_) => "Identifier",
        Literal::Nil => "Nil",
    }
}

fn unsupported_operator(what: &str, operator: &Token, operands: &str) -> (error: RuntimeError)
    ensures
        error@ == unsupported(what@, *operator, operands@),
{
    let mut message = String::from_str(what);
    message.append(operator.lexeme.as_str());
    message.append(operands);
    RuntimeError::new(message, Some(operator.clone()))
}

/// Applies a unary operator to a value.
pub fn apply_unary(operator: &Token, operand: &Literal) -> (result: Result<Literal, RuntimeError>)
    ensures
        match unary_result(*operator, operand@) {
            Ok(value) => result is Ok && result->Ok_0@ == value,
            Err(error) => result is Err && result->Err_0@ == error,
        },
{
    match operator.kind {
        TokenKind::Minus => match operand {
            Literal::Number(n) => Ok(Literal::Number(number::negate(*n))),
            _ => {
                let mut message = String::from_str("Operand must be a number, got ");
                message.append(kind_of(operand));
                Err(RuntimeError::new(message, Some(operator.clone())))
            },
        },
        TokenKind::Bang => Ok(Literal::boolean(!is_truthy(operand))),
        _ => Err(unsupported_operator("Unsupported unary operator '", operator, "'")),
    }
}

/// Applies a binary operator to two numbers.
fn apply_to_numbers(operator: &Token, left: u64, right: u64) -> (result: Result<Applied, RuntimeError>)
    ensures
        match binary_on_numbers(*operator, left, right) {
            Ok(applied) => result is Ok && result->Ok_0@ == applied,
            Err(error) => result is Err && result->Err_0@ == error,
        },
{
    match operator.kind {
        TokenKind::Greater => Ok(Applied::Value(Literal::boolean(number::is_less(right, left)))),
        TokenKind::GreaterEqual => Ok(Applied::Value(Literal::boolean(number::is_less_equal(right, left)))),
        TokenKind::Less => Ok(Applied::Value(Literal::boolean(number::is_less(left, right)))),
        TokenKind::LessEqual => Ok(Applied::Value(Literal::boolean(number::is_less_equal(left, right)))),
        TokenKind::BangEqual => Ok(Applied::Value(Literal::boolean(!number::is_equal(left, right)))),
        TokenKind::EqualEqual => Ok(Applied::Value(Literal::boolean(number::is_equal(left, right)))),
        TokenKind::Plus => Ok(Applied::Compute { operation: Arithmetic::Add, left, right }),
        TokenKind::Minus => Ok(Applied::Compute { operation: Arithmetic::Subtract, left, right }),
        TokenKind::Slash => Ok(Applied::Compute { operation: Arithmetic::Divide, left, right }),
        TokenKind::Star => Ok(Applied::Compute { operation: Arithmetic::Multiply, left, right }),
        _ => Err(unsupported_operator("Unsupported binary operator '", operator, "' for numbers")),
    }
}

/// Applies a binary operator to two values.
pub fn apply_binary(operator: &Token, left: &Literal, right: &Literal) -> (result: Result<Applied, RuntimeError>)
    ensures
        match binary_result(*operator, left@, right@) {
            Ok(applied) => result is Ok && result->Ok_0@ == applied,
            Err(error) => result is Err && result->Err_0@ == error,
        },
{
    match (left, right) {
        (Literal::Number(l), Literal::Number(r)) => apply_to_numbers(operator, *l, *r),
        (Literal::String(l), Literal::String(r)) => match operator.kind {
            TokenKind::Plus => {
                let mut value = l.clone();
                value.append(r.as_str());
                Ok(Applied::Value(Literal::String(value)))
            },
            _ => Err(unsupported_operator("Unsupported binary operator '", operator, "' for strings")),
        },
        _ => match operator.kind {
            TokenKind::BangEqual => Ok(Applied::Value(Literal::boolean(!is_equal(left, right)))),
            TokenKind::EqualEqual => Ok(Applied::Value(Literal::boolean(is_equal(left, right)))),
            _ => {
                let mut operands = String::from_str("' for types (");
                operands.append(kind_of(left));
                operands.append(", ");
                operands.append(kind_of(right));
                operands.append(")");
                Err(unsupported_operator("Unsupported binary operator '", operator, operands.as_str()))
            },
        },
    }
}

/// Decides whether a logical operator needs its right operand.
pub fn decide_logical(operator: &Token, left: &Literal) -> (result: Result<bool, RuntimeError>)
    ensures
        match decided_by_left(*operator, left@) {
            Ok(decided) => result == Ok::<bool, RuntimeError>(decided),
            Err(error) => result is Err && result->Err_0@ == error,
        },
{
    match operator.kind {
        TokenKind::And => Ok(!is_truthy(left)),
        TokenKind::Or => Ok(is_truthy(left)),
        _ => Err(unsupported_operator("Unsupported logical operator '", operator, "'")),
    }
}

/// What the machine is about to do.
#[derive(Clone, Copy, Debug)]
pub enum Control<'a> {
    /// Nothing: no program is loaded, or the last one has ended.
    Idle,
    /// Execute a statement.
    Execute(&'a Stmt),
    /// Evaluate an expression.
    Evaluate(&'a Expr),
    /// Hand the value on top of the value stack to the innermost frame.
    Return,
    /// Tell the innermost frame that its statement has completed.
    Advance,
    /// Wait for the result of an operation on two doubles.
    AwaitNumber { operation: Arithmetic, left: u64, right: u64 },
    /// Wait to hear whether the value on top of the value stack was written.
    AwaitWrite,
}

/// What remains to be done once the work in hand is finished.
#[derive(Clone, Copy, Debug)]
pub enum Frame<'a> {
    /// Apply a unary operator to the value.
    Unary { operator: &'a Token },
    /// The value is the left operand: keep it and evaluate the right one.
    BinaryRight { operator: &'a Token, right: &'a Expr },
    /// The value is the right operand: apply the operator to the left
    /// operand, which lies under it, and to it.
    BinaryApply { operator: &'a Token },
    /// The value is the left operand of `and` or `or`.
    Logical { operator: &'a Token, right: &'a Expr },
    /// Assign the value to a variable.
    Assign { name: &'a Token },
    /// Drop the value: an expression statement ends.
    Discard,
    /// Print the value.
    Print,
    /// Define a variable with the value.
    Define { name: &'a Token },
    /// The value is the condition of an `if`.
    Branch { then_branch: &'a Stmt, else_branch: Option<&'a Stmt> },
    /// The value is the condition of a `while`.
    LoopTest { condition: &'a Expr, body: &'a Stmt },
    /// The body of a `while` is running.
    LoopBody { condition: &'a Expr, body: &'a Stmt },
    /// A sequence of statements is running, and `next` is the one to run
    /// next. A block has a scope of its own, which goes when the block ends;
    /// a program has none.
    Block { statements: &'a Vec<Stmt>, next: usize, scoped: bool },
}

/// What the machine asks of its driver when a step is done.
#[derive(Debug)]
pub enum Request {
    /// Nothing: take the next step.
    Proceed,
    /// Compute a sum, difference, product or quotient of two doubles, and
    /// answer with its bits.
    Compute { operation: Arithmetic, left: u64, right: u64 },
    /// Write the piece and a line break, and answer whether that worked.
    Print(Piece),
    /// Nothing more: the program has ended.
    Done,
    /// Nothing more: the program has failed.
    Failed(RuntimeError),
}

/// The mathematical model of a request.
pub enum RequestView {
    Proceed,
    Compute { operation: Arithmetic, left: u64, right: u64 },
    Print(PieceView),
    Done,
    Failed(RuntimeErrorView),
}

impl View for Request {
    type V = RequestView;

    open spec fn view(&self) -> RequestView {
        match self {
            Request::Proceed => RequestView::Proceed,
            Request::Compute { operation, left, right } => RequestView::Compute {
                operation: *operation,
                left: *left,
                right: *right,
            },
            Request::Print(piece) => RequestView::Print(piece@),
            Request::Done => RequestView::Done,
            Request::Failed(error) => RequestView::Failed(error@),
        }
    }
}

/// The driver's answer to the request of the step before.
#[derive(Clone, Copy, Debug, PartialEq, Eq, Structural)]
pub enum Reply {
    Nothing,
    Number(u64),
    Written(bool),
}

/// The mathematical model of the machine.
pub struct State<'a> {
    /// The environment: a stack of scopes.
    pub scopes: Seq<Map<Seq<char>, LiteralView>>,
    pub control: Control<'a>,
    /// The frames, innermost last.
    pub frames: Seq<Frame<'a>>,
    /// The values that await their use, newest last.
    pub values: Seq<LiteralView>,
    /// The number of scopes that were there before the program began.
    pub base: int,
}

/// The error of a value that could not be written.
pub open spec fn write_failure() -> RuntimeErrorView {
    RuntimeErrorView { message: "Failed to write output"@, token: None }
}

/// The error of a machine whose frames and values do not fit together.
pub open spec fn inconsistency() -> RuntimeErrorView {
    RuntimeErrorView { message: "Interpreter state is inconsistent"@, token: None }
}

impl<'a> State<'a> {
    pub open spec fn to(self, control: Control<'a>) -> State<'a> {
        State { control, ..self }
    }

    pub open spec fn push_frame(self, frame: Frame<'a>) -> State<'a> {
        State { frames: self.frames.push(frame), ..self }
    }

    pub open spec fn pop_frame(self) -> State<'a> {
        State { frames: self.frames.drop_last(), ..self }
    }

    pub open spec fn push_value(self, value: LiteralView) -> State<'a> {
        State { values: self.values.push(value), ..self }
    }

    pub open spec fn pop_value(self) -> State<'a> {
        State { values: self.values.drop_last(), ..self }
    }

    pub open spec fn with_scopes(self, scopes: Seq<Map<Seq<char>, LiteralView>>) -> State<'a> {
        State { scopes, ..self }
    }

    /// The machine at rest: the scopes that the program added are gone, and
    /// so are its frames and values.
    pub open spec fn stopped(self) -> State<'a> {
        State {
            scopes: self.scopes.subrange(0, self.base),
            control: Control::Idle,
            frames: Seq::empty(),
            values: Seq::empty(),
            base: self.base,
        }
    }

    /// The program fails: the machine stops and reports the error.
    pub open spec fn failed(self, error: RuntimeErrorView) -> (State<'a>, RequestView) {
        (self.stopped(), RequestView::Failed(error))
    }

    /// The machine at the start of a program.
    pub open spec fn loaded(self, statements: &'a Vec<Stmt>) -> State<'a> {
        self.stopped().push_frame(Frame::Block { statements, next: 0, scoped: false }).to(Control::Advance)
    }

    /// A statement is taken up.
    pub open spec fn execute(self, stmt: &'a Stmt) -> (State<'a>, RequestView) {
        match stmt {
            Stmt::Expr(expression) => (
                self.push_frame(Frame::Discard).to(Control::Evaluate(expression)),
                RequestView::Proceed,
            ),
            Stmt::If { condition, then_branch, else_branch } => (
                self.push_frame(
                    Frame::Branch {
                        then_branch: &**then_branch,
                        else_branch: match else_branch {
                            Some(branch) => Some(&**branch),
                            None => None,
                        },
                    },
                ).to(Control::Evaluate(condition)),
                RequestView::Proceed,
            ),
            Stmt::Print(expression) => (
                self.push_frame(Frame::Print).to(Control::Evaluate(expression)),
                RequestView::Proceed,
            ),
            Stmt::Var { name, initializer } => (
                self.push_frame(Frame::Define { name }).to(Control::Evaluate(initializer)),
                RequestView::Proceed,
            ),
            Stmt::While { condition, body } => (
                self.push_frame(Frame::LoopTest { condition, body: &**body }).to(Control::Evaluate(condition)),
                RequestView::Proceed,
            ),
            Stmt::Block(statements) => (
                self.with_scopes(self.scopes.push(Map::empty())).push_frame(
                    Frame::Block { statements, next: 0, scoped: true },
                ).to(Control::Advance),
                RequestView::Proceed,
            ),
        }
    }

    /// An expression is taken up.
    pub open spec fn evaluate(self, expr: &'a Expr) -> (State<'a>, RequestView) {
        match expr {
            Expr::Literal(literal) => (self.push_value(literal@).to(Control::Return), RequestView::Proceed),
            Expr::Grouping { expression } => (self.to(Control::Evaluate(&**expression)), RequestView::Proceed),
            Expr::Unary { operator, right } => (
                self.push_frame(Frame::Unary { operator }).to(Control::Evaluate(&**right)),
                RequestView::Proceed,
            ),
            Expr::Binary { left, operator, right } => (
                self.push_frame(Frame::BinaryRight { operator, right: &**right }).to(Control::Evaluate(&**left)),
                RequestView::Proceed,
            ),
            Expr::Variable { name } => match lookup(self.scopes, name.lexeme@) {
                Some(value) => (self.push_value(value).to(Control::Return), RequestView::Proceed),
                None => self.failed(undefined_variable(*name)),
            },
            Expr::Assign { name, value } => (
                self.push_frame(Frame::Assign { name }).to(Control::Evaluate(&**value)),
                RequestView::Proceed,
            ),
            Expr::Logical { left, operator, right } => (
                self.push_frame(Frame::Logical { operator, right: &**right }).to(Control::Evaluate(&**left)),
                RequestView::Proceed,
            ),
        }
    }

    /// The value on top of the value stack goes to the innermost frame.
    pub open spec fn resume(self) -> (State<'a>, RequestView) {
        if self.values.len() == 0 || self.frames.len() == 0 {
            self.failed(inconsistency())
        } else {
            let value = self.values.last();
            let rest = self.pop_frame();
            match self.frames.last() {
                Frame::Unary { operator } => match unary_result(*operator, value) {
                    Ok(result) => (rest.pop_value().push_value(result).to(Control::Return), RequestView::Proceed),
                    Err(error) => self.failed(error),
                },
                Frame::BinaryRight { operator, right } => (
                    rest.push_frame(Frame::BinaryApply { operator }).to(Control::Evaluate(right)),
                    RequestView::Proceed,
                ),
                Frame::BinaryApply { operator } => if self.values.len() < 2 {
                    self.failed(inconsistency())
                } else {
                    match binary_result(*operator, self.values[self.values.len() - 2], value) {
                        Ok(AppliedView::Value(result)) => (
                            rest.pop_value().pop_value().push_value(result).to(Control::Return),
                            RequestView::Proceed,
                        ),
                        Ok(AppliedView::Compute { operation, left, right }) => (
                            rest.pop_value().pop_value().to(Control::AwaitNumber { operation, left, right }),
                            RequestView::Compute { operation, left, right },
                        ),
                        Err(error) => self.failed(error),
                    }
                },
                Frame::Logical { operator, right } => match decided_by_left(*operator, value) {
                    Ok(decided) => if decided {
                        (rest.to(Control::Return), RequestView::Proceed)
                    } else {
                        (rest.pop_value().to(Control::Evaluate(right)), RequestView::Proceed)
                    },
                    Err(error) => self.failed(error),
                },
                Frame::Assign { name } => match assigned(self.scopes, name.lexeme@, value) {
                    Some(scopes) => (rest.with_scopes(scopes).to(Control::Return), RequestView::Proceed),
                    None => self.failed(undefined_variable(*name)),
                },
                Frame::Discard => (rest.pop_value().to(Control::Advance), RequestView::Proceed),
                Frame::Print => (rest.to(Control::AwaitWrite), RequestView::Print(printable(value))),
                Frame::Define { name } => (
                    rest.with_scopes(defined(self.scopes, name.lexeme@, value)).pop_value().to(Control::Advance),
                    RequestView::Proceed,
                ),
                Frame::Branch { then_branch, else_branch } => if truthy(value) {
                    (rest.pop_value().to(Control::Execute(then_branch)), RequestView::Proceed)
                } else {
                    match else_branch {
                        Some(branch) => (rest.pop_value().to(Control::Execute(branch)), RequestView::Proceed),
                        None => (rest.pop_value().to(Control::Advance), RequestView::Proceed),
                    }
                },
                Frame::LoopTest { condition, body } => if truthy(value) {
                    (
                        rest.pop_value().push_frame(Frame::LoopBody { condition, body }).to(Control::Execute(body)),
                        RequestView::Proceed,
                    )
                } else {
                    (rest.pop_value().to(Control::Advance), RequestView::Proceed)
                },
                Frame::LoopBody { .. } => self.failed(inconsistency()),
                Frame::Block { .. } => self.failed(inconsistency()),
            }
        }
    }

    /// A statement has completed: the innermost frame goes on. With no frame
    /// left the program has ended.
    pub open spec fn advance(self) -> (State<'a>, RequestView) {
        if self.frames.len() == 0 {
            (self.stopped(), RequestView::Done)
        } else {
            let rest = self.pop_frame();
            match self.frames.last() {
                Frame::LoopBody { condition, body } => (
                    rest.push_frame(Frame::LoopTest { condition, body }).to(Control::Evaluate(condition)),
                    RequestView::Proceed,
                ),
                Frame::Block { statements, next, scoped } => if next < statements@.len() {
                    (
                        rest.push_frame(Frame::Block { statements, next: (next + 1) as usize, scoped }).to(
                            Control::Execute(&statements@[next as int]),
                        ),
                        RequestView::Proceed,
                    )
                } else if !scoped {
                    (rest.to(Control::Advance), RequestView::Proceed)
                } else if self.scopes.len() > self.base {
                    (rest.with_scopes(self.scopes.drop_last()).to(Control::Advance), RequestView::Proceed)
                } else {
                    self.failed(inconsistency())
                },
                _ => self.failed(inconsistency()),
            }
        }
    }

    /// The driver has answered, or has not.
    pub open spec fn answered(self, reply: Reply) -> (State<'a>, RequestView) {
        match self.control {
            Control::AwaitNumber { operation, left, right } => match reply {
                Reply::Number(bits) => (
                    self.push_value(LiteralView::Number(bits)).to(Control::Return),
                    RequestView::Proceed,
                ),
                _ => (self, RequestView::Compute { operation, left, right }),
            },
            Control::AwaitWrite => if self.values.len() == 0 {
                self.failed(inconsistency())
            } else {
                match reply {
                    Reply::Written(true) => (self.pop_value().to(Control::Advance), RequestView::Proceed),
                    Reply::Written(false) => self.failed(write_failure()),
                    _ => (self, RequestView::Print(printable(self.values.last()))),
                }
            },
            _ => (self, RequestView::Proceed),
        }
    }

    /// One step of the machine. A request stands until it is answered: a
    /// reply of another kind has it made again. A reply that was not asked
    /// for is ignored.
    pub open spec fn step(self, reply: Reply) -> (State<'a>, RequestView) {
        match self.control {
            Control::Idle => (self, RequestView::Done),
            Control::Execute(stmt) => self.execute(stmt),
            Control::Evaluate(expr) => self.evaluate(expr),
            Control::Return => self.resume(),
            Control::Advance => self.advance(),
            Control::AwaitNumber { .. } => self.answered(reply),
            Control::AwaitWrite => self.answered(reply),
        }
    }
}

/// The models of a sequence of values, in order.
pub open spec fn value_views(values: Seq<Literal>) -> Seq<LiteralView> {
    values.map_values(|v: Literal| v@)
}

/// The machine that runs a program, one step at a time.
///
/// It does the deciding, and asks its driver for the rest: to add, subtract,
/// multiply and divide doubles, and to write what `print` prints. The driver
/// calls `step` until the request is `Done` or `Failed`, and hands each
/// answer to the step that follows.
#[derive(Debug)]
pub struct Interpreter<'a> {
    environment: Environment,
    control: Control<'a>,
    frames: Vec<Frame<'a>>,
    values: Vec<Literal>,
    base: usize,
}

impl<'a> View for Interpreter<'a> {
    type V = State<'a>;

    closed spec fn view(&self) -> State<'a> {
        State {
            scopes: self.environment@,
            control: self.control,
            frames: self.frames@,
            values: value_views(self.values@),
            base: self.base as int,
        }
    }
}

impl<'a> Interpreter<'a> {
    /// The environment is well formed, and the scopes that were there before
    /// the program began are still there.
    pub closed spec fn sound(&self) -> bool {
        &&& self.environment.wf()
        &&& 1 <= self.base <= self.environment@.len()
    }

    /// The machine is sound, and its frames, values and scopes fit together.
    pub closed spec fn wf(&self) -> bool {
        &&& self.sound()
        &&& consistent(self@)
    }

    /// The frames, values and scopes of a machine fit together.
    pub proof fn lemma_consistent(&self)
        requires
            self.wf(),
        ensures
            consistent(self@),
    {
    }

    /// A machine at rest on `environment`.
    pub fn new(environment: Environment) -> (interpreter: Self)
        requires
            environment.wf(),
        ensures
            interpreter.wf(),
            interpreter@ == (State {
                scopes: environment@,
                control: Control::Idle,
                frames: Seq::empty(),
                values: Seq::empty(),
                base: environment@.len() as int,
            }),
    {
        proof {
            environment.lemma_never_empty();
        }
        let base = environment.depth();
        let interpreter = Interpreter {
            environment,
            control: Control::Idle,
            frames: Vec::new(),
            values: Vec::new(),
            base,
        };
        assert(interpreter@.values =~= Seq::empty());
        assert(interpreter@.frames =~= Seq::empty());
        interpreter
    }

    /// Loads a program. What the machine was doing is abandoned, as if it
    /// had failed.
    pub fn interpret(&mut self, statements: &'a Vec<Stmt>)
        requires
            old(self).wf(),
        ensures
            final(self).wf(),
            final(self)@ == old(self)@.loaded(statements),
    {
        proof {
            lemma_loaded_consistent(self@, statements);
        }
        self.stop();
        self.frames.push(Frame::Block { statements, next: 0, scoped: false });
        self.control = Control::Advance;
    }

    /// The environment as it stands.
    pub fn environment(&self) -> (environment: &Environment)
        ensures
            environment@ == self@.scopes,
            self.wf() ==> environment.wf(),
    {
        &self.environment
    }

    /// Gives the environment back.
    pub fn into_environment(self) -> (environment: Environment)
        ensures
            environment@ == self@.scopes,
            self.wf() ==> environment.wf(),
    {
        self.environment
    }

    /// Takes one step.
    pub fn step(&mut self, reply: Reply) -> (request: Request)
        requires
            old(self).wf(),
        ensures
            final(self).wf(),
            (final(self)@, request@) == old(self)@.step(reply),
            request@ != RequestView::Failed(inconsistency()),
    {
        proof {
            lemma_step_consistent(self@, reply);
        }
        match self.control {
            Control::Idle => Request::Done,
            Control::Execute(stmt) => self.execute_stmt(stmt),
            Control::Evaluate(expr) => self.evaluate_expr(expr),
            Control::Return => self.resume(),
            Control::Advance => self.advance(),
            Control::AwaitNumber { operation, left, right } => match reply {
                Reply::Number(bits) => {
                    self.push_value(Literal::Number(bits));
                    self.control = Control::Return;
                    Request::Proceed
                },
                _ => Request::Compute { operation, left, right },
            },
            Control::AwaitWrite => match self.values.last() {
                None => self.fail(Self::inconsistent()),
                Some(value) => match reply {
                    Reply::Written(true) => {
                        self.pop_value();
                        self.control = Control::Advance;
                        Request::Proceed
                    },
                    Reply::Written(false) => self.fail(
                        RuntimeError::new(String::from_str("Failed to write output"), None),
                    ),
                    _ => Request::Print(value.printable()),
                },
            },
        }
    }

    fn inconsistent() -> (error: RuntimeError)
        ensures
            error@ == inconsistency(),
    {
        RuntimeError::new(String::from_str("Interpreter state is inconsistent"), None)
    }

    /// Puts the machine to rest.
    fn stop(&mut self)
        requires
            old(self).sound(),
        ensures
            final(self).sound(),
            final(self)@ == old(self)@.stopped(),
    {
        while self.environment.depth() > self.base
            invariant
                self.sound(),
                self.base == old(self).base,
                self.environment@.len() <= old(self).environment@.len(),
                self.environment@ == old(self).environment@.subrange(0, self.environment@.len() as int),
            decreases self.environment@.len(),
        {
            self.environment.pop_scope();
            assert(self.environment@ =~= old(self).environment@.subrange(0, self.environment@.len() as int));
        }
        self.control = Control::Idle;
        self.frames.clear();
        self.values.clear();
        assert(self@.values =~= Seq::empty());
        assert(self@.frames =~= Seq::empty());
    }

    /// The program fails.
    fn fail(&mut self, error: RuntimeError) -> (request: Request)
        requires
            old(self).sound(),
        ensures
            final(self).sound(),
            (final(self)@, request@) == old(self)@.failed(error@),
    {
        self.stop();
        Request::Failed(error)
    }

    fn push_value(&mut self, value: Literal)
        requires
            old(self).sound(),
        ensures
            final(self).sound(),
            final(self)@ == old(self)@.push_value(value@),
    {
        self.values.push(value);
        assert(self@.values =~= old(self)@.values.push(value@));
    }

    fn pop_value(&mut self) -> (value: Option<Literal>)
        requires
            old(self).sound(),
        ensures
            final(self).sound(),
            match value {
                Some(v) => old(self)@.values.len() > 0 && v@ == old(self)@.values.last() && final(self)@ == old(
                    self,
                )@.pop_value(),
                None => old(self)@.values.len() == 0 && final(self)@ == old(self)@,
            },
    {
        let value = self.values.pop();
        assert(self@.values =~= old(self)@.values.subrange(0, self@.values.len() as int));
        value
    }

    fn push_frame(&mut self, frame: Frame<'a>)
        requires
            old(self).sound(),
        ensures
            final(self).sound(),
            final(self)@ == old(self)@.push_frame(frame),
    {
        self.frames.push(frame);
    }

    /// Takes a statement up.
    fn execute_stmt(&mut self, stmt: &'a Stmt) -> (request: Request)
        requires
            old(self).sound(),
        ensures
            final(self).sound(),
            (final(self)@, request@) == old(self)@.execute(stmt),
    {
        match stmt {
            Stmt::Expr(expression) => {
                self.push_frame(Frame::Discard);
                self.control = Control::Evaluate(expression);
            },
            Stmt::If { condition, then_branch, else_branch } => {
                let else_branch: Option<&'a Stmt> = match else_branch {
                    Some(branch) => Some(&**branch),
                    None => None,
                };
                self.push_frame(Frame::Branch { then_branch: &**then_branch, else_branch });
                self.control = Control::Evaluate(condition);
            },
            Stmt::Print(expression) => {
                self.push_frame(Frame::Print);
                self.control = Control::Evaluate(expression);
            },
            Stmt::Var { name, initializer } => {
                self.push_frame(Frame::Define { name });
                self.control = Control::Evaluate(initializer);
            },
            Stmt::While { condition, body } => {
                self.push_frame(Frame::LoopTest { condition, body: &**body });
                self.control = Control::Evaluate(condition);
            },
            Stmt::Block(statements) => {
                self.environment.add_scope();
                self.push_frame(Frame::Block { statements, next: 0, scoped: true });
                self.control = Control::Advance;
            },
        }
        Request::Proceed
    }

    /// Takes an expression up.
    fn evaluate_expr(&mut self, expr: &'a Expr) -> (request: Request)
        requires
            old(self).sound(),
        ensures
            final(self).sound(),
            (final(self)@, request@) == old(self)@.evaluate(expr),
    {
        match expr {
            Expr::Literal(literal) => {
                self.push_value(literal.clone());
                self.control = Control::Return;
            },
            Expr::Grouping { expression } => {
                self.control = Control::Evaluate(&**expression);
            },
            Expr::Unary { operator, right } => {
                self.push_frame(Frame::Unary { operator });
                self.control = Control::Evaluate(&**right);
            },
            Expr::Binary { left, operator, right } => {
                self.push_frame(Frame::BinaryRight { operator, right: &**right });
                self.control = Control::Evaluate(&**left);
            },
            Expr::Variable { name } => {
                return self.var_expr(name);
            },
            Expr::Assign { name, value } => {
                self.push_frame(Frame::Assign { name });
                self.control = Control::Evaluate(&**value);
            },
            Expr::Logical { left, operator, right } => {
                self.push_frame(Frame::Logical { operator, right: &**right });
                self.control = Control::Evaluate(&**left);
            },
        }
        Request::Proceed
    }

    /// Reads a variable.
    fn var_expr(&mut self, name: &'a Token) -> (request: Request)
        requires
            old(self).sound(),
        ensures
            final(self).sound(),
            (final(self)@, request@) == (match lookup(old(self)@.scopes, name.lexeme@) {
                Some(value) => (old(self)@.push_value(value).to(Control::Return), RequestView::Proceed),
                None => old(self)@.failed(undefined_variable(*name)),
            }),
    {
        let found = match self.environment.get(name) {
            Ok(value) => Ok(value.clone()),
            Err(error) => Err(error),
        };
        match found {
            Ok(value) => {
                self.push_value(value);
                self.control = Control::Return;
                Request::Proceed
            },
            Err(error) => self.fail(error),
        }
    }

    /// Hands the value on top of the value stack to the innermost frame.
    fn resume(&mut self) -> (request: Request)
        requires
            old(self).sound(),
        ensures
            final(self).sound(),
            (final(self)@, request@) == old(self)@.resume(),
    {
        if self.values.len() == 0 {
            return self.fail(Self::inconsistent());
        }
        let frame = match self.frames.last() {
            Some(frame) => *frame,
            None => {
                return self.fail(Self::inconsistent());
            },
        };
        match frame {
            Frame::Unary { operator } => self.unary(operator),
            Frame::BinaryRight { operator, right } => {
                self.frames.pop();
                self.push_frame(Frame::BinaryApply { operator });
                self.control = Control::Evaluate(right);
                Request::Proceed
            },
            Frame::BinaryApply { operator } => self.binary(operator),
            Frame::Logical { operator, right } => self.logical(operator, right),
            Frame::Assign { name } => self.assign(name),
            Frame::Discard => {
                self.frames.pop();
                self.pop_value();
                self.control = Control::Advance;
                Request::Proceed
            },
            Frame::Print => {
                self.frames.pop();
                self.control = Control::AwaitWrite;
                let piece = self.values[self.values.len() - 1].printable();
                Request::Print(piece)
            },
            Frame::Define { name } => self.var_stmt(name),
            Frame::Branch { then_branch, else_branch } => self.if_stmt(then_branch, else_branch),
            Frame::LoopTest { condition, body } => self.while_stmt(condition, body),
            Frame::LoopBody { .. } => self.fail(Self::inconsistent()),
            Frame::Block { .. } => self.fail(Self::inconsistent()),
        }
    }

    /// Applies a unary operator to the value on top.
    fn unary(&mut self, operator: &'a Token) -> (request: Request)
        requires
            old(self).sound(),
            old(self)@.values.len() > 0,
            old(self)@.frames.len() > 0,
            old(self)@.frames.last() == (Frame::Unary { operator }),
        ensures
            final(self).sound(),
            (final(self)@, request@) == old(self)@.resume(),
    {
        let applied = apply_unary(operator, &self.values[self.values.len() - 1]);
        match applied {
            Ok(result) => {
                self.frames.pop();
                self.pop_value();
                self.push_value(result);
                self.control = Control::Return;
                Request::Proceed
            },
            Err(error) => self.fail(error),
        }
    }

    /// Applies a binary operator to the two values on top.
    fn binary(&mut self, operator: &'a Token) -> (request: Request)
        requires
            old(self).sound(),
            old(self)@.values.len() > 0,
            old(self)@.frames.len() > 0,
            old(self)@.frames.last() == (Frame::BinaryApply { operator }),
        ensures
            final(self).sound(),
            (final(self)@, request@) == old(self)@.resume(),
    {
        let n = self.values.len();
        if n < 2 {
            return self.fail(Self::inconsistent());
        }
        let applied = apply_binary(operator, &self.values[n - 2], &self.values[n - 1]);
        match applied {
            Ok(Applied::Value(result)) => {
                self.frames.pop();
                self.pop_value();
                self.pop_value();
                self.push_value(result);
                self.control = Control::Return;
                Request::Proceed
            },
            Ok(Applied::Compute { operation, left, right }) => {
                self.frames.pop();
                self.pop_value();
                self.pop_value();
                self.control = Control::AwaitNumber { operation, left, right };
                Request::Compute { operation, left, right }
            },
            Err(error) => self.fail(error),
        }
    }

    /// Decides a logical operator on its left operand, or goes on to the
    /// right one.
    fn logical(&mut self, operator: &'a Token, right: &'a Expr) -> (request: Request)
        requires
            old(self).sound(),
            old(self)@.values.len() > 0,
            old(self)@.frames.len() > 0,
            old(self)@.frames.last() == (Frame::Logical { operator, right }),
        ensures
            final(self).sound(),
            (final(self)@, request@) == old(self)@.resume(),
    {
        let decided = decide_logical(operator, &self.values[self.values.len() - 1]);
        match decided {
            Ok(true) => {
                self.frames.pop();
                self.control = Control::Return;
                Request::Proceed
            },
            Ok(false) => {
                self.frames.pop();
                self.pop_value();
                self.control = Control::Evaluate(right);
                Request::Proceed
            },
            Err(error) => self.fail(error),
        }
    }

    /// Assigns the value on top to a variable; the value stays, as the
    /// value of the assignment.
    fn assign(&mut self, name: &'a Token) -> (request: Request)
        requires
            old(self).sound(),
            old(self)@.values.len() > 0,
            old(self)@.frames.len() > 0,
            old(self)@.frames.last() == (Frame::Assign { name }),
        ensures
            final(self).sound(),
            (final(self)@, request@) == old(self)@.resume(),
    {
        let done = self.environment.assign(name, &self.values[self.values.len() - 1]);
        match done {
            Ok(()) => {
                proof {
                    crate::environment::lemma_holder(old(self)@.scopes, name.lexeme@);
                }
                self.frames.pop();
                self.control = Control::Return;
                Request::Proceed
            },
            Err(error) => self.fail(error),
        }
    }

    /// Defines a variable with the value on top.
    fn var_stmt(&mut self, name: &'a Token) -> (request: Request)
        requires
            old(self).sound(),
            old(self)@.values.len() > 0,
            old(self)@.frames.len() > 0,
            old(self)@.frames.last() == (Frame::Define { name }),
        ensures
            final(self).sound(),
            (final(self)@, request@) == old(self)@.resume(),
    {
        self.frames.pop();
        match self.pop_value() {
            Some(value) => {
                self.environment.define(name.lexeme.clone(), value);
                self.control = Control::Advance;
                Request::Proceed
            },
            None => self.fail(Self::inconsistent()),
        }
    }

    /// Takes the branch of an `if` that the value on top chooses.
    fn if_stmt(&mut self, then_branch: &'a Stmt, else_branch: Option<&'a Stmt>) -> (request: Request)
        requires
            old(self).sound(),
            old(self)@.values.len() > 0,
            old(self)@.frames.len() > 0,
            old(self)@.frames.last() == (Frame::Branch { then_branch, else_branch }),
        ensures
            final(self).sound(),
            (final(self)@, request@) == old(self)@.resume(),
    {
        self.frames.pop();
        match self.pop_value() {
            Some(condition) => {
                if is_truthy(&condition) {
                    self.control = Control::Execute(then_branch);
                } else {
                    match else_branch {
                        Some(branch) => {
                            self.control = Control::Execute(branch);
                        },
                        None => {
                            self.control = Control::Advance;
                        },
                    }
                }
                Request::Proceed
            },
            None => self.fail(Self::inconsistent()),
        }
    }

    /// Runs the body of a `while` once more if the value on top says so.
    fn while_stmt(&mut self, condition: &'a Expr, body: &'a Stmt) -> (request: Request)
        requires
            old(self).sound(),
            old(self)@.values.len() > 0,
            old(self)@.frames.len() > 0,
            old(self)@.frames.last() == (Frame::LoopTest { condition, body }),
        ensures
            final(self).sound(),
            (final(self)@, request@) == old(self)@.resume(),
    {
        self.frames.pop();
        match self.pop_value() {
            Some(value) => {
                if is_truthy(&value) {
                    self.push_frame(Frame::LoopBody { condition, body });
                    self.control = Control::Execute(body);
                } else {
                    self.control = Control::Advance;
                }
                Request::Proceed
            },
            None => self.fail(Self::inconsistent()),
        }
    }

    /// Goes on after a statement has completed.
    fn advance(&mut self) -> (request: Request)
        requires
            old(self).sound(),
        ensures
            final(self).sound(),
            (final(self)@, request@) == old(self)@.advance(),
    {
        let frame = match self.frames.last() {
            Some(frame) => *frame,
            None => {
                self.stop();
                return Request::Done;
            },
        };
        match frame {
            Frame::LoopBody { condition, body } => {
                self.frames.pop();
                self.push_frame(Frame::LoopTest { condition, body });
                self.control = Control::Evaluate(condition);
                Request::Proceed
            },
            Frame::Block { statements, next, scoped } => self.block_stmt(statements, next, scoped),
            _ => self.fail(Self::inconsistent()),
        }
    }

    /// Runs the next statement of a sequence, or ends the sequence and
    /// gives up its scope.
    fn block_stmt(&mut self, statements: &'a Vec<Stmt>, next: usize, scoped: bool) -> (request: Request)
        requires
            old(self).sound(),
            old(self)@.frames.len() > 0,
            old(self)@.frames.last() == (Frame::Block { statements, next, scoped }),
        ensures
            final(self).sound(),
            (final(self)@, request@) == old(self)@.advance(),
    {
        if next < statements.len() {
            self.frames.pop();
            self.push_frame(Frame::Block { statements, next: next + 1, scoped });
            self.control = Control::Execute(&statements[next]);
            Request::Proceed
        } else if !scoped {
            self.frames.pop();
            self.control = Control::Advance;
            Request::Proceed
        } else if self.environment.depth() > self.base {
            self.frames.pop();
            self.environment.pop_scope();
            self.control = Control::Advance;
            Request::Proceed
        } else {
            self.fail(Self::inconsistent())
        }
    }
}


} // verus!
