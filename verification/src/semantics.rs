//! What a program means, and that the machine computes it.
//!
//! The meaning of an expression is its value and what it does to the
//! variables; the meaning of a statement is what it does to the variables
//! and what it prints. Both are stated here directly, by recursion on the
//! program. They depend on the host in two ways: on the arithmetic of its
//! doubles, and on how many lines its sink will take.
//!
//! The machine, stepped by a driver that answers as such a host does, ends
//! where these meanings say.

use vstd::prelude::*;
use crate::environment::{assigned, defined, lemma_holder, lookup, undefined_variable};
use crate::error::RuntimeErrorView;
use crate::expr::{Expr, LiteralView, PieceView, printable};
use crate::interpreter::{
    AppliedView, Arithmetic, Control, Frame, Reply, RequestView, State, binary_result, decided_by_left,
    truthy, unary_result, write_failure,
};
use crate::stmt::Stmt;

verus! {

/// What the machine cannot do itself.
pub struct Host {
    /// The sum, difference, product or quotient of two doubles.
    pub arithmetic: spec_fn(Arithmetic, u64, u64) -> u64,
    /// The number of lines that the sink takes before it fails.
    pub room: nat,
}

/// What evaluating an expression gives: a value or an error, and the scopes
/// as the evaluation leaves them.
pub struct Evaluated {
    pub result: Result<LiteralView, RuntimeErrorView>,
    pub scopes: Seq<Map<Seq<char>, LiteralView>>,
}

/// The value of an expression.
///
/// A literal is its value and a group that of its expression. A variable is
/// looked up, an assignment has the assigned value. The operand of a unary
/// operator is evaluated and the operator applied. Of a binary operator the
/// left operand is evaluated first, then the right one. Of `and` and `or`
/// the right operand is evaluated only if the left one does not decide, and
/// the value is that of the deciding operand. The first error ends the
/// evaluation.
pub open spec fn evaluate(expr: &Expr, scopes: Seq<Map<Seq<char>, LiteralView>>, host: Host) -> Evaluated
    decreases expr,
{
    match expr {
        Expr::Literal(literal) => Evaluated { result: Ok(literal@), scopes },
        Expr::Grouping { expression } => evaluate(&**expression, scopes, host),
        Expr::Unary { operator, right } => {
            let operand = evaluate(&**right, scopes, host);
            match operand.result {
                Ok(value) => Evaluated { result: unary_result(*operator, value), scopes: operand.scopes },
                Err(_) => operand,
            }
        },
        Expr::Binary { left, operator, right } => {
            let first = evaluate(&**left, scopes, host);
            match first.result {
                Ok(a) => {
                    let second = evaluate(&**right, first.scopes, host);
                    match second.result {
                        Ok(b) => Evaluated {
                            result: match binary_result(*operator, a, b) {
                                Ok(AppliedView::Value(value)) => Ok(value),
                                Ok(AppliedView::Compute { operation, left, right }) => Ok(
                                    LiteralView::Number((host.arithmetic)(operation, left, right)),
                                ),
                                Err(error) => Err(error),
                            },
                            scopes: second.scopes,
                        },
                        Err(_) => second,
                    }
                },
                Err(_) => first,
            }
        },
        Expr::Logical { left, operator, right } => {
            let first = evaluate(&**left, scopes, host);
            match first.result {
                Ok(a) => match decided_by_left(*operator, a) {
                    Ok(decided) => if decided {
                        first
                    } else {
                        evaluate(&**right, first.scopes, host)
                    },
                    Err(error) => Evaluated { result: Err(error), scopes: first.scopes },
                },
                Err(_) => first,
            }
        },
        Expr::Variable { name } => Evaluated {
            result: match lookup(scopes, name.lexeme@) {
                Some(value) => Ok(value),
                None => Err(undefined_variable(*name)),
            },
            scopes,
        },
        Expr::Assign { name, value } => {
            let source = evaluate(&**value, scopes, host);
            match source.result {
                Ok(v) => match assigned(source.scopes, name.lexeme@, v) {
                    Some(changed) => Evaluated { result: Ok(v), scopes: changed },
                    None => Evaluated { result: Err(undefined_variable(*name)), scopes: source.scopes },
                },
                Err(_) => source,
            }
        },
    }
}

/// How the execution of a statement ends.
pub enum Outcome {
    /// It completes, with these scopes and these lines written.
    Completed { scopes: Seq<Map<Seq<char>, LiteralView>>, written: Seq<PieceView> },
    /// It fails, with these scopes at the moment of failure and these lines
    /// written.
    Failed { error: RuntimeErrorView, scopes: Seq<Map<Seq<char>, LiteralView>>, written: Seq<PieceView> },
    /// It is not over when the rounds that its loops were given are used up.
    Unfinished,
}

/// What a statement does. `rounds` bounds the rounds of each loop, nested
/// loops taken together along each path.
///
/// An expression statement evaluates and drops the value. `print` writes
/// the value; a sink that takes no more is an error. `var` defines the
/// variable in the innermost scope. A block runs its statements in a scope
/// of its own. `if` runs one branch, or none. `while` tests before each
/// round.
pub open spec fn execute(
    stmt: &Stmt,
    scopes: Seq<Map<Seq<char>, LiteralView>>,
    written: Seq<PieceView>,
    host: Host,
    rounds: nat,
) -> Outcome
    decreases rounds, stmt, 1nat,
{
    match stmt {
        Stmt::Expr(expression) => {
            let value = evaluate(expression, scopes, host);
            match value.result {
                Ok(_) => Outcome::Completed { scopes: value.scopes, written },
                Err(error) => Outcome::Failed { error, scopes: value.scopes, written },
            }
        },
        Stmt::Print(expression) => {
            let value = evaluate(expression, scopes, host);
            match value.result {
                Ok(v) => if written.len() < host.room {
                    Outcome::Completed { scopes: value.scopes, written: written.push(printable(v)) }
                } else {
                    Outcome::Failed { error: write_failure(), scopes: value.scopes, written }
                },
                Err(error) => Outcome::Failed { error, scopes: value.scopes, written },
            }
        },
        Stmt::Var { name, initializer } => {
            let value = evaluate(initializer, scopes, host);
            match value.result {
                Ok(v) => Outcome::Completed { scopes: defined(value.scopes, name.lexeme@, v), written },
                Err(error) => Outcome::Failed { error, scopes: value.scopes, written },
            }
        },
        Stmt::Block(statements) => match sequence(statements, 0, scopes.push(Map::empty()), written, host, rounds) {
            Outcome::Completed { scopes, written } => Outcome::Completed { scopes: scopes.drop_last(), written },
            other => other,
        },
        Stmt::If { condition, then_branch, else_branch } => {
            let value = evaluate(condition, scopes, host);
            match value.result {
                Ok(v) => if truthy(v) {
                    execute(&**then_branch, value.scopes, written, host, rounds)
                } else {
                    match else_branch {
                        Some(branch) => execute(&**branch, value.scopes, written, host, rounds),
                        None => Outcome::Completed { scopes: value.scopes, written },
                    }
                },
                Err(error) => Outcome::Failed { error, scopes: value.scopes, written },
            }
        },
        Stmt::While { condition, body } => repeat(condition, &**body, scopes, written, host, rounds),
    }
}

/// What the statements from `from` on do, one after the other.
pub open spec fn sequence(
    statements: &Vec<Stmt>,
    from: nat,
    scopes: Seq<Map<Seq<char>, LiteralView>>,
    written: Seq<PieceView>,
    host: Host,
    rounds: nat,
) -> Outcome
    decreases rounds, statements, statements.len() - from,
{
    if from >= statements.len() {
        Outcome::Completed { scopes, written }
    } else {
        match execute(&statements[from as int], scopes, written, host, rounds) {
            Outcome::Completed { scopes, written } => sequence(statements, from + 1, scopes, written, host, rounds),
            other => other,
        }
    }
}

/// What a loop does: as long as the condition is truthy, the body runs.
pub open spec fn repeat(
    condition: &Expr,
    body: &Stmt,
    scopes: Seq<Map<Seq<char>, LiteralView>>,
    written: Seq<PieceView>,
    host: Host,
    rounds: nat,
) -> Outcome
    decreases rounds, body, 0nat,
{
    if rounds == 0 {
        Outcome::Unfinished
    } else {
        let value = evaluate(condition, scopes, host);
        match value.result {
            Ok(v) => if truthy(v) {
                match execute(body, value.scopes, written, host, (rounds - 1) as nat) {
                    Outcome::Completed { scopes, written } => repeat(
                        condition,
                        body,
                        scopes,
                        written,
                        host,
                        (rounds - 1) as nat,
                    ),
                    other => other,
                }
            } else {
                Outcome::Completed { scopes: value.scopes, written }
            },
            Err(error) => Outcome::Failed { error, scopes: value.scopes, written },
        }
    }
}

/// What a program does, run on `scopes` with nothing written yet.
pub open spec fn run(statements: &Vec<Stmt>, scopes: Seq<Map<Seq<char>, LiteralView>>, host: Host, rounds: nat) -> Outcome {
    sequence(statements, 0, scopes, Seq::empty(), host, rounds)
}

/// The machine in the hands of a driver that answers as `host` does: the
/// state, the answer that the next step will get, the lines written so far
/// and, once the program is over, how it ended.
pub struct Run<'a> {
    pub state: State<'a>,
    pub reply: Reply,
    pub written: Seq<PieceView>,
    pub result: Option<Result<(), RuntimeErrorView>>,
}

/// One step of the machine, and the driver's answer to what it asks.
pub open spec fn once<'a>(run: Run<'a>, host: Host) -> Run<'a> {
    if run.result is Some {
        run
    } else {
        let (state, request) = run.state.step(run.reply);
        match request {
            RequestView::Proceed => Run { state, reply: Reply::Nothing, written: run.written, result: None },
            RequestView::Compute { operation, left, right } => Run {
                state,
                reply: Reply::Number((host.arithmetic)(operation, left, right)),
                written: run.written,
                result: None,
            },
            RequestView::Print(piece) => if run.written.len() < host.room {
                Run { state, reply: Reply::Written(true), written: run.written.push(piece), result: None }
            } else {
                Run { state, reply: Reply::Written(false), written: run.written, result: None }
            },
            RequestView::Done => Run { state, reply: Reply::Nothing, written: run.written, result: Some(Ok(())) },
            RequestView::Failed(error) => Run {
                state,
                reply: Reply::Nothing,
                written: run.written,
                result: Some(Err(error)),
            },
        }
    }
}

/// `steps` steps of the machine under the driver.
pub open spec fn drive<'a>(run: Run<'a>, host: Host, steps: nat) -> Run<'a>
    decreases steps,
{
    if steps == 0 {
        run
    } else {
        drive(once(run, host), host, (steps - 1) as nat)
    }
}

/// Steps add up.
pub proof fn lemma_drive_then<'a>(run: Run<'a>, host: Host, first: nat, second: nat)
    ensures
        drive(run, host, first + second) == drive(drive(run, host, first), host, second),
    decreases first,
{
    if first > 0 {
        lemma_drive_then(once(run, host), host, (first - 1) as nat, second);
    }
}

/// A run that is over stays as it is.
pub proof fn lemma_drive_over<'a>(run: Run<'a>, host: Host, steps: nat)
    requires
        run.result is Some,
    ensures
        drive(run, host, steps) == run,
    decreases steps,
{
    if steps > 0 {
        lemma_drive_over(run, host, (steps - 1) as nat);
    }
}

/// The run in which the program has failed.
pub open spec fn failed<'a>(
    start: Run<'a>,
    error: RuntimeErrorView,
    scopes: Seq<Map<Seq<char>, LiteralView>>,
    written: Seq<PieceView>,
) -> Run<'a> {
    Run {
        state: State {
            scopes: scopes.subrange(0, start.state.base),
            control: Control::Idle,
            frames: Seq::empty(),
            values: Seq::empty(),
            base: start.state.base,
        },
        reply: Reply::Nothing,
        written,
        result: Some(Err(error)),
    }
}

/// Where a run that begins an expression is when the expression has been
/// evaluated: the value lies on top of the values, the frames are as they
/// were, and the value is on its way to the innermost of them. After an
/// error the run is over.
pub open spec fn settled<'a>(start: Run<'a>, evaluated: Evaluated) -> Run<'a> {
    match evaluated.result {
        Ok(value) => Run {
            state: State {
                scopes: evaluated.scopes,
                control: Control::Return,
                frames: start.state.frames,
                values: start.state.values.push(value),
                base: start.state.base,
            },
            reply: Reply::Nothing,
            written: start.written,
            result: None,
        },
        Err(error) => failed(start, error, evaluated.scopes, start.written),
    }
}

/// Evaluating an expression neither adds nor removes a scope.
pub proof fn lemma_evaluate_keeps_depth(expr: &Expr, scopes: Seq<Map<Seq<char>, LiteralView>>, host: Host)
    ensures
        evaluate(expr, scopes, host).scopes.len() == scopes.len(),
    decreases expr,
{
    match expr {
        Expr::Literal(_) => {},
        Expr::Grouping { expression } => {
            lemma_evaluate_keeps_depth(&**expression, scopes, host);
        },
        Expr::Unary { operator, right } => {
            lemma_evaluate_keeps_depth(&**right, scopes, host);
        },
        Expr::Binary { left, operator, right } => {
            lemma_evaluate_keeps_depth(&**left, scopes, host);
            lemma_evaluate_keeps_depth(&**right, evaluate(&**left, scopes, host).scopes, host);
        },
        Expr::Logical { left, operator, right } => {
            lemma_evaluate_keeps_depth(&**left, scopes, host);
            lemma_evaluate_keeps_depth(&**right, evaluate(&**left, scopes, host).scopes, host);
        },
        Expr::Variable { name } => {},
        Expr::Assign { name, value } => {
            lemma_evaluate_keeps_depth(&**value, scopes, host);
            lemma_holder(evaluate(&**value, scopes, host).scopes, name.lexeme@);
        },
    }
}

/// The machine evaluates an expression as `evaluate` says: from a run that
/// is about to evaluate it, the driver reaches in `steps` steps the run in
/// which it has been evaluated.
pub proof fn lemma_machine_evaluates<'a>(expr: &'a Expr, start: Run<'a>, host: Host) -> (steps: nat)
    requires
        start.result is None,
        start.state.control == Control::Evaluate(expr),
    ensures
        drive(start, host, steps) == settled(start, evaluate(expr, start.state.scopes, host)),
    decreases expr,
{
    let first = once(start, host);
    let goal = settled(start, evaluate(expr, start.state.scopes, host));
    match expr {
        Expr::Literal(literal) => {
            assert(first == goal);
            assert(drive(start, host, 1) == drive(first, host, 0));
            1
        },
        Expr::Grouping { expression } => {
            let inner = lemma_machine_evaluates(&**expression, first, host);
            assert(drive(start, host, 1 + inner) == drive(first, host, inner));
            1 + inner
        },
        Expr::Unary { operator, right } => {
            let inner = lemma_machine_evaluates(&**right, first, host);
            let value = evaluate(&**right, start.state.scopes, host);
            let second = drive(first, host, inner);
            assert(drive(start, host, 1 + inner) == second);
            match value.result {
                Ok(v) => {
                    assert(first.state.frames.drop_last() =~= start.state.frames);
                    assert(second.state.values.drop_last() =~= start.state.values);
                    let third = once(second, host);
                    assert(third =~= goal);
                    lemma_drive_then(start, host, 1 + inner, 1);
                    assert(drive(second, host, 1) == drive(third, host, 0));
                    1 + inner + 1
                },
                Err(_) => 1 + inner,
            }
        },
        Expr::Binary { left, operator, right } => {
            let n1 = lemma_machine_evaluates(&**left, first, host);
            let a = evaluate(&**left, start.state.scopes, host);
            let second = drive(first, host, n1);
            assert(drive(start, host, 1 + n1) == second);
            match a.result {
                Ok(x) => {
                    assert(first.state.frames.drop_last() =~= start.state.frames);
                    let third = once(second, host);
                    lemma_drive_then(start, host, 1 + n1, 1);
                    assert(drive(second, host, 1) == drive(third, host, 0));
                    assert(drive(start, host, 1 + n1 + 1) == third);
                    let n2 = lemma_machine_evaluates(&**right, third, host);
                    let b = evaluate(&**right, a.scopes, host);
                    let fourth = drive(third, host, n2);
                    lemma_drive_then(start, host, 1 + n1 + 1, n2);
                    assert(drive(start, host, 1 + n1 + 1 + n2) == fourth);
                    match b.result {
                        Ok(y) => {
                            assert(third.state.frames.drop_last() =~= start.state.frames);
                            assert(fourth.state.values.drop_last().drop_last() =~= start.state.values);
                            assert(fourth.state.values[fourth.state.values.len() - 2] == x);
                            let fifth = once(fourth, host);
                            lemma_drive_then(start, host, 1 + n1 + 1 + n2, 1);
                            assert(drive(fourth, host, 1) == drive(fifth, host, 0));
                            assert(drive(start, host, 1 + n1 + 1 + n2 + 1) == fifth);
                            match binary_result(*operator, x, y) {
                                Ok(AppliedView::Compute { operation, left, right }) => {
                                    let sixth = once(fifth, host);
                                    assert(sixth =~= goal);
                                    lemma_drive_then(start, host, 1 + n1 + 1 + n2 + 1, 1);
                                    assert(drive(fifth, host, 1) == drive(sixth, host, 0));
                                    1 + n1 + 1 + n2 + 1 + 1
                                },
                                _ => {
                                    assert(fifth =~= goal);
                                    1 + n1 + 1 + n2 + 1
                                },
                            }
                        },
                        Err(_) => 1 + n1 + 1 + n2,
                    }
                },
                Err(_) => 1 + n1,
            }
        },
        Expr::Logical { left, operator, right } => {
            let n1 = lemma_machine_evaluates(&**left, first, host);
            let a = evaluate(&**left, start.state.scopes, host);
            let second = drive(first, host, n1);
            assert(drive(start, host, 1 + n1) == second);
            match a.result {
                Ok(x) => {
                    assert(first.state.frames.drop_last() =~= start.state.frames);
                    assert(second.state.values.drop_last() =~= start.state.values);
                    let third = once(second, host);
                    lemma_drive_then(start, host, 1 + n1, 1);
                    assert(drive(second, host, 1) == drive(third, host, 0));
                    assert(drive(start, host, 1 + n1 + 1) == third);
                    match decided_by_left(*operator, x) {
                        Ok(decided) => {
                            if decided {
                                assert(third =~= goal);
                                1 + n1 + 1
                            } else {
                                let n2 = lemma_machine_evaluates(&**right, third, host);
                                lemma_drive_then(start, host, 1 + n1 + 1, n2);
                                assert(settled(third, evaluate(&**right, a.scopes, host)) =~= goal);
                                1 + n1 + 1 + n2
                            }
                        },
                        Err(_) => {
                            assert(third =~= goal);
                            1 + n1 + 1
                        },
                    }
                },
                Err(_) => 1 + n1,
            }
        },
        Expr::Variable { name } => {
            assert(first =~= goal);
            assert(drive(start, host, 1) == drive(first, host, 0));
            1
        },
        Expr::Assign { name, value } => {
            let inner = lemma_machine_evaluates(&**value, first, host);
            let source = evaluate(&**value, start.state.scopes, host);
            let second = drive(first, host, inner);
            assert(drive(start, host, 1 + inner) == second);
            match source.result {
                Ok(v) => {
                    assert(first.state.frames.drop_last() =~= start.state.frames);
                    let third = once(second, host);
                    assert(third =~= goal);
                    lemma_drive_then(start, host, 1 + inner, 1);
                    assert(drive(second, host, 1) == drive(third, host, 0));
                    1 + inner + 1
                },
                Err(_) => 1 + inner,
            }
        },
    }
}

/// Where a run that begins a statement is when the statement has
/// completed: the frames and values are as they were, and the innermost
/// frame is about to go on. After an error the run is over.
pub open spec fn ended<'a>(start: Run<'a>, outcome: Outcome) -> Run<'a> {
    match outcome {
        Outcome::Completed { scopes, written } => Run {
            state: State {
                scopes,
                control: Control::Advance,
                frames: start.state.frames,
                values: start.state.values,
                base: start.state.base,
            },
            reply: Reply::Nothing,
            written,
            result: None,
        },
        Outcome::Failed { error, scopes, written } => failed(start, error, scopes, written),
        Outcome::Unfinished => start,
    }
}

/// Where a run is when the sequence of its innermost frame has completed:
/// the frame is gone, and with it its scope if it had one.
pub open spec fn left<'a>(start: Run<'a>, scoped: bool, outcome: Outcome) -> Run<'a> {
    match outcome {
        Outcome::Completed { scopes, written } => Run {
            state: State {
                scopes: if scoped {
                    scopes.drop_last()
                } else {
                    scopes
                },
                control: Control::Advance,
                frames: start.state.frames.drop_last(),
                values: start.state.values,
                base: start.state.base,
            },
            reply: Reply::Nothing,
            written,
            result: None,
        },
        Outcome::Failed { error, scopes, written } => failed(start, error, scopes, written),
        Outcome::Unfinished => start,
    }
}

/// The machine executes a statement as `execute` says: from a run that is
/// about to execute it, the driver reaches in `steps` steps the run in
/// which it has completed or failed, if it does either within the rounds
/// given.
pub proof fn lemma_machine_executes<'a>(stmt: &'a Stmt, start: Run<'a>, host: Host, rounds: nat) -> (steps: nat)
    requires
        start.result is None,
        start.state.control == Control::Execute(stmt),
        1 <= start.state.base <= start.state.scopes.len(),
    ensures
        !(execute(stmt, start.state.scopes, start.written, host, rounds) is Unfinished) ==> drive(
            start,
            host,
            steps,
        ) == ended(start, execute(stmt, start.state.scopes, start.written, host, rounds)),
        execute(stmt, start.state.scopes, start.written, host, rounds) matches Outcome::Completed { scopes, .. }
            ==> scopes.len() == start.state.scopes.len(),
    decreases rounds, stmt, 1nat,
{
    let first = once(start, host);
    let outcome = execute(stmt, start.state.scopes, start.written, host, rounds);
    let goal = ended(start, outcome);
    match stmt {
        Stmt::Expr(expression) => {
            let n = lemma_machine_evaluates(expression, first, host);
            lemma_evaluate_keeps_depth(expression, start.state.scopes, host);
            let second = drive(first, host, n);
            assert(drive(start, host, 1 + n) == second);
            match evaluate(expression, start.state.scopes, host).result {
                Ok(_) => {
                    assert(first.state.frames.drop_last() =~= start.state.frames);
                    assert(second.state.values.drop_last() =~= start.state.values);
                    let third = once(second, host);
                    assert(third =~= goal);
                    lemma_drive_then(start, host, 1 + n, 1);
                    assert(drive(second, host, 1) == drive(third, host, 0));
                    1 + n + 1
                },
                Err(_) => 1 + n,
            }
        },
        Stmt::Print(expression) => {
            let n = lemma_machine_evaluates(expression, first, host);
            lemma_evaluate_keeps_depth(expression, start.state.scopes, host);
            let second = drive(first, host, n);
            assert(drive(start, host, 1 + n) == second);
            match evaluate(expression, start.state.scopes, host).result {
                Ok(_) => {
                    assert(first.state.frames.drop_last() =~= start.state.frames);
                    assert(second.state.values.drop_last() =~= start.state.values);
                    let third = once(second, host);
                    lemma_drive_then(start, host, 1 + n, 1);
                    assert(drive(second, host, 1) == drive(third, host, 0));
                    let fourth = once(third, host);
                    assert(fourth =~= goal);
                    lemma_drive_then(start, host, 1 + n + 1, 1);
                    assert(drive(third, host, 1) == drive(fourth, host, 0));
                    1 + n + 1 + 1
                },
                Err(_) => 1 + n,
            }
        },
        Stmt::Var { name, initializer } => {
            let n = lemma_machine_evaluates(initializer, first, host);
            lemma_evaluate_keeps_depth(initializer, start.state.scopes, host);
            let second = drive(first, host, n);
            assert(drive(start, host, 1 + n) == second);
            match evaluate(initializer, start.state.scopes, host).result {
                Ok(_) => {
                    assert(first.state.frames.drop_last() =~= start.state.frames);
                    assert(second.state.values.drop_last() =~= start.state.values);
                    let third = once(second, host);
                    assert(third =~= goal);
                    lemma_drive_then(start, host, 1 + n, 1);
                    assert(drive(second, host, 1) == drive(third, host, 0));
                    1 + n + 1
                },
                Err(_) => 1 + n,
            }
        },
        Stmt::Block(statements) => {
            assert(first.state.frames.drop_last() =~= start.state.frames);
            let n = lemma_machine_sequences(statements, 0, true, first, host, rounds);
            assert(drive(start, host, 1 + n) == drive(first, host, n));
            let inner = sequence(statements, 0, start.state.scopes.push(Map::empty()), start.written, host, rounds);
            if inner is Completed {
                assert(left(first, true, inner) =~= goal);
            }
            1 + n
        },
        Stmt::If { condition, then_branch, else_branch } => {
            let n = lemma_machine_evaluates(condition, first, host);
            lemma_evaluate_keeps_depth(condition, start.state.scopes, host);
            let second = drive(first, host, n);
            assert(drive(start, host, 1 + n) == second);
            let value = evaluate(condition, start.state.scopes, host);
            match value.result {
                Ok(v) => {
                    assert(first.state.frames.drop_last() =~= start.state.frames);
                    assert(second.state.values.drop_last() =~= start.state.values);
                    let third = once(second, host);
                    lemma_drive_then(start, host, 1 + n, 1);
                    assert(drive(second, host, 1) == drive(third, host, 0));
                    assert(third.state.frames =~= start.state.frames);
                    assert(third.state.values =~= start.state.values);
                    if truthy(v) {
                        let m = lemma_machine_executes(&**then_branch, third, host, rounds);
                        lemma_drive_then(start, host, 1 + n + 1, m);
                        if !(outcome is Unfinished) {
                            assert(ended(third, outcome) =~= goal);
                        }
                        1 + n + 1 + m
                    } else {
                        match else_branch {
                            Some(branch) => {
                                let m = lemma_machine_executes(&**branch, third, host, rounds);
                                lemma_drive_then(start, host, 1 + n + 1, m);
                                if !(outcome is Unfinished) {
                                    assert(ended(third, outcome) =~= goal);
                                }
                                1 + n + 1 + m
                            },
                            None => {
                                assert(third =~= goal);
                                1 + n + 1
                            },
                        }
                    }
                },
                Err(_) => 1 + n,
            }
        },
        Stmt::While { condition, body } => {
            assert(first.state.frames.drop_last() =~= start.state.frames);
            let n = lemma_machine_repeats(condition, &**body, first, host, rounds);
            assert(drive(start, host, 1 + n) == drive(first, host, n));
            if !(outcome is Unfinished) {
                assert(left(first, false, outcome) =~= goal);
            }
            1 + n
        },
    }
}

/// The machine runs the statements of a sequence one after the other.
pub proof fn lemma_machine_sequences<'a>(
    statements: &'a Vec<Stmt>,
    from: nat,
    scoped: bool,
    start: Run<'a>,
    host: Host,
    rounds: nat,
) -> (steps: nat)
    requires
        start.result is None,
        start.state.control is Advance,
        start.state.frames.len() > 0,
        start.state.frames.last() == (Frame::Block { statements, next: from as usize, scoped }),
        from <= statements.len(),
        1 <= start.state.base <= start.state.scopes.len(),
        scoped ==> start.state.base < start.state.scopes.len(),
    ensures
        !(sequence(statements, from, start.state.scopes, start.written, host, rounds) is Unfinished) ==> drive(
            start,
            host,
            steps,
        ) == left(start, scoped, sequence(statements, from, start.state.scopes, start.written, host, rounds)),
        sequence(statements, from, start.state.scopes, start.written, host, rounds) matches Outcome::Completed {
            scopes,
            ..
        } ==> scopes.len() == start.state.scopes.len(),
    decreases rounds, statements, statements.len() - from,
{
    let first = once(start, host);
    let outcome = sequence(statements, from, start.state.scopes, start.written, host, rounds);
    let goal = left(start, scoped, outcome);
    assert(drive(start, host, 1) == drive(first, host, 0));
    if from < statements.len() {
        let stmt = &statements[from as int];
        let n = lemma_machine_executes(stmt, first, host, rounds);
        let second = drive(first, host, n);
        assert(drive(start, host, 1 + n) == second);
        match execute(stmt, start.state.scopes, start.written, host, rounds) {
            Outcome::Completed { scopes, written } => {
                assert(first.state.frames.drop_last() =~= start.state.frames.drop_last());
                let m = lemma_machine_sequences(statements, from + 1, scoped, second, host, rounds);
                lemma_drive_then(start, host, 1 + n, m);
                if !(outcome is Unfinished) {
                    assert(left(second, scoped, outcome) =~= goal);
                }
                1 + n + m
            },
            _ => 1 + n,
        }
    } else {
        assert(first =~= goal);
        1
    }
}

/// The machine runs a loop round by round.
pub proof fn lemma_machine_repeats<'a>(
    condition: &'a Expr,
    body: &'a Stmt,
    start: Run<'a>,
    host: Host,
    rounds: nat,
) -> (steps: nat)
    requires
        start.result is None,
        start.state.control == Control::Evaluate(condition),
        start.state.frames.len() > 0,
        start.state.frames.last() == (Frame::LoopTest { condition, body }),
        1 <= start.state.base <= start.state.scopes.len(),
    ensures
        !(repeat(condition, body, start.state.scopes, start.written, host, rounds) is Unfinished) ==> drive(
            start,
            host,
            steps,
        ) == left(start, false, repeat(condition, body, start.state.scopes, start.written, host, rounds)),
        repeat(condition, body, start.state.scopes, start.written, host, rounds) matches Outcome::Completed {
            scopes,
            ..
        } ==> scopes.len() == start.state.scopes.len(),
    decreases rounds, body, 0nat,
{
    if rounds == 0 {
        0
    } else {
        let outcome = repeat(condition, body, start.state.scopes, start.written, host, rounds);
        let goal = left(start, false, outcome);
        let n = lemma_machine_evaluates(condition, start, host);
        lemma_evaluate_keeps_depth(condition, start.state.scopes, host);
        let second = drive(start, host, n);
        let value = evaluate(condition, start.state.scopes, host);
        match value.result {
            Ok(v) => {
                assert(second.state.values.drop_last() =~= start.state.values);
                let third = once(second, host);
                lemma_drive_then(start, host, n, 1);
                assert(drive(second, host, 1) == drive(third, host, 0));
                assert(drive(start, host, n + 1) == third);
                if truthy(v) {
                    let m = lemma_machine_executes(body, third, host, (rounds - 1) as nat);
                    let fourth = drive(third, host, m);
                    lemma_drive_then(start, host, n + 1, m);
                    assert(drive(start, host, n + 1 + m) == fourth);
                    match execute(body, value.scopes, start.written, host, (rounds - 1) as nat) {
                        Outcome::Completed { scopes, written } => {
                            assert(third.state.frames.drop_last() =~= start.state.frames.drop_last());
                            let fifth = once(fourth, host);
                            lemma_drive_then(start, host, n + 1 + m, 1);
                            assert(drive(fourth, host, 1) == drive(fifth, host, 0));
                            assert(fifth.state.frames.drop_last() =~= start.state.frames.drop_last());
                            let k = lemma_machine_repeats(condition, body, fifth, host, (rounds - 1) as nat);
                            lemma_drive_then(start, host, n + 1 + m + 1, k);
                            if !(outcome is Unfinished) {
                                assert(left(fifth, false, outcome) =~= goal);
                            }
                            n + 1 + m + 1 + k
                        },
                        _ => n + 1 + m,
                    }
                } else {
                    assert(third =~= goal);
                    n + 1
                }
            },
            Err(_) => n,
        }
    }
}

/// The run in which a program has been loaded and nothing has been done.
pub open spec fn begun<'a>(state: State<'a>, statements: &'a Vec<Stmt>) -> Run<'a> {
    Run { state: state.loaded(statements), reply: Reply::Nothing, written: Seq::empty(), result: None }
}

/// The machine runs a program as `run` says. Loaded with the program and
/// stepped by a driver that answers as `host` does, it reports the end of a
/// program that completes, with the scopes and the lines that the meaning
/// of the program gives; and it reports the error of a program that fails,
/// with the lines written before, and is left with the scopes that it
/// began with.
pub proof fn lemma_machine_runs<'a>(
    statements: &'a Vec<Stmt>,
    state: State<'a>,
    host: Host,
    rounds: nat,
) -> (steps: nat)
    requires
        1 <= state.base <= state.scopes.len(),
    ensures
        match run(statements, state.scopes.subrange(0, state.base), host, rounds) {
            Outcome::Completed { scopes, written } => drive(begun(state, statements), host, steps) == (Run {
                state: State {
                    scopes,
                    control: Control::Idle,
                    frames: Seq::empty(),
                    values: Seq::empty(),
                    base: state.base,
                },
                reply: Reply::Nothing,
                written,
                result: Some(Ok(())),
            }),
            Outcome::Failed { error, scopes, written } => drive(begun(state, statements), host, steps) == failed(
                begun(state, statements),
                error,
                scopes,
                written,
            ),
            Outcome::Unfinished => true,
        },
{
    let start = begun(state, statements);
    let outcome = run(statements, state.scopes.subrange(0, state.base), host, rounds);
    let n = lemma_machine_sequences(statements, 0, false, start, host, rounds);
    let second = drive(start, host, n);
    match outcome {
        Outcome::Completed { scopes, written } => {
            let third = once(second, host);
            lemma_drive_then(start, host, n, 1);
            assert(drive(second, host, 1) == drive(third, host, 0));
            assert(scopes.subrange(0, state.base) =~= scopes);
            assert(second.state.frames =~= Seq::empty());
            assert(third.state.values =~= Seq::empty());
            n + 1
        },
        _ => n,
    }
}

} // verus!
