//! The machine never gets stuck: its frames and values always fit together.
//!
//! Every frame either waits for a value or for a statement to complete, and
//! what the frame above it hands down is what it waits for. The value stack
//! holds one value for each operator whose right operand is being evaluated,
//! and one more while a value is on its way. Every block that runs has its
//! scope. A machine in such a state steps into such a state, and never
//! reports an inconsistency.

use vstd::prelude::*;
use crate::interpreter::{Control, Frame, Reply, RequestView, State, inconsistency, write_failure};
use crate::stmt::Stmt;

verus! {

/// Whether the frame waits for a value; if not, it waits for a statement to
/// complete.
pub open spec fn awaits_value(frame: Frame) -> bool {
    !(frame is LoopBody || frame is Block)
}

/// Whether the frame, when it is done, hands a value to the frame below it;
/// if not, it tells that frame that a statement has completed.
pub open spec fn yields_value(frame: Frame) -> bool {
    frame is Unary || frame is BinaryRight || frame is BinaryApply || frame is Logical || frame is Assign
}

/// Whether the frame keeps a left operand on the value stack.
pub open spec fn holds_value(frame: Frame) -> bool {
    frame is BinaryApply
}

/// Whether the frame is a block with a scope of its own.
pub open spec fn has_scope(frame: Frame) -> bool {
    frame matches Frame::Block { scoped, .. } && scoped
}

/// The number of left operands that the frames keep on the value stack.
pub open spec fn held(frames: Seq<Frame>) -> nat
    decreases frames.len(),
{
    if frames.len() == 0 {
        0
    } else {
        held(frames.drop_last()) + if holds_value(frames.last()) {
            1nat
        } else {
            0nat
        }
    }
}

/// The number of scopes that the frames have pushed.
pub open spec fn scopes_of(frames: Seq<Frame>) -> nat
    decreases frames.len(),
{
    if frames.len() == 0 {
        0
    } else {
        scopes_of(frames.drop_last()) + if has_scope(frames.last()) {
            1nat
        } else {
            0nat
        }
    }
}

/// Each frame gets from the frame above it what it waits for, and the
/// outermost frame hands no value on.
pub open spec fn chained(frames: Seq<Frame>) -> bool {
    &&& forall|i: int| 0 < i < frames.len() ==> yields_value(#[trigger] frames[i]) == awaits_value(frames[i - 1])
    &&& frames.len() > 0 ==> !yields_value(frames[0])
}

/// Whether what the machine is about to do suits the innermost frame.
pub open spec fn suits(control: Control, frames: Seq<Frame>) -> bool {
    match control {
        Control::Idle => frames.len() == 0,
        Control::Evaluate(_) => frames.len() > 0 && awaits_value(frames.last()),
        Control::Return => frames.len() > 0 && awaits_value(frames.last()),
        Control::AwaitNumber { .. } => frames.len() > 0 && awaits_value(frames.last()),
        Control::Execute(_) => frames.len() == 0 || !awaits_value(frames.last()),
        Control::Advance => frames.len() == 0 || !awaits_value(frames.last()),
        Control::AwaitWrite => frames.len() == 0 || !awaits_value(frames.last()),
    }
}

/// The number of values that are on their way.
pub open spec fn in_flight(control: Control) -> nat {
    if control is Return || control is AwaitWrite {
        1
    } else {
        0
    }
}

/// Frames, values and scopes fit together.
pub open spec fn consistent(state: State) -> bool {
    &&& 1 <= state.base
    &&& state.scopes.len() == state.base + scopes_of(state.frames)
    &&& state.values.len() == held(state.frames) + in_flight(state.control)
    &&& chained(state.frames)
    &&& suits(state.control, state.frames)
}

/// What a frame adds to the counts.
pub proof fn lemma_pushed(frames: Seq<Frame>, frame: Frame)
    ensures
        held(frames.push(frame)) == held(frames) + if holds_value(frame) {
            1nat
        } else {
            0nat
        },
        scopes_of(frames.push(frame)) == scopes_of(frames) + if has_scope(frame) {
            1nat
        } else {
            0nat
        },
{
    assert(frames.push(frame).drop_last() =~= frames);
}

/// A machine that has just been loaded is consistent.
pub proof fn lemma_loaded_consistent(state: State, statements: &Vec<Stmt>)
    requires
        1 <= state.base <= state.scopes.len(),
    ensures
        consistent(state.loaded(statements)),
{
    let frame = Frame::Block { statements, next: 0, scoped: false };
    lemma_pushed(Seq::empty(), frame);
}

/// The error of a failed write is not that of an inconsistency.
pub proof fn lemma_write_failure_differs()
    ensures
        write_failure() != inconsistency(),
{
    reveal_strlit("Failed to write output");
    reveal_strlit("Interpreter state is inconsistent");
    assert("Failed to write output"@[0] == 'F');
    assert("Interpreter state is inconsistent"@[0] == 'I');
}

/// What the counts and the chain are without the innermost frame.
pub proof fn lemma_popped(frames: Seq<Frame>)
    requires
        frames.len() > 0,
        chained(frames),
    ensures
        chained(frames.drop_last()),
        held(frames) == held(frames.drop_last()) + if holds_value(frames.last()) {
            1nat
        } else {
            0nat
        },
        scopes_of(frames) == scopes_of(frames.drop_last()) + if has_scope(frames.last()) {
            1nat
        } else {
            0nat
        },
        frames.len() > 1 ==> yields_value(frames.last()) == awaits_value(frames.drop_last().last()),
        frames.len() == 1 ==> !yields_value(frames.last()),
{
    let rest = frames.drop_last();
    assert forall|i: int| 0 < i < rest.len() implies yields_value(#[trigger] rest[i]) == awaits_value(
        rest[i - 1],
    ) by {
        assert(rest[i] == frames[i]);
        assert(rest[i - 1] == frames[i - 1]);
    }
    if rest.len() > 0 {
        assert(rest[0] == frames[0]);
        assert(rest.last() == frames[frames.len() - 2]);
        assert(yields_value(frames[frames.len() - 1]) == awaits_value(frames[frames.len() - 2]));
    }
}

/// The state with one more frame is consistent if the frame fits.
pub proof fn lemma_push_frame(state: State, frame: Frame, control: Control)
    requires
        chained(state.frames),
        if state.frames.len() == 0 {
            !yields_value(frame)
        } else {
            yields_value(frame) == awaits_value(state.frames.last())
        },
    ensures
        chained(state.push_frame(frame).frames),
        state.push_frame(frame).frames.last() == frame,
        held(state.push_frame(frame).frames) == held(state.frames) + if holds_value(frame) {
            1nat
        } else {
            0nat
        },
        scopes_of(state.push_frame(frame).frames) == scopes_of(state.frames) + if has_scope(frame) {
            1nat
        } else {
            0nat
        },
{
    lemma_chained_push(state.frames, frame);
    lemma_pushed(state.frames, frame);
}

/// Taking a statement up keeps the machine consistent.
pub proof fn lemma_execute_consistent<'a>(state: State<'a>, stmt: &'a Stmt)
    requires
        consistent(state),
        state.control == Control::Execute(stmt),
    ensures
        consistent(state.execute(stmt).0),
        state.execute(stmt).1 == RequestView::Proceed,
{
    match stmt {
        Stmt::Expr(expression) => {
            lemma_push_frame(state, Frame::Discard, Control::Evaluate(expression));
        },
        Stmt::If { condition, then_branch, else_branch } => {
            let frame = Frame::Branch {
                then_branch: &**then_branch,
                else_branch: match else_branch {
                    Some(branch) => Some(&**branch),
                    None => None,
                },
            };
            lemma_push_frame(state, frame, Control::Evaluate(condition));
        },
        Stmt::Print(expression) => {
            lemma_push_frame(state, Frame::Print, Control::Evaluate(expression));
        },
        Stmt::Var { name, initializer } => {
            lemma_push_frame(state, Frame::Define { name }, Control::Evaluate(initializer));
        },
        Stmt::While { condition, body } => {
            lemma_push_frame(state, Frame::LoopTest { condition, body: &**body }, Control::Evaluate(condition));
        },
        Stmt::Block(statements) => {
            let entered = state.with_scopes(state.scopes.push(Map::empty()));
            lemma_push_frame(entered, Frame::Block { statements, next: 0, scoped: true }, Control::Advance);
        },
    }
}

/// Taking an expression up keeps the machine consistent.
pub proof fn lemma_evaluate_consistent<'a>(state: State<'a>, expr: &'a crate::expr::Expr)
    requires
        consistent(state),
        state.control == Control::Evaluate(expr),
    ensures
        consistent(state.evaluate(expr).0),
        state.evaluate(expr).1 != RequestView::Failed(inconsistency()),
{
    match expr {
        crate::expr::Expr::Unary { operator, right } => {
            lemma_push_frame(state, Frame::Unary { operator }, Control::Evaluate(&**right));
        },
        crate::expr::Expr::Binary { left, operator, right } => {
            lemma_push_frame(state, Frame::BinaryRight { operator, right: &**right }, Control::Evaluate(&**left));
        },
        crate::expr::Expr::Assign { name, value } => {
            lemma_push_frame(state, Frame::Assign { name }, Control::Evaluate(&**value));
        },
        crate::expr::Expr::Logical { left, operator, right } => {
            lemma_push_frame(state, Frame::Logical { operator, right: &**right }, Control::Evaluate(&**left));
        },
        _ => {},
    }
}

/// Handing a value to the innermost frame keeps the machine consistent.
pub proof fn lemma_resume_consistent(state: State)
    requires
        consistent(state),
        state.control is Return,
    ensures
        consistent(state.resume().0),
        state.resume().1 != RequestView::Failed(inconsistency()),
{
    lemma_popped(state.frames);
    let rest = state.pop_frame();
    match state.frames.last() {
        Frame::BinaryRight { operator, right } => {
            lemma_push_frame(rest, Frame::BinaryApply { operator }, Control::Evaluate(right));
        },
        Frame::LoopTest { condition, body } => {
            lemma_push_frame(rest.pop_value(), Frame::LoopBody { condition, body }, Control::Execute(body));
        },
        Frame::Assign { name } => {
            crate::environment::lemma_holder(state.scopes, name.lexeme@);
        },
        _ => {},
    }
}

/// Going on after a statement keeps the machine consistent.
pub proof fn lemma_advance_consistent(state: State)
    requires
        consistent(state),
        state.control is Advance,
    ensures
        consistent(state.advance().0),
        state.advance().1 != RequestView::Failed(inconsistency()),
{
    if state.frames.len() > 0 {
        lemma_popped(state.frames);
        let rest = state.pop_frame();
        match state.frames.last() {
            Frame::LoopBody { condition, body } => {
                lemma_push_frame(rest, Frame::LoopTest { condition, body }, Control::Evaluate(condition));
            },
            Frame::Block { statements, next, scoped } => {
                if next < statements@.len() {
                    lemma_push_frame(
                        rest,
                        Frame::Block { statements, next: (next + 1) as usize, scoped },
                        Control::Execute(&statements@[next as int]),
                    );
                }
            },
            _ => {},
        }
    }
}

/// An answer keeps the machine consistent.
pub proof fn lemma_answered_consistent(state: State, reply: Reply)
    requires
        consistent(state),
        state.control is AwaitNumber || state.control is AwaitWrite,
    ensures
        consistent(state.answered(reply).0),
        state.answered(reply).1 != RequestView::Failed(inconsistency()),
{
    lemma_write_failure_differs();
}

/// A consistent machine steps into a consistent state, and the step does
/// not report an inconsistency.
pub proof fn lemma_step_consistent(state: State, reply: Reply)
    requires
        consistent(state),
    ensures
        consistent(state.step(reply).0),
        state.step(reply).1 != RequestView::Failed(inconsistency()),
{
    match state.control {
        Control::Idle => {},
        Control::Execute(stmt) => {
            lemma_execute_consistent(state, stmt);
        },
        Control::Evaluate(expr) => {
            lemma_evaluate_consistent(state, expr);
        },
        Control::Return => {
            lemma_resume_consistent(state);
        },
        Control::Advance => {
            lemma_advance_consistent(state);
        },
        Control::AwaitNumber { .. } => {
            lemma_answered_consistent(state, reply);
        },
        Control::AwaitWrite => {
            lemma_answered_consistent(state, reply);
        },
    }
}

/// A frame that hands down what the frame below it waits for keeps the
/// chain whole.
pub proof fn lemma_chained_push(frames: Seq<Frame>, frame: Frame)
    requires
        chained(frames),
        if frames.len() == 0 {
            !yields_value(frame)
        } else {
            yields_value(frame) == awaits_value(frames.last())
        },
    ensures
        chained(frames.push(frame)),
{
    let longer = frames.push(frame);
    assert forall|i: int| 0 < i < longer.len() implies yields_value(#[trigger] longer[i]) == awaits_value(
        longer[i - 1],
    ) by {
        if i < frames.len() {
            assert(longer[i] == frames[i]);
            assert(longer[i - 1] == frames[i - 1]);
        }
    }
}

/// When a program ends or fails, the scopes that it pushed are gone and the
/// machine is at rest, whatever the program was doing: no block leaves its
/// scope behind.
pub proof fn lemma_scopes_released(state: State, reply: Reply)
    requires
        consistent(state),
    ensures
        state.step(reply).1 is Done || state.step(reply).1 is Failed ==> state.step(reply).0.control is Idle
            && state.step(reply).0.scopes.len() == state.base && state.step(reply).0.frames.len() == 0,
{
    lemma_step_consistent(state, reply);
}

} // verus!
