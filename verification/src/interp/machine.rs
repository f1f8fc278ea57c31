//! The execution engine as a machine that runs in steps.
//!
//! The machine holds what is still to be done on a control stack of frames
//! and what was computed on an operand stack of values. One step takes the
//! top frame and does what it says. A step may end with a signal to the
//! host: a value to print, a question on numbers, a failure, or the end of
//! the program.

use vstd::prelude::*;
use lasso::Rodeo;
use super::env::{bind, resolve, Env, Scopes};
use super::intern::interned;
use super::number::{Answer, Question};
use super::value::{
    outcome_view, Outcome, OutcomeView, Printable, PrintableView, Value, ValueView,
};
use super::{RuntimeError, RuntimeErrorView};
use crate::parse::expr::Expr;
use crate::parse::stmt::Stmt;
use crate::parse::token::{BinaryOp, UnaryOp};
use crate::util::Location;

verus! {

/// One piece of work on the control stack.
#[derive(Debug, PartialEq)]
pub enum Frame {
    /// Execute the statement.
    Exec(Stmt),
    /// A block ends here: leave its scope.
    Leave,
    /// Evaluate the expression and put its value on the operand stack.
    Eval(Expr),
    /// Apply the operator to the top operand.
    Unary(Location, UnaryOp),
    /// Apply the operator to the two top operands; the right one is on top.
    Binary(Location, BinaryOp),
    /// Drop the top operand.
    Discard,
    /// Print the top operand.
    Print,
    /// Bind the name to the top operand.
    Define(String),
    /// Execute the first statement where the top operand is truthy, else
    /// the second where there is one.
    Branch(Box<Stmt>, Option<Box<Stmt>>),
}

/// What the machine tells its host when it stops.
#[derive(Debug, PartialEq)]
pub enum Signal {
    /// Nothing is left to do.
    Done,
    /// Execution failed. What was left to do is abandoned.
    Failed(RuntimeError),
    /// Write this and a line break, then resume.
    Print(Printable),
    /// Work this out, then resume with the answer.
    Ask(Question),
}

/// What a `Signal` holds, as mathematical values.
pub enum SignalView {
    Done,
    Failed(RuntimeErrorView),
    Print(PrintableView),
    Ask(Question),
}

impl View for Signal {
    type V = SignalView;

    open spec fn view(&self) -> SignalView {
        match self {
            Signal::Done => SignalView::Done,
            Signal::Failed(e) => SignalView::Failed(e@),
            Signal::Print(p) => SignalView::Print(p@),
            Signal::Ask(q) => SignalView::Ask(*q),
        }
    }
}

/// The state of the machine, as mathematical values. The top of each stack
/// is its last element.
pub struct State {
    pub scopes: Scopes,
    pub control: Seq<Frame>,
    pub operands: Seq<ValueView>,
    /// The question that the host was asked and has not answered yet.
    pub asked: Option<Question>,
}

/// The views of the values of a stack.
pub open spec fn views(values: Seq<Value>) -> Seq<ValueView> {
    Seq::new(values.len(), |i: int| values[i]@)
}

/// The frames that execute the statements of a block: the first statement
/// is on top.
pub open spec fn block_frames(statements: Seq<Stmt>) -> Seq<Frame> {
    Seq::new(statements.len(), |i: int| Frame::Exec(statements[statements.len() - 1 - i]))
}

/// What a unary operator makes of its operand.
pub open spec fn unary(op: UnaryOp, operand: ValueView) -> Option<OutcomeView> {
    match op {
        UnaryOp::Not => match operand.not() {
            Some(v) => Some(OutcomeView::Value(v)),
            None => None,
        },
        UnaryOp::Minus => operand.minus(),
    }
}

/// What a binary operator makes of its operands.
pub open spec fn binary(op: BinaryOp, left: ValueView, right: ValueView, strings: Seq<Seq<char>>)
    -> Option<OutcomeView> {
    match op {
        BinaryOp::Add => left.add(right, strings),
        BinaryOp::Sub => left.sub(right),
        BinaryOp::Mul => left.mul(right),
        BinaryOp::Div => left.div(right),
        BinaryOp::Equal => left.eq(right, strings),
        BinaryOp::NotEqual => left.neq(right, strings),
        BinaryOp::Greater => left.gt(right),
        BinaryOp::GreaterEqual => left.ge(right),
        BinaryOp::Less => left.lt(right),
        BinaryOp::LessEqual => left.le(right),
    }
}

/// The value that an answer gives to the question it answers: a number
/// for negation and arithmetic, a truth value for a comparison. An answer
/// of the other kind gives no value.
pub open spec fn answered(question: Question, answer: Answer) -> Option<ValueView> {
    match (question, answer) {
        (Question::Comparison(..), Answer::Truth(b)) => Some(ValueView::Bool(b)),
        (Question::Negate(_), Answer::Number(bits)) => Some(ValueView::Number(bits)),
        (Question::Arithmetic(..), Answer::Number(bits)) => Some(ValueView::Number(bits)),
        _ => None,
    }
}

impl State {
    /// The state after a failure: what was left to do is abandoned and
    /// every child scope is left. The root scope keeps its definitions.
    pub open spec fn abandoned(self) -> State {
        State {
            scopes: self.scopes.take(1),
            control: Seq::empty(),
            operands: Seq::empty(),
            asked: None,
        }
    }

    /// The state after the machine has taken up an operator's outcome, with
    /// the signal it gives. `rest` are the operands below those of the
    /// operator. A value goes on the operand stack; a question goes to the
    /// host; where the operator is undefined, execution fails with `error`.
    pub open spec fn applied(
        self,
        rest: Seq<ValueView>,
        outcome: Option<OutcomeView>,
        error: RuntimeErrorView,
    ) -> (State, Option<SignalView>) {
        match outcome {
            Some(OutcomeView::Value(v)) => (State { operands: rest.push(v), ..self }, None),
            Some(OutcomeView::Ask(q)) => (
                State { operands: rest, asked: Some(q), ..self },
                Some(SignalView::Ask(q)),
            ),
            None => (self.abandoned(), Some(SignalView::Failed(error))),
        }
    }

    /// Executes `stmt`: schedules its parts. `self` is the state without
    /// the frame that held `stmt`.
    pub open spec fn execute(self, stmt: Stmt) -> State {
        match stmt {
            Stmt::Expr { expr } => State {
                control: self.control.push(Frame::Discard).push(Frame::Eval(expr)),
                ..self
            },
            Stmt::Print { expr, .. } => State {
                control: self.control.push(Frame::Print).push(Frame::Eval(expr)),
                ..self
            },
            Stmt::Var { name, init, .. } => match init {
                Some(expr) => State {
                    control: self.control.push(Frame::Define(name)).push(Frame::Eval(expr)),
                    ..self
                },
                None => State { scopes: bind(self.scopes, name@, ValueView::Nil), ..self },
            },
            Stmt::Block { statements } => State {
                scopes: self.scopes.push(Map::empty()),
                control: self.control.push(Frame::Leave) + block_frames(statements@),
                ..self
            },
            Stmt::If { condition, then, otherwise, .. } => State {
                control: self.control.push(Frame::Branch(then, otherwise)).push(
                    Frame::Eval(condition),
                ),
                ..self
            },
        }
    }

    /// Evaluates `expr`: pushes the value of a literal or of a variable, and
    /// schedules the parts of any other expression. `self` is the state
    /// without the frame that held `expr`.
    pub open spec fn eval(self, expr: Expr) -> (State, Option<SignalView>) {
        match expr {
            Expr::Literal { value, .. } => (
                State { operands: self.operands.push(value@), ..self },
                None,
            ),
            Expr::Grouping { expr, .. } => (
                State { control: self.control.push(Frame::Eval(*expr)), ..self },
                None,
            ),
            Expr::Unary { loc, op, expr } => (
                State {
                    control: self.control.push(Frame::Unary(loc, op)).push(Frame::Eval(*expr)),
                    ..self
                },
                None,
            ),
            Expr::Binary { loc, op, left, right } => (
                State {
                    control: self.control.push(Frame::Binary(loc, op)).push(
                        Frame::Eval(*right),
                    ).push(Frame::Eval(*left)),
                    ..self
                },
                None,
            ),
            Expr::Variable { loc, name } => match resolve(self.scopes, name@) {
                Some(v) => (State { operands: self.operands.push(v), ..self }, None),
                None => (
                    self.abandoned(),
                    Some(SignalView::Failed(RuntimeErrorView::UndefinedVariable(loc, name@))),
                ),
            },
        }
    }

    /// Does what `frame` says. `self` is the state without `frame`. A frame
    /// that needs more operands than there are does nothing.
    pub open spec fn perform(self, frame: Frame, strings: Seq<Seq<char>>) -> (
        State,
        Option<SignalView>,
    ) {
        let top = self.operands.last();
        let below = self.operands.drop_last();
        match frame {
            Frame::Exec(stmt) => (self.execute(stmt), None),
            Frame::Leave => (
                State {
                    scopes: if self.scopes.len() > 1 {
                        self.scopes.drop_last()
                    } else {
                        self.scopes
                    },
                    ..self
                },
                None,
            ),
            Frame::Eval(expr) => self.eval(expr),
            Frame::Unary(loc, op) => if self.operands.len() < 1 {
                (self, None)
            } else {
                self.applied(
                    below,
                    unary(op, top),
                    RuntimeErrorView::InvalidUnaryOp(loc, op, top.name()),
                )
            },
            Frame::Binary(loc, op) => if self.operands.len() < 2 {
                (self, None)
            } else {
                let left = below.last();
                self.applied(
                    below.drop_last(),
                    binary(op, left, top, strings),
                    RuntimeErrorView::InvalidBinaryOp(loc, op, left.name(), top.name()),
                )
            },
            Frame::Discard => if self.operands.len() < 1 {
                (self, None)
            } else {
                (State { operands: below, ..self }, None)
            },
            Frame::Print => if self.operands.len() < 1 {
                (self, None)
            } else {
                (State { operands: below, ..self }, Some(SignalView::Print(top.render(strings))))
            },
            Frame::Define(name) => if self.operands.len() < 1 {
                (self, None)
            } else {
                (State { scopes: bind(self.scopes, name@, top), operands: below, ..self }, None)
            },
            Frame::Branch(then, otherwise) => if self.operands.len() < 1 {
                (self, None)
            } else if top.truthiness() {
                (State { control: self.control.push(Frame::Exec(*then)), operands: below, ..self }, None)
            } else {
                match otherwise {
                    Some(stmt) => (
                        State {
                            control: self.control.push(Frame::Exec(*stmt)),
                            operands: below,
                            ..self
                        },
                        None,
                    ),
                    None => (State { operands: below, ..self }, None),
                }
            },
        }
    }

    /// One step: the machine takes the top frame and does what the frame
    /// says. With nothing left to do it is done. While it waits for an
    /// answer it does nothing but ask again.
    pub open spec fn step(self, strings: Seq<Seq<char>>) -> (State, Option<SignalView>) {
        if let Some(q) = self.asked {
            (self, Some(SignalView::Ask(q)))
        } else if self.control.len() == 0 {
            (self, Some(SignalView::Done))
        } else {
            State { control: self.control.drop_last(), ..self }.perform(
                self.control.last(),
                strings,
            )
        }
    }

    /// Whether every frame will find the operands it takes. The value of a
    /// question that is asked counts as an operand: it is one as soon as
    /// the question is answered.
    pub open spec fn balanced(self) -> bool {
        supplied(
            self.control,
            self.operands.len() + if self.asked is Some {
                1nat
            } else {
                0nat
            },
        )
    }

    /// Whether the machine is in as many child scopes as it is in blocks.
    pub open spec fn nested(self) -> bool {
        self.scopes.len() == blocks(self.control) + 1
    }

    /// Steps until a step gives a signal.
    pub open spec fn run(self, strings: Seq<Seq<char>>) -> (State, SignalView)
        decreases control_cost(self.control),
    {
        let (next, signal) = self.step(strings);
        match signal {
            Some(s) => (next, s),
            None => {
                proof {
                    lemma_step_decreases(self, strings);
                }
                next.run(strings)
            },
        }
    }

    /// The state in which the machine starts on `statements`: whatever it
    /// was doing is abandoned, and the statements are all it has to do.
    pub open spec fn started(self, statements: Seq<Stmt>) -> State {
        State { control: block_frames(statements), ..self.abandoned() }
    }

    /// The state after the host has handed over `answer`. An answer to the
    /// question that was asked puts the question's value on the operand
    /// stack. Any other answer, and any answer when nothing was asked,
    /// changes nothing.
    pub open spec fn told(self, answer: Option<Answer>) -> State {
        match (self.asked, answer) {
            (Some(q), Some(a)) => match answered(q, a) {
                Some(v) => State { operands: self.operands.push(v), asked: None, ..self },
                None => self,
            },
            _ => self,
        }
    }
}

/// How many operands a frame takes from the operand stack.
pub open spec fn takes(frame: Frame) -> nat {
    match frame {
        Frame::Binary(..) => 2,
        Frame::Unary(..) | Frame::Discard | Frame::Print | Frame::Define(_) | Frame::Branch(..) => 1,
        _ => 0,
    }
}

/// How many operands a frame has put on the operand stack when all that it
/// scheduled is done.
pub open spec fn leaves(frame: Frame) -> nat {
    match frame {
        Frame::Eval(_) | Frame::Unary(..) | Frame::Binary(..) => 1,
        _ => 0,
    }
}

/// Whether every frame of a control stack will find the operands it takes,
/// where `depth` operands are there when the top frame's turn comes.
pub open spec fn supplied(control: Seq<Frame>, depth: nat) -> bool
    decreases control.len(),
{
    if control.len() == 0 {
        true
    } else {
        depth >= takes(control.last()) && supplied(
            control.drop_last(),
            (depth - takes(control.last()) + leaves(control.last())) as nat,
        )
    }
}

/// Frames that execute statements neither take nor leave operands.
proof fn lemma_block_supplied(below: Seq<Frame>, statements: Seq<Stmt>, depth: nat)
    requires
        supplied(below, depth),
    ensures
        supplied(below + block_frames(statements), depth),
    decreases statements.len(),
{
    let frames = block_frames(statements);
    if statements.len() == 0 {
        assert(below + frames =~= below);
    } else {
        lemma_block_supplied(below, statements.drop_first(), depth);
        assert((below + frames).drop_last() =~= below + block_frames(statements.drop_first()));
        assert((below + frames).last() == Frame::Exec(statements.first()));
    }
}

/// A stack with one more frame on top is supplied where the frame finds
/// its operands and the stack below finds its own after it.
proof fn lemma_supplied_push(control: Seq<Frame>, frame: Frame, depth: nat)
    requires
        depth >= takes(frame),
        supplied(control, (depth - takes(frame) + leaves(frame)) as nat),
    ensures
        supplied(control.push(frame), depth),
{
    assert(control.push(frame).drop_last() =~= control);
}

/// A machine that starts on a program is balanced.
pub proof fn lemma_started_balanced(state: State, statements: Seq<Stmt>)
    ensures
        state.started(statements).balanced(),
{
    lemma_block_supplied(Seq::empty(), statements, 0);
    assert(Seq::<Frame>::empty() + block_frames(statements) =~= block_frames(statements));
}

/// An answer leaves a balanced machine balanced.
pub proof fn lemma_told_balanced(state: State, answer: Option<Answer>)
    requires
        state.balanced(),
    ensures
        state.told(answer).balanced(),
{
}

/// In a balanced machine every frame finds the operands it takes: no step
/// is one that does nothing for want of operands.
pub proof fn lemma_balanced_finds_operands(state: State)
    requires
        state.balanced(),
        state.asked is None,
        state.control.len() > 0,
    ensures
        state.operands.len() >= takes(state.control.last()),
{
}

/// A step leaves a balanced machine balanced.
pub proof fn lemma_step_balanced(state: State, strings: Seq<Seq<char>>)
    requires
        state.balanced(),
    ensures
        state.step(strings).0.balanced(),
{
    if state.asked is None && state.control.len() > 0 {
        let rest = state.control.drop_last();
        let frame = state.control.last();
        let depth = state.operands.len();
        match frame {
            Frame::Exec(stmt) => {
                match stmt {
                    Stmt::Expr { expr } => {
                        lemma_supplied_push(rest, Frame::Discard, depth + 1);
                        lemma_supplied_push(rest.push(Frame::Discard), Frame::Eval(expr), depth);
                    },
                    Stmt::Print { expr, .. } => {
                        lemma_supplied_push(rest, Frame::Print, depth + 1);
                        lemma_supplied_push(rest.push(Frame::Print), Frame::Eval(expr), depth);
                    },
                    Stmt::Var { name, init, .. } => {
                        if let Some(expr) = init {
                            lemma_supplied_push(rest, Frame::Define(name), depth + 1);
                            lemma_supplied_push(
                                rest.push(Frame::Define(name)),
                                Frame::Eval(expr),
                                depth,
                            );
                        }
                    },
                    Stmt::Block { statements } => {
                        lemma_supplied_push(rest, Frame::Leave, depth);
                        lemma_block_supplied(rest.push(Frame::Leave), statements@, depth);
                    },
                    Stmt::If { condition, then, otherwise, .. } => {
                        lemma_supplied_push(rest, Frame::Branch(then, otherwise), depth + 1);
                        lemma_supplied_push(
                            rest.push(Frame::Branch(then, otherwise)),
                            Frame::Eval(condition),
                            depth,
                        );
                    },
                }
            },
            Frame::Eval(expr) => {
                match expr {
                    Expr::Grouping { expr, .. } => {
                        lemma_supplied_push(rest, Frame::Eval(*expr), depth);
                    },
                    Expr::Unary { loc, op, expr } => {
                        lemma_supplied_push(rest, Frame::Unary(loc, op), depth + 1);
                        lemma_supplied_push(rest.push(Frame::Unary(loc, op)), Frame::Eval(*expr), depth);
                    },
                    Expr::Binary { loc, op, left, right } => {
                        lemma_supplied_push(rest, Frame::Binary(loc, op), depth + 2);
                        lemma_supplied_push(
                            rest.push(Frame::Binary(loc, op)),
                            Frame::Eval(*right),
                            depth + 1,
                        );
                        lemma_supplied_push(
                            rest.push(Frame::Binary(loc, op)).push(Frame::Eval(*right)),
                            Frame::Eval(*left),
                            depth,
                        );
                    },
                    _ => {},
                }
            },
            Frame::Branch(then, otherwise) => {
                lemma_supplied_push(rest, Frame::Exec(*then), (depth - 1) as nat);
                if let Some(stmt) = otherwise {
                    lemma_supplied_push(rest, Frame::Exec(*stmt), (depth - 1) as nat);
                }
            },
            _ => {},
        }
    }
}

/// Running leaves a balanced machine balanced.
pub proof fn lemma_run_balanced(state: State, strings: Seq<Seq<char>>)
    requires
        state.balanced(),
    ensures
        state.run(strings).0.balanced(),
    decreases control_cost(state.control),
{
    lemma_step_balanced(state, strings);
    if state.step(strings).1 is None {
        lemma_step_decreases(state, strings);
        lemma_run_balanced(state.step(strings).0, strings);
    }
}

/// The number of blocks that a control stack is in: each has a frame that
/// leaves its scope.
pub open spec fn blocks(control: Seq<Frame>) -> nat
    decreases control.len(),
{
    if control.len() == 0 {
        0
    } else {
        blocks(control.drop_last()) + if control.last() is Leave {
            1nat
        } else {
            0nat
        }
    }
}

/// The frames that execute a block's statements are in no block of their
/// own.
proof fn lemma_block_blocks(below: Seq<Frame>, statements: Seq<Stmt>)
    ensures
        blocks(below + block_frames(statements)) == blocks(below),
    decreases statements.len(),
{
    let frames = block_frames(statements);
    if statements.len() == 0 {
        assert(below + frames =~= below);
    } else {
        lemma_block_blocks(below, statements.drop_first());
        assert((below + frames).drop_last() =~= below + block_frames(statements.drop_first()));
        assert((below + frames).last() == Frame::Exec(statements.first()));
    }
}

/// A stack with one more frame is in one more block where the frame ends
/// a block, else in as many.
proof fn lemma_blocks_push(control: Seq<Frame>, frame: Frame)
    ensures
        blocks(control.push(frame)) == blocks(control) + if frame is Leave {
            1nat
        } else {
            0nat
        },
{
    assert(control.push(frame).drop_last() =~= control);
}

/// A machine that starts on a program is nested, whatever it was doing,
/// if it has a root scope.
pub proof fn lemma_started_nested(state: State, statements: Seq<Stmt>)
    requires
        state.scopes.len() >= 1,
    ensures
        state.started(statements).nested(),
{
    lemma_block_blocks(Seq::empty(), statements);
    assert(Seq::<Frame>::empty() + block_frames(statements) =~= block_frames(statements));
}

/// A step leaves a nested machine nested: a block's scope is entered with
/// the block and left with it, on failure too.
pub proof fn lemma_step_nested(state: State, strings: Seq<Seq<char>>)
    requires
        state.nested(),
    ensures
        state.step(strings).0.nested(),
{
    if state.asked is None && state.control.len() > 0 {
        let rest = state.control.drop_last();
        let frame = state.control.last();
        match frame {
            Frame::Exec(stmt) => {
                match stmt {
                    Stmt::Expr { expr } => {
                        lemma_blocks_push(rest, Frame::Discard);
                        lemma_blocks_push(rest.push(Frame::Discard), Frame::Eval(expr));
                    },
                    Stmt::Print { expr, .. } => {
                        lemma_blocks_push(rest, Frame::Print);
                        lemma_blocks_push(rest.push(Frame::Print), Frame::Eval(expr));
                    },
                    Stmt::Var { name, init, .. } => {
                        if let Some(expr) = init {
                            lemma_blocks_push(rest, Frame::Define(name));
                            lemma_blocks_push(rest.push(Frame::Define(name)), Frame::Eval(expr));
                        }
                    },
                    Stmt::Block { statements } => {
                        lemma_blocks_push(rest, Frame::Leave);
                        lemma_block_blocks(rest.push(Frame::Leave), statements@);
                    },
                    Stmt::If { condition, then, otherwise, .. } => {
                        lemma_blocks_push(rest, Frame::Branch(then, otherwise));
                        lemma_blocks_push(
                            rest.push(Frame::Branch(then, otherwise)),
                            Frame::Eval(condition),
                        );
                    },
                }
            },
            Frame::Eval(expr) => {
                match expr {
                    Expr::Grouping { expr, .. } => {
                        lemma_blocks_push(rest, Frame::Eval(*expr));
                    },
                    Expr::Unary { loc, op, expr } => {
                        lemma_blocks_push(rest, Frame::Unary(loc, op));
                        lemma_blocks_push(rest.push(Frame::Unary(loc, op)), Frame::Eval(*expr));
                    },
                    Expr::Binary { loc, op, left, right } => {
                        lemma_blocks_push(rest, Frame::Binary(loc, op));
                        lemma_blocks_push(rest.push(Frame::Binary(loc, op)), Frame::Eval(*right));
                        lemma_blocks_push(
                            rest.push(Frame::Binary(loc, op)).push(Frame::Eval(*right)),
                            Frame::Eval(*left),
                        );
                    },
                    _ => {},
                }
            },
            Frame::Branch(then, otherwise) => {
                lemma_blocks_push(rest, Frame::Exec(*then));
                if let Some(stmt) = otherwise {
                    lemma_blocks_push(rest, Frame::Exec(*stmt));
                }
            },
            _ => {},
        }
    }
}

/// Running leaves a nested machine nested. When the machine is done or
/// has failed, it is in its root scope and has nothing left to do.
pub proof fn lemma_run_nested(state: State, strings: Seq<Seq<char>>)
    requires
        state.nested(),
    ensures
        state.run(strings).0.nested(),
        state.run(strings).1 is Done || state.run(strings).1 is Failed ==> state.run(
            strings,
        ).0.scopes.len() == 1 && state.run(strings).0.control.len() == 0,
    decreases control_cost(state.control),
{
    lemma_step_nested(state, strings);
    if state.step(strings).1 is None {
        lemma_step_decreases(state, strings);
        lemma_run_nested(state.step(strings).0, strings);
    }
}

/// Computes `unary`.
pub fn apply_unary(op: UnaryOp, operand: &Value) -> (result: Option<Outcome>)
    ensures
        outcome_view(result) == unary(op, operand@),
{
    match op {
        UnaryOp::Not => match operand.not() {
            Some(v) => Some(Outcome::Value(v)),
            None => None,
        },
        UnaryOp::Minus => operand.minus(),
    }
}

/// Computes `binary`.
pub fn apply_binary(op: BinaryOp, left: Value, right: Value, arena: &Rodeo) -> (result: Option<
    Outcome,
>)
    ensures
        outcome_view(result) == binary(op, left@, right@, interned(*arena)),
{
    match op {
        BinaryOp::Add => left.add(right, arena),
        BinaryOp::Sub => left.sub(right),
        BinaryOp::Mul => left.mul(right),
        BinaryOp::Div => left.div(right),
        BinaryOp::Equal => left.eq(&right, arena),
        BinaryOp::NotEqual => left.neq(&right, arena),
        BinaryOp::Greater => left.gt(&right),
        BinaryOp::GreaterEqual => left.ge(&right),
        BinaryOp::Less => left.lt(&right),
        BinaryOp::LessEqual => left.le(&right),
    }
}

/// Computes `answered`.
pub fn answer_value(question: &Question, answer: &Answer) -> (value: Option<Value>)
    ensures
        match value {
            Some(v) => answered(*question, *answer) == Some(v@),
            None => answered(*question, *answer) is None,
        },
{
    match (question, answer) {
        (Question::Comparison(..), Answer::Truth(b)) => Some(Value::Bool(*b)),
        (Question::Negate(_), Answer::Number(bits)) => Some(Value::Number(*bits)),
        (Question::Arithmetic(..), Answer::Number(bits)) => Some(Value::Number(*bits)),
        _ => None,
    }
}

/// An upper bound on the steps that evaluating an expression takes.
pub open spec fn expr_cost(expr: Expr) -> nat
    decreases expr,
{
    match expr {
        Expr::Literal { .. } => 1,
        Expr::Variable { .. } => 1,
        Expr::Grouping { expr, .. } => 1 + expr_cost(*expr),
        Expr::Unary { expr, .. } => 2 + expr_cost(*expr),
        Expr::Binary { left, right, .. } => 2 + expr_cost(*left) + expr_cost(*right),
    }
}

/// An upper bound on the steps that executing statements takes.
pub open spec fn stmts_cost(statements: Seq<Stmt>) -> nat
    decreases statements,
{
    if statements.len() == 0 {
        0
    } else {
        stmts_cost(statements.drop_last()) + stmt_cost(statements.last())
    }
}

/// An upper bound on the steps that executing a statement takes.
pub open spec fn stmt_cost(stmt: Stmt) -> nat
    decreases stmt,
{
    match stmt {
        Stmt::Expr { expr } => 2 + expr_cost(expr),
        Stmt::Print { expr, .. } => 2 + expr_cost(expr),
        Stmt::Var { init, .. } => match init {
            Some(expr) => 2 + expr_cost(expr),
            None => 1,
        },
        Stmt::Block { statements } => 2 + stmts_cost(statements@),
        Stmt::If { condition, then, otherwise, .. } => 2 + expr_cost(condition) + stmt_cost(*then)
            + match otherwise {
            Some(stmt) => stmt_cost(*stmt),
            None => 0,
        },
    }
}

/// An upper bound on the steps that a frame takes, with all that it
/// schedules.
pub open spec fn frame_cost(frame: Frame) -> nat {
    match frame {
        Frame::Exec(stmt) => stmt_cost(stmt),
        Frame::Eval(expr) => expr_cost(expr),
        Frame::Branch(then, otherwise) => 1 + stmt_cost(*then) + match otherwise {
            Some(stmt) => stmt_cost(*stmt),
            None => 0,
        },
        _ => 1,
    }
}

/// An upper bound on the steps that are left to a control stack.
pub open spec fn control_cost(control: Seq<Frame>) -> nat
    decreases control.len(),
{
    if control.len() == 0 {
        0
    } else {
        control_cost(control.drop_last()) + frame_cost(control.last())
    }
}

/// Every expression, statement and frame costs at least one step.
pub proof fn lemma_cost_positive(frame: Frame)
    ensures
        frame_cost(frame) >= 1,
{
    match frame {
        Frame::Exec(stmt) => {
            assert(stmt_cost(stmt) >= 1);
        },
        Frame::Eval(expr) => {
            assert(expr_cost(expr) >= 1);
        },
        _ => {},
    }
}

/// The cost of statements, counted from the first.
proof fn lemma_stmts_cost_first(statements: Seq<Stmt>)
    requires
        statements.len() > 0,
    ensures
        stmts_cost(statements) == stmt_cost(statements.first()) + stmts_cost(
            statements.drop_first(),
        ),
    decreases statements.len(),
{
    if statements.len() == 1 {
        assert(statements.drop_last() =~= statements.drop_first());
        assert(stmts_cost(statements.drop_first()) == 0);
    } else {
        lemma_stmts_cost_first(statements.drop_last());
        assert(statements.drop_last().drop_first() =~= statements.drop_first().drop_last());
        assert(statements.drop_last().first() == statements.first());
        assert(statements.drop_first().last() == statements.last());
    }
}

/// The cost of a block's frames is that of its statements.
proof fn lemma_block_cost(statements: Seq<Stmt>)
    ensures
        control_cost(block_frames(statements)) == stmts_cost(statements),
    decreases statements.len(),
{
    let frames = block_frames(statements);
    if statements.len() == 0 {
        assert(frames.len() == 0);
    } else {
        // The top frame holds the first statement.
        assert(frames.len() > 0);
        assert(frames.last() == Frame::Exec(statements.first()));
        assert(frames.drop_last() =~= block_frames(statements.drop_first()));
        lemma_stmts_cost_first(statements);
        lemma_block_cost(statements.drop_first());
        assert(control_cost(frames) == control_cost(frames.drop_last()) + frame_cost(
            frames.last(),
        ));
    }
}

/// The cost of two stacks, one on top of the other, is the sum of their
/// costs.
proof fn lemma_cost_concat(below: Seq<Frame>, above: Seq<Frame>)
    ensures
        control_cost(below + above) == control_cost(below) + control_cost(above),
    decreases above.len(),
{
    if above.len() == 0 {
        assert(below + above =~= below);
    } else {
        lemma_cost_concat(below, above.drop_last());
        assert((below + above).drop_last() =~= below + above.drop_last());
        assert((below + above).last() == above.last());
    }
}

/// A stack with one more frame costs that frame more.
proof fn lemma_cost_push(control: Seq<Frame>, frame: Frame)
    ensures
        control_cost(control.push(frame)) == control_cost(control) + frame_cost(frame),
{
    assert(control.push(frame).drop_last() =~= control);
}

/// A step that gives no signal leaves less to do.
pub proof fn lemma_step_decreases(state: State, strings: Seq<Seq<char>>)
    requires
        state.step(strings).1 is None,
    ensures
        control_cost(state.step(strings).0.control) < control_cost(state.control),
{
    let rest = state.control.drop_last();
    let frame = state.control.last();
    let base = State { control: rest, ..state };
    let next = state.step(strings).0;
    lemma_cost_positive(frame);
    match frame {
        Frame::Exec(stmt) => {
            match stmt {
                Stmt::Expr { expr } => {
                    lemma_cost_push(rest, Frame::Discard);
                    lemma_cost_push(rest.push(Frame::Discard), Frame::Eval(expr));
                },
                Stmt::Print { expr, .. } => {
                    lemma_cost_push(rest, Frame::Print);
                    lemma_cost_push(rest.push(Frame::Print), Frame::Eval(expr));
                },
                Stmt::Var { name, init, .. } => {
                    match init {
                        Some(expr) => {
                            lemma_cost_push(rest, Frame::Define(name));
                            lemma_cost_push(rest.push(Frame::Define(name)), Frame::Eval(expr));
                        },
                        None => {},
                    }
                },
                Stmt::Block { statements } => {
                    lemma_cost_push(rest, Frame::Leave);
                    lemma_cost_concat(rest.push(Frame::Leave), block_frames(statements@));
                    lemma_block_cost(statements@);
                },
                Stmt::If { condition, then, otherwise, .. } => {
                    lemma_cost_push(rest, Frame::Branch(then, otherwise));
                    lemma_cost_push(
                        rest.push(Frame::Branch(then, otherwise)),
                        Frame::Eval(condition),
                    );
                },
            }
        },
        Frame::Eval(expr) => {
            match expr {
                Expr::Grouping { expr, .. } => {
                    lemma_cost_push(rest, Frame::Eval(*expr));
                },
                Expr::Unary { loc, op, expr } => {
                    lemma_cost_push(rest, Frame::Unary(loc, op));
                    lemma_cost_push(rest.push(Frame::Unary(loc, op)), Frame::Eval(*expr));
                },
                Expr::Binary { loc, op, left, right } => {
                    lemma_cost_push(rest, Frame::Binary(loc, op));
                    lemma_cost_push(rest.push(Frame::Binary(loc, op)), Frame::Eval(*right));
                    lemma_cost_push(
                        rest.push(Frame::Binary(loc, op)).push(Frame::Eval(*right)),
                        Frame::Eval(*left),
                    );
                },
                _ => {},
            }
        },
        Frame::Branch(then, otherwise) => {
            lemma_cost_push(rest, Frame::Exec(*then));
            if let Some(stmt) = otherwise {
                lemma_cost_push(rest, Frame::Exec(*stmt));
            }
        },
        _ => {},
    }
}

} // verus!
