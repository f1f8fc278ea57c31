//! The evaluator: values and their operators, environments, and the
//! execution of statements.

use vstd::prelude::*;
use lasso::Rodeo;
use self::env::Env;
use self::intern::interned;
use self::machine::{
    answer_value, apply_binary, apply_unary, block_frames, control_cost, lemma_run_balanced,
    lemma_run_nested, lemma_started_balanced, lemma_started_nested, lemma_step_balanced,
    lemma_step_decreases, lemma_step_nested, lemma_told_balanced, views, Frame, Signal,
    SignalView, State,
};
use self::number::{Answer, Question};
use self::value::{Outcome, Value, ValueView};
use crate::parse::token::{BinaryOp, UnaryOp};
use crate::parse::Program;
use crate::util::Location;

pub mod env;
pub mod function;
pub mod intern;
pub mod machine;
pub mod number;
pub mod object;
pub mod value;

verus! {

/// Why execution stopped. The location is that of the expression at fault.
#[derive(Debug, PartialEq)]
pub enum RuntimeError {
    /// The operator is undefined for operands of these two types.
    InvalidBinaryOp(Location, BinaryOp, &'static str, &'static str),
    /// The operator is undefined for an operand of this type.
    InvalidUnaryOp(Location, UnaryOp, &'static str),
    /// No scope in reach defines the name.
    UndefinedVariable(Location, String),
}

/// What a `RuntimeError` holds, as mathematical values.
pub enum RuntimeErrorView {
    InvalidBinaryOp(Location, BinaryOp, Seq<char>, Seq<char>),
    InvalidUnaryOp(Location, UnaryOp, Seq<char>),
    UndefinedVariable(Location, Seq<char>),
}

impl View for RuntimeError {
    type V = RuntimeErrorView;

    open spec fn view(&self) -> RuntimeErrorView {
        match self {
            RuntimeError::InvalidBinaryOp(loc, op, left, right) => RuntimeErrorView::InvalidBinaryOp(
                *loc,
                *op,
                left@,
                right@,
            ),
            RuntimeError::InvalidUnaryOp(loc, op, operand) => RuntimeErrorView::InvalidUnaryOp(
                *loc,
                *op,
                operand@,
            ),
            RuntimeError::UndefinedVariable(loc, name) => RuntimeErrorView::UndefinedVariable(
                *loc,
                name@,
            ),
        }
    }
}

impl RuntimeErrorView {
    /// Where the error arose.
    pub open spec fn loc(self) -> Location {
        match self {
            RuntimeErrorView::InvalidBinaryOp(loc, _, _, _) => loc,
            RuntimeErrorView::InvalidUnaryOp(loc, _, _) => loc,
            RuntimeErrorView::UndefinedVariable(loc, _) => loc,
        }
    }
}

impl RuntimeError {
    /// Where the error arose.
    pub fn loc(&self) -> (loc: Location)
        ensures
            loc == self@.loc(),
    {
        match self {
            RuntimeError::InvalidBinaryOp(loc, _, _, _) => *loc,
            RuntimeError::InvalidUnaryOp(loc, _, _) => *loc,
            RuntimeError::UndefinedVariable(loc, _) => *loc,
        }
    }
}

/// The interpreter: the environment of a run and the machine that executes
/// programs in it.
///
/// A program runs in turns. `interpret` starts it and `resume` carries it
/// on; each returns when the machine has something for the host: a value to
/// print, a question on numbers, a failure, or the end of the program.
/// After `Signal::Print` the host writes the line and resumes; after
/// `Signal::Ask` it resumes with the answer.
///
/// An interpreter is always balanced and nested (see `State`): every
/// function here that takes one in that state leaves it so.
pub struct Interpreter {
    environment: Env,
    control: Vec<Frame>,
    operands: Vec<Value>,
    asked: Option<Question>,
}

impl View for Interpreter {
    type V = State;

    closed spec fn view(&self) -> State {
        State {
            scopes: self.environment@,
            control: self.control@,
            operands: views(self.operands@),
            asked: self.asked,
        }
    }
}

/// The view of a step's signal.
pub open spec fn signal_view(signal: Option<Signal>) -> Option<SignalView> {
    match signal {
        Some(s) => Some(s@),
        None => None,
    }
}

impl Interpreter {
    /// An interpreter with nothing to do, whose root scope defines nothing.
    pub fn new() -> (interpreter: Self)
        ensures
            interpreter@ == (State {
                scopes: seq![Map::<Seq<char>, ValueView>::empty()],
                control: Seq::empty(),
                operands: Seq::empty(),
                asked: None,
            }),
            interpreter@.balanced(),
            interpreter@.nested(),
    {
        let interpreter = Interpreter {
            environment: Env::new(),
            control: Vec::new(),
            operands: Vec::new(),
            asked: None,
        };
        assert(views(interpreter.operands@) =~= Seq::<ValueView>::empty());
        interpreter
    }

    /// Gives up what is left to do and leaves every child scope.
    fn abandon(&mut self)
        ensures
            final(self)@ == old(self)@.abandoned(),
    {
        self.environment.leave_all();
        self.control.clear();
        self.operands.clear();
        self.asked = None;
        assert(views(self.operands@) =~= Seq::<ValueView>::empty());
    }

    /// Takes up an operator's outcome; `rest` of the spec are the operands
    /// as they are now.
    fn apply(&mut self, outcome: Option<Outcome>, error: RuntimeError) -> (signal: Option<Signal>)
        ensures
            (final(self)@, signal_view(signal)) == old(self)@.applied(
                old(self)@.operands,
                self::value::outcome_view(outcome),
                error@,
            ),
    {
        match outcome {
            Some(Outcome::Value(v)) => {
                self.operands.push(v);
                assert(views(self.operands@) =~= views(old(self).operands@).push(v@));
                None
            },
            Some(Outcome::Ask(q)) => {
                self.asked = Some(q);
                Some(Signal::Ask(q))
            },
            None => {
                self.abandon();
                Some(Signal::Failed(error))
            },
        }
    }

    /// Removes the top operand.
    fn pop(&mut self) -> (top: Value)
        requires
            old(self)@.operands.len() > 0,
        ensures
            top@ == old(self)@.operands.last(),
            final(self)@ == (State { operands: old(self)@.operands.drop_last(), ..old(self)@ }),
    {
        let top = self.operands.pop().unwrap();
        assert(views(self.operands@) =~= views(old(self).operands@).drop_last());
        top
    }

    /// One step of the machine.
    pub fn step(&mut self, arena: &Rodeo) -> (signal: Option<Signal>)
        ensures
            (final(self)@, signal_view(signal)) == old(self)@.step(interned(*arena)),
            old(self)@.balanced() ==> final(self)@.balanced(),
            old(self)@.nested() ==> final(self)@.nested(),
    {
        proof {
            if self@.balanced() {
                lemma_step_balanced(self@, interned(*arena));
            }
            if self@.nested() {
                lemma_step_nested(self@, interned(*arena));
            }
        }
        if let Some(q) = self.asked {
            return Some(Signal::Ask(q));
        }
        let frame = match self.control.pop() {
            Some(frame) => frame,
            None => {
                return Some(Signal::Done);
            },
        };
        let ghost base = self@;
        match frame {
            Frame::Exec(stmt) => {
                stmt.execute(&mut self.environment, &mut self.control);
                None
            },
            Frame::Leave => {
                self.environment.leave();
                None
            },
            Frame::Eval(expr) => {
                match expr.eval(&self.environment, &mut self.control, &mut self.operands) {
                    Ok(()) => None,
                    Err(e) => {
                        self.abandon();
                        Some(Signal::Failed(e))
                    },
                }
            },
            Frame::Unary(loc, op) => {
                if self.operands.len() < 1 {
                    return None;
                }
                let operand = self.pop();
                let outcome = apply_unary(op, &operand);
                self.apply(outcome, RuntimeError::InvalidUnaryOp(loc, op, operand.name()))
            },
            Frame::Binary(loc, op) => {
                if self.operands.len() < 2 {
                    return None;
                }
                let right = self.pop();
                let left = self.pop();
                let error = RuntimeError::InvalidBinaryOp(loc, op, left.name(), right.name());
                let outcome = apply_binary(op, left, right, arena);
                self.apply(outcome, error)
            },
            Frame::Discard => {
                if self.operands.len() < 1 {
                    return None;
                }
                let _ = self.pop();
                None
            },
            Frame::Print => {
                if self.operands.len() < 1 {
                    return None;
                }
                let value = self.pop();
                Some(Signal::Print(value.render(arena)))
            },
            Frame::Define(name) => {
                if self.operands.len() < 1 {
                    return None;
                }
                let value = self.pop();
                self.environment.define(name, value);
                None
            },
            Frame::Branch(then, otherwise) => {
                if self.operands.len() < 1 {
                    return None;
                }
                let condition = self.pop();
                if condition.truthiness() {
                    self.control.push(Frame::Exec(*then));
                } else {
                    match otherwise {
                        Some(stmt) => {
                            self.control.push(Frame::Exec(*stmt));
                        },
                        None => {},
                    }
                }
                None
            },
        }
    }

    /// Steps until the machine has a signal.
    fn run(&mut self, arena: &Rodeo) -> (signal: Signal)
        ensures
            (final(self)@, signal@) == old(self)@.run(interned(*arena)),
    {
        loop
            invariant
                self@.run(interned(*arena)) == old(self)@.run(interned(*arena)),
            decreases control_cost(self@.control),
        {
            let ghost before = self@;
            match self.step(arena) {
                Some(signal) => {
                    return signal;
                },
                None => {
                    proof {
                        lemma_step_decreases(before, interned(*arena));
                    }
                },
            }
        }
    }

    /// Starts on `program` and executes it until the machine has a signal.
    /// Whatever the machine was still doing is abandoned. The root scope
    /// keeps what earlier programs defined in it.
    pub fn interpret(&mut self, program: Program, arena: &Rodeo) -> (signal: Signal)
        ensures
            (final(self)@, signal@) == old(self)@.started(program.statements@).run(
                interned(*arena),
            ),
            final(self)@.balanced(),
            final(self)@.nested(),
    {
        proof {
            let started = self@.started(program.statements@);
            self.environment.lemma_has_root();
            lemma_started_balanced(self@, program.statements@);
            lemma_started_nested(self@, program.statements@);
            lemma_run_balanced(started, interned(*arena));
            lemma_run_nested(started, interned(*arena));
        }
        self.abandon();
        let mut statements = program.statements;
        let ghost all = statements@;
        assert(block_frames(all).take(0) =~= Seq::<Frame>::empty());
        while statements.len() > 0
            invariant
                statements@ == all.take(statements@.len() as int),
                statements@.len() <= all.len(),
                self@ == (State {
                    control: block_frames(all).take(all.len() - statements@.len()),
                    ..old(self)@.abandoned()
                }),
            decreases statements@.len(),
        {
            let ghost k = all.len() - statements@.len();
            let stmt = statements.pop().unwrap();
            self.control.push(Frame::Exec(stmt));
            assert(statements@ =~= all.take(statements@.len() as int));
            assert(block_frames(all).take(k + 1) =~= block_frames(all).take(k).push(
                Frame::Exec(stmt),
            ));
        }
        assert(block_frames(all).take(all.len() as int) =~= block_frames(all));
        self.run(arena)
    }

    /// Hands the host's answer to the machine and executes until the
    /// machine has a signal again. After `Signal::Print` there is nothing
    /// to answer: `None` carries on.
    pub fn resume(&mut self, answer: Option<Answer>, arena: &Rodeo) -> (signal: Signal)
        ensures
            (final(self)@, signal@) == old(self)@.told(answer).run(interned(*arena)),
            old(self)@.balanced() ==> final(self)@.balanced(),
            old(self)@.nested() ==> final(self)@.nested(),
    {
        proof {
            let told = self@.told(answer);
            if self@.balanced() {
                lemma_told_balanced(self@, answer);
                lemma_run_balanced(told, interned(*arena));
            }
            if self@.nested() {
                lemma_run_nested(told, interned(*arena));
            }
        }
        match (self.asked, answer) {
            (Some(q), Some(a)) => {
                match answer_value(&q, &a) {
                    Some(v) => {
                        self.operands.push(v);
                        self.asked = None;
                        assert(views(self.operands@) =~= views(old(self).operands@).push(v@));
                    },
                    None => {},
                }
            },
            _ => {},
        }
        self.run(arena)
    }
}

} // verus!
