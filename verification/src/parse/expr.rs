//! Expressions.

use vstd::prelude::*;
use super::token::{BinaryOp, UnaryOp};
use crate::interp::env::Env;
use crate::interp::machine::{views, Frame, SignalView, State};
use crate::interp::value::{Value, ValueView};
use crate::lex::token::tokens::{Keyword, LiteralView, Punctuation};
use crate::lex::token::TokenValueView;
use crate::interp::RuntimeError;
use crate::util::Location;

verus! {

/// An expression. `loc` is where the expression is at fault if it fails: the
/// operator of a unary or binary expression, the name of a variable.
#[derive(Debug, PartialEq)]
#[allow(inconsistent_fields)]
pub enum Expr {
    /// A value that is written out: `nil`, `true`, a number, a string.
    Literal { loc: Location, value: Value },
    /// An expression in parentheses.
    Grouping { loc: Location, expr: Box<Expr> },
    Unary { loc: Location, op: UnaryOp, expr: Box<Expr> },
    Binary { loc: Location, op: BinaryOp, left: Box<Expr>, right: Box<Expr> },
    /// A reference to a variable by its name.
    Variable { loc: Location, name: String },
}

/// A value as it is written in the source. A string is its text.
pub enum Constant {
    Nil,
    Bool(bool),
    /// The bits of a double.
    Number(u64),
    Text(Seq<char>),
}

/// The syntax of an expression: what was written, apart from the arena
/// that holds the texts of its string literals.
#[allow(inconsistent_fields)]
pub enum ExprView {
    Literal { loc: Location, value: Constant },
    Grouping { loc: Location, expr: Box<ExprView> },
    Unary { loc: Location, op: UnaryOp, expr: Box<ExprView> },
    Binary { loc: Location, op: BinaryOp, left: Box<ExprView>, right: Box<ExprView> },
    Variable { loc: Location, name: Seq<char> },
}

impl Constant {
    /// The token that writes the constant.
    pub open spec fn token(self) -> TokenValueView {
        match self {
            Constant::Nil => TokenValueView::Keyword(Keyword::Nil),
            Constant::Bool(b) => TokenValueView::Keyword(
                if b {
                    Keyword::True
                } else {
                    Keyword::False
                },
            ),
            Constant::Number(bits) => TokenValueView::Literal(LiteralView::Number(bits)),
            Constant::Text(text) => TokenValueView::Literal(LiteralView::String(text)),
        }
    }
}

impl ExprView {
    /// The tokens that write the expression.
    pub open spec fn tokens(self) -> Seq<TokenValueView>
        decreases self,
    {
        match self {
            ExprView::Literal { value, .. } => seq![value.token()],
            ExprView::Variable { name, .. } => seq![
                TokenValueView::Literal(LiteralView::Identifier(name)),
            ],
            ExprView::Grouping { expr, .. } => seq![
                TokenValueView::Punctuation(Punctuation::ParenLeft),
            ] + expr.tokens() + seq![TokenValueView::Punctuation(Punctuation::ParenRight)],
            ExprView::Unary { op, expr, .. } => seq![TokenValueView::Operator(op.operator())]
                + expr.tokens(),
            ExprView::Binary { op, left, right, .. } => left.tokens() + seq![
                TokenValueView::Operator(op.operator()),
            ] + right.tokens(),
        }
    }
}

/// The constant that a literal's value stands for where `strings` are the
/// texts of the arena. Only `nil`, truth values, numbers and string
/// literals that the arena knows stand for a constant.
pub open spec fn constant(value: ValueView, strings: Seq<Seq<char>>) -> Option<Constant> {
    match value {
        ValueView::Nil => Some(Constant::Nil),
        ValueView::Bool(b) => Some(Constant::Bool(b)),
        ValueView::Number(bits) => Some(Constant::Number(bits)),
        ValueView::StringLiteral(k) => if k < strings.len() {
            Some(Constant::Text(strings[k as int]))
        } else {
            None
        },
        _ => None,
    }
}

/// Whether `strings` begin with `earlier`: an arena that has grown from
/// `earlier` to `strings`.
pub open spec fn grown(earlier: Seq<Seq<char>>, strings: Seq<Seq<char>>) -> bool {
    earlier.len() <= strings.len() && strings.take(earlier.len() as int) == earlier
}

impl Expr {
    /// The syntax of the expression where `strings` are the texts of the
    /// arena, if every literal in it stands for a constant.
    pub open spec fn view_in(self, strings: Seq<Seq<char>>) -> Option<ExprView>
        decreases self,
    {
        match self {
            Expr::Literal { loc, value } => match constant(value@, strings) {
                Some(c) => Some(ExprView::Literal { loc, value: c }),
                None => None,
            },
            Expr::Grouping { loc, expr } => match expr.view_in(strings) {
                Some(e) => Some(ExprView::Grouping { loc, expr: Box::new(e) }),
                None => None,
            },
            Expr::Unary { loc, op, expr } => match expr.view_in(strings) {
                Some(e) => Some(ExprView::Unary { loc, op, expr: Box::new(e) }),
                None => None,
            },
            Expr::Binary { loc, op, left, right } => match (
                left.view_in(strings),
                right.view_in(strings),
            ) {
                (Some(l), Some(r)) => Some(
                    ExprView::Binary { loc, op, left: Box::new(l), right: Box::new(r) },
                ),
                _ => None,
            },
            Expr::Variable { loc, name } => Some(ExprView::Variable { loc, name: name@ }),
        }
    }

    /// The syntax of an expression stays what it is when the arena grows.
    pub proof fn lemma_view_stable(self, earlier: Seq<Seq<char>>, strings: Seq<Seq<char>>)
        requires
            grown(earlier, strings),
            self.view_in(earlier) is Some,
        ensures
            self.view_in(strings) == self.view_in(earlier),
        decreases self,
    {
        match self {
            Expr::Literal { loc, value } => {
                if let ValueView::StringLiteral(k) = value@ {
                    assert(strings.take(earlier.len() as int)[k as int] == strings[k as int]);
                }
            },
            Expr::Grouping { expr, .. } => {
                expr.lemma_view_stable(earlier, strings);
            },
            Expr::Unary { expr, .. } => {
                expr.lemma_view_stable(earlier, strings);
            },
            Expr::Binary { left, right, .. } => {
                left.lemma_view_stable(earlier, strings);
                right.lemma_view_stable(earlier, strings);
            },
            Expr::Variable { .. } => {},
        }
    }

    /// Evaluates the expression as far as that takes no operator: the value
    /// of a literal or of a variable is put on `operands`. Of any other
    /// expression the parts are put on `control`: the operand to evaluate
    /// first on top, the operator below its operands. Fails where a
    /// variable is undefined.
    pub fn eval(self, env: &Env, control: &mut Vec<Frame>, operands: &mut Vec<Value>) -> (result:
        Result<(), RuntimeError>)
        ensures
            ({
                let before = State {
                    scopes: env@,
                    control: old(control)@,
                    operands: views(old(operands)@),
                    asked: None,
                };
                match result {
                    Ok(()) => {
                        &&& before.eval(self).1 is None
                        &&& final(control)@ == before.eval(self).0.control
                        &&& views(final(operands)@) == before.eval(self).0.operands
                    },
                    Err(e) => before.eval(self).1 == Some(SignalView::Failed(e@)),
                }
            }),
    {
        match self {
            Expr::Literal { value, .. } => {
                operands.push(value);
                assert(views(operands@) =~= views(old(operands)@).push(value@));
            },
            Expr::Grouping { expr, .. } => {
                control.push(Frame::Eval(*expr));
            },
            Expr::Unary { loc, op, expr } => {
                control.push(Frame::Unary(loc, op));
                control.push(Frame::Eval(*expr));
            },
            Expr::Binary { loc, op, left, right } => {
                control.push(Frame::Binary(loc, op));
                control.push(Frame::Eval(*right));
                control.push(Frame::Eval(*left));
            },
            Expr::Variable { loc, name } => {
                let value = env.lookup(loc, name.as_str())?;
                operands.push(value);
                assert(views(operands@) =~= views(old(operands)@).push(value@));
            },
        }
        Ok(())
    }
}

} // verus!
