//! Statements.

use vstd::prelude::*;
use super::expr::{grown, Expr, ExprView};
use crate::interp::env::Env;
use crate::interp::machine::{block_frames, Frame, State};
use crate::interp::value::Value;
use crate::lex::token::tokens::{Keyword, LiteralView, Operator, Punctuation};
use crate::lex::token::TokenValueView;
use crate::util::Location;

verus! {

/// A statement.
#[derive(Debug, PartialEq)]
#[allow(inconsistent_fields)]
pub enum Stmt {
    /// Evaluates the expression and discards its value.
    Expr { expr: Expr },
    /// Evaluates the expression and prints its value on a line of its own.
    Print { loc: Location, expr: Expr },
    /// Declares `name` in the current scope; without `init` its value is
    /// `nil`.
    Var { loc: Location, name: String, init: Option<Expr> },
    /// Executes the statements in a child scope of their own.
    Block { statements: Vec<Stmt> },
    /// Executes `then` where the condition is truthy, else `otherwise`
    /// where there is one.
    If { loc: Location, condition: Expr, then: Box<Stmt>, otherwise: Option<Box<Stmt>> },
}

/// The syntax of a statement: what was written, apart from the arena that
/// holds the texts of its string literals.
#[allow(inconsistent_fields)]
pub enum StmtView {
    Expr { expr: ExprView },
    Print { loc: Location, expr: ExprView },
    Var { loc: Location, name: Seq<char>, init: Option<ExprView> },
    Block { statements: Seq<StmtView> },
    If { loc: Location, condition: ExprView, then: Box<StmtView>, otherwise: Option<Box<StmtView>> },
}

/// The tokens that write statements one after the other.
pub open spec fn tokens_of(statements: Seq<StmtView>) -> Seq<TokenValueView>
    decreases statements,
{
    if statements.len() == 0 {
        Seq::empty()
    } else {
        statements.first().tokens() + tokens_of(statements.drop_first())
    }
}

impl StmtView {
    /// The tokens that write the statement.
    pub open spec fn tokens(self) -> Seq<TokenValueView>
        decreases self,
    {
        let semicolon = seq![TokenValueView::Punctuation(Punctuation::Semicolon)];
        match self {
            StmtView::Expr { expr } => expr.tokens() + semicolon,
            StmtView::Print { expr, .. } => seq![TokenValueView::Keyword(Keyword::Print)]
                + expr.tokens() + semicolon,
            StmtView::Var { name, init, .. } => seq![
                TokenValueView::Keyword(Keyword::Var),
                TokenValueView::Literal(LiteralView::Identifier(name)),
            ] + match init {
                Some(expr) => seq![TokenValueView::Operator(Operator::Equal)] + expr.tokens(),
                None => Seq::empty(),
            } + semicolon,
            StmtView::Block { statements } => seq![
                TokenValueView::Punctuation(Punctuation::BraceLeft),
            ] + tokens_of(statements) + seq![TokenValueView::Punctuation(Punctuation::BraceRight)],
            StmtView::If { condition, then, otherwise, .. } => seq![
                TokenValueView::Keyword(Keyword::If),
                TokenValueView::Punctuation(Punctuation::ParenLeft),
            ] + condition.tokens() + seq![TokenValueView::Punctuation(Punctuation::ParenRight)]
                + then.tokens() + match otherwise {
                Some(stmt) => seq![TokenValueView::Keyword(Keyword::Else)] + stmt.tokens(),
                None => Seq::empty(),
            },
        }
    }
}

/// The syntax of statements where `strings` are the texts of the arena, if
/// every literal in them stands for a constant.
pub open spec fn views_in(statements: Seq<Stmt>, strings: Seq<Seq<char>>) -> Option<Seq<StmtView>>
    decreases statements,
{
    if statements.len() == 0 {
        Some(Seq::empty())
    } else {
        match (views_in(statements.drop_last(), strings), statements.last().view_in(strings)) {
            (Some(before), Some(last)) => Some(before.push(last)),
            _ => None,
        }
    }
}

/// The syntax of statements stays what it is when the arena grows.
pub proof fn lemma_views_stable(
    statements: Seq<Stmt>,
    earlier: Seq<Seq<char>>,
    strings: Seq<Seq<char>>,
)
    requires
        grown(earlier, strings),
        views_in(statements, earlier) is Some,
    ensures
        views_in(statements, strings) == views_in(statements, earlier),
    decreases statements,
{
    if statements.len() > 0 {
        lemma_views_stable(statements.drop_last(), earlier, strings);
        statements.last().lemma_view_stable(earlier, strings);
    }
}

impl Stmt {
    /// The syntax of the statement where `strings` are the texts of the
    /// arena, if every literal in it stands for a constant.
    pub open spec fn view_in(self, strings: Seq<Seq<char>>) -> Option<StmtView>
        decreases self,
    {
        match self {
            Stmt::Expr { expr } => match expr.view_in(strings) {
                Some(e) => Some(StmtView::Expr { expr: e }),
                None => None,
            },
            Stmt::Print { loc, expr } => match expr.view_in(strings) {
                Some(e) => Some(StmtView::Print { loc, expr: e }),
                None => None,
            },
            Stmt::Var { loc, name, init } => match init {
                Some(expr) => match expr.view_in(strings) {
                    Some(e) => Some(StmtView::Var { loc, name: name@, init: Some(e) }),
                    None => None,
                },
                None => Some(StmtView::Var { loc, name: name@, init: None }),
            },
            Stmt::Block { statements } => match views_in(statements@, strings) {
                Some(s) => Some(StmtView::Block { statements: s }),
                None => None,
            },
            Stmt::If { loc, condition, then, otherwise } => match (
                condition.view_in(strings),
                then.view_in(strings),
            ) {
                (Some(c), Some(t)) => match otherwise {
                    Some(stmt) => match stmt.view_in(strings) {
                        Some(o) => Some(
                            StmtView::If {
                                loc,
                                condition: c,
                                then: Box::new(t),
                                otherwise: Some(Box::new(o)),
                            },
                        ),
                        None => None,
                    },
                    None => Some(
                        StmtView::If { loc, condition: c, then: Box::new(t), otherwise: None },
                    ),
                },
                _ => None,
            },
        }
    }

    /// The syntax of a statement stays what it is when the arena grows.
    pub proof fn lemma_view_stable(self, earlier: Seq<Seq<char>>, strings: Seq<Seq<char>>)
        requires
            grown(earlier, strings),
            self.view_in(earlier) is Some,
        ensures
            self.view_in(strings) == self.view_in(earlier),
        decreases self,
    {
        match self {
            Stmt::Expr { expr } => {
                expr.lemma_view_stable(earlier, strings);
            },
            Stmt::Print { expr, .. } => {
                expr.lemma_view_stable(earlier, strings);
            },
            Stmt::Var { init, .. } => {
                if let Some(expr) = init {
                    expr.lemma_view_stable(earlier, strings);
                }
            },
            Stmt::Block { statements } => {
                lemma_views_stable(statements@, earlier, strings);
            },
            Stmt::If { condition, then, otherwise, .. } => {
                condition.lemma_view_stable(earlier, strings);
                then.lemma_view_stable(earlier, strings);
                if let Some(stmt) = otherwise {
                    stmt.lemma_view_stable(earlier, strings);
                }
            },
        }
    }

    /// Executes the statement as far as that takes no evaluation: a
    /// declaration without initializer is made, a block's scope is entered.
    /// Whatever is left to do is put on `control`: the expression to
    /// evaluate on top, below it what is to be done with its value.
    pub fn execute(self, env: &mut Env, control: &mut Vec<Frame>)
        ensures
            ({
                let before = State {
                    scopes: old(env)@,
                    control: old(control)@,
                    operands: Seq::empty(),
                    asked: None,
                };
                &&& final(env)@ == before.execute(self).scopes
                &&& final(control)@ == before.execute(self).control
            }),
    {
        match self {
            Stmt::Expr { expr } => {
                control.push(Frame::Discard);
                control.push(Frame::Eval(expr));
            },
            Stmt::Print { expr, .. } => {
                control.push(Frame::Print);
                control.push(Frame::Eval(expr));
            },
            Stmt::Var { name, init, .. } => {
                match init {
                    Some(expr) => {
                        control.push(Frame::Define(name));
                        control.push(Frame::Eval(expr));
                    },
                    None => {
                        env.define(name, Value::Nil);
                    },
                }
            },
            Stmt::Block { statements } => {
                env.child();
                control.push(Frame::Leave);
                let ghost all = statements@;
                let ghost base = control@;
                let mut statements = statements;
                assert(block_frames(all).take(0) =~= Seq::<Frame>::empty());
                while statements.len() > 0
                    invariant
                        statements@ == all.take(statements@.len() as int),
                        statements@.len() <= all.len(),
                        control@ == base + block_frames(all).take(all.len() - statements@.len()),
                    decreases statements@.len(),
                {
                    let ghost k = all.len() - statements@.len();
                    let stmt = statements.pop().unwrap();
                    control.push(Frame::Exec(stmt));
                    assert(statements@ =~= all.take(statements@.len() as int));
                    assert(block_frames(all).take(k + 1) =~= block_frames(all).take(k).push(
                        Frame::Exec(stmt),
                    ));
                    assert(control@ =~= base + block_frames(all).take(k + 1));
                }
                assert(block_frames(all).take(all.len() as int) =~= block_frames(all));
            },
            Stmt::If { condition, then, otherwise, .. } => {
                control.push(Frame::Branch(then, otherwise));
                control.push(Frame::Eval(condition));
            },
        }
    }
}

} // verus!
