//! The operators of the expression grammar.

use vstd::prelude::*;
use crate::lex::token::tokens::Operator;

verus! {

/// An operator in front of one operand.
#[derive(Debug, Clone, Copy, PartialEq, Eq, PartialOrd, Ord, Hash, Structural)]
pub enum UnaryOp {
    /// `!`
    Not,
    /// `-`
    Minus,
}

/// An operator between two operands.
#[derive(Debug, Clone, Copy, PartialEq, Eq, PartialOrd, Ord, Hash, Structural)]
pub enum BinaryOp {
    Add,
    Sub,
    Mul,
    Div,
    Equal,
    NotEqual,
    Greater,
    GreaterEqual,
    Less,
    LessEqual,
}

impl UnaryOp {
    /// The token that spells this operator.
    pub open spec fn operator(self) -> Operator {
        match self {
            UnaryOp::Not => Operator::Bang,
            UnaryOp::Minus => Operator::Minus,
        }
    }

    /// The unary operator that a token spells, if any.
    pub open spec fn of(op: Operator) -> Option<UnaryOp> {
        match op {
            Operator::Bang => Some(UnaryOp::Not),
            Operator::Minus => Some(UnaryOp::Minus),
            _ => None,
        }
    }

    /// Decides `of`.
    pub fn from_operator(op: Operator) -> (unary: Option<UnaryOp>)
        ensures
            unary == UnaryOp::of(op),
    {
        match op {
            Operator::Bang => Some(UnaryOp::Not),
            Operator::Minus => Some(UnaryOp::Minus),
            _ => None,
        }
    }

    /// Computes `operator`.
    pub fn to_operator(self) -> (op: Operator)
        ensures
            op == self.operator(),
    {
        match self {
            UnaryOp::Not => Operator::Bang,
            UnaryOp::Minus => Operator::Minus,
        }
    }
}

impl BinaryOp {
    /// The token that spells this operator.
    pub open spec fn operator(self) -> Operator {
        match self {
            BinaryOp::Add => Operator::Plus,
            BinaryOp::Sub => Operator::Minus,
            BinaryOp::Mul => Operator::Star,
            BinaryOp::Div => Operator::Slash,
            BinaryOp::Equal => Operator::EqualEqual,
            BinaryOp::NotEqual => Operator::BangEqual,
            BinaryOp::Greater => Operator::Greater,
            BinaryOp::GreaterEqual => Operator::GreaterEqual,
            BinaryOp::Less => Operator::Less,
            BinaryOp::LessEqual => Operator::LessEqual,
        }
    }

    /// The binary operator that a token spells, if any.
    pub open spec fn of(op: Operator) -> Option<BinaryOp> {
        match op {
            Operator::Plus => Some(BinaryOp::Add),
            Operator::Minus => Some(BinaryOp::Sub),
            Operator::Star => Some(BinaryOp::Mul),
            Operator::Slash => Some(BinaryOp::Div),
            Operator::EqualEqual => Some(BinaryOp::Equal),
            Operator::BangEqual => Some(BinaryOp::NotEqual),
            Operator::Greater => Some(BinaryOp::Greater),
            Operator::GreaterEqual => Some(BinaryOp::GreaterEqual),
            Operator::Less => Some(BinaryOp::Less),
            Operator::LessEqual => Some(BinaryOp::LessEqual),
            _ => None,
        }
    }

    /// Decides `of`.
    pub fn from_operator(op: Operator) -> (binary: Option<BinaryOp>)
        ensures
            binary == BinaryOp::of(op),
    {
        match op {
            Operator::Plus => Some(BinaryOp::Add),
            Operator::Minus => Some(BinaryOp::Sub),
            Operator::Star => Some(BinaryOp::Mul),
            Operator::Slash => Some(BinaryOp::Div),
            Operator::EqualEqual => Some(BinaryOp::Equal),
            Operator::BangEqual => Some(BinaryOp::NotEqual),
            Operator::Greater => Some(BinaryOp::Greater),
            Operator::GreaterEqual => Some(BinaryOp::GreaterEqual),
            Operator::Less => Some(BinaryOp::Less),
            Operator::LessEqual => Some(BinaryOp::LessEqual),
            _ => None,
        }
    }

    /// Computes `operator`.
    pub fn to_operator(self) -> (op: Operator)
        ensures
            op == self.operator(),
    {
        match self {
            BinaryOp::Add => Operator::Plus,
            BinaryOp::Sub => Operator::Minus,
            BinaryOp::Mul => Operator::Star,
            BinaryOp::Div => Operator::Slash,
            BinaryOp::Equal => Operator::EqualEqual,
            BinaryOp::NotEqual => Operator::BangEqual,
            BinaryOp::Greater => Operator::Greater,
            BinaryOp::GreaterEqual => Operator::GreaterEqual,
            BinaryOp::Less => Operator::Less,
            BinaryOp::LessEqual => Operator::LessEqual,
        }
    }
}

} // verus!
