//! The operators of expressions that take one argument.

use vstd::prelude::*;

use crate::functions::Error;
use crate::functions::expr::Arg;
use crate::functions::operand::operand_wf;
use crate::functions::operator::unary::{Op as OperatorOp, holds_min_integer, unary_outcome};

verus! {

/// The operators of expressions that take one argument.
#[derive(Clone, Copy, Debug, PartialEq, Eq, Structural)]
pub enum Op {
    Collect,
    Count,
    First,
    Last,
    MinIn,
    MaxIn,
    Rev,
    Sort,
    Sum,
    Prod,
    AllEqual,
    Flatten,
    Dedup,
    Unique,
    Neg,
    Abs,
    Not,
}

/// The operand operator with the same meaning.
pub open spec fn as_operator(op: Op) -> OperatorOp {
    match op {
        Op::Collect => OperatorOp::Collect,
        Op::Count => OperatorOp::Count,
        Op::First => OperatorOp::First,
        Op::Last => OperatorOp::Last,
        Op::MinIn => OperatorOp::MinIn,
        Op::MaxIn => OperatorOp::MaxIn,
        Op::Rev => OperatorOp::Rev,
        Op::Sort => OperatorOp::Sort,
        Op::Sum => OperatorOp::Sum,
        Op::Prod => OperatorOp::Prod,
        Op::AllEqual => OperatorOp::AllEqual,
        Op::Flatten => OperatorOp::Flatten,
        Op::Dedup => OperatorOp::Dedup,
        Op::Unique => OperatorOp::Unique,
        Op::Neg => OperatorOp::Neg,
        Op::Abs => OperatorOp::Abs,
        Op::Not => OperatorOp::Not,
    }
}

impl Op {
    /// The operand operator with the same meaning.
    pub fn to_operator(&self) -> (r: OperatorOp)
        ensures
            r == as_operator(*self),
    {
        match self {
            Op::Collect => OperatorOp::Collect,
            Op::Count => OperatorOp::Count,
            Op::First => OperatorOp::First,
            Op::Last => OperatorOp::Last,
            Op::MinIn => OperatorOp::MinIn,
            Op::MaxIn => OperatorOp::MaxIn,
            Op::Rev => OperatorOp::Rev,
            Op::Sort => OperatorOp::Sort,
            Op::Sum => OperatorOp::Sum,
            Op::Prod => OperatorOp::Prod,
            Op::AllEqual => OperatorOp::AllEqual,
            Op::Flatten => OperatorOp::Flatten,
            Op::Dedup => OperatorOp::Dedup,
            Op::Unique => OperatorOp::Unique,
            Op::Neg => OperatorOp::Neg,
            Op::Abs => OperatorOp::Abs,
            Op::Not => OperatorOp::Not,
        }
    }

    /// Applies this operator to an argument, as the operand operator with
    /// the same meaning does.
    pub fn process(&self, o: Arg) -> (r: Result<Arg, Error>)
        requires
            operand_wf(o),
            (*self == Op::Neg || *self == Op::Abs) ==> !holds_min_integer(o),
        ensures
            unary_outcome(as_operator(*self), o, r),
            r matches Ok(x) ==> operand_wf(x),
    {
        self.to_operator().process(o)
    }
}

} // verus!
