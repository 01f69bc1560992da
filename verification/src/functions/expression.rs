//! Expressions: operators applied to operands, or to what other
//! expressions give, evaluated from the inside out.

use vstd::prelude::*;

use crate::functions::Error;
use crate::functions::operand::{Operand, operand_wf};
use crate::functions::operator::binary::{Op as BinaryOp, binary_outcome};
use crate::functions::operator::unary::{Op as UnaryOp, holds_min_integer, unary_outcome};

verus! {

/// An operator applied to one or two thunks.
pub enum Expression {
    Unary(UnaryOp, Thunk),
    Binary(BinaryOp, Thunk, Thunk),
}

/// An operand, or an expression that gives one.
pub enum Thunk {
    Operand(Operand),
    Expression(Box<Expression>),
}

/// Whether `r` is what evaluating a thunk can give: an operand gives
/// itself, an expression what it evaluates to.
pub open spec fn thunk_outcome(th: Thunk, r: Result<Operand, Error>) -> bool
    decreases th,
{
    match th {
        Thunk::Operand(o) => r == Ok::<Operand, Error>(o),
        Thunk::Expression(e) => expression_outcome(*e, r),
    }
}

/// Whether `r` is what evaluating an expression can give: the error of the
/// first thunk that fails, in order, or else what the operator gives for
/// what the thunks gave.
pub open spec fn expression_outcome(e: Expression, r: Result<Operand, Error>) -> bool
    decreases e,
{
    match e {
        Expression::Unary(op, th) => (r is Err && thunk_outcome(th, r)) || (exists|x: Operand|
            thunk_outcome(th, Ok(x)) && #[trigger] unary_outcome(op, x, r)),
        Expression::Binary(op, a, b) => (r is Err && thunk_outcome(a, r)) || (exists|
            x: Operand,
            y: Result<Operand, Error>,
        | thunk_outcome(a, Ok(x)) && thunk_outcome(b, y) && #[trigger] binary_step(op, x, y, r)),
    }
}

/// What a binary expression gives once its first thunk gave `x` and its
/// second gave `y`: the error of the second, or what the operator gives.
pub open spec fn binary_step(op: BinaryOp, x: Operand, y: Result<Operand, Error>, r: Result<Operand, Error>) -> bool {
    match y {
        Err(_) => r == y,
        Ok(y) => binary_outcome(op, x, y, r),
    }
}

/// Whether a thunk can be evaluated: its operands are well formed, and
/// no negation or absolute value is taken of what can give the integer
/// that has none in range.
pub open spec fn thunk_evaluable(th: Thunk) -> bool
    decreases th,
{
    match th {
        Thunk::Operand(o) => operand_wf(o),
        Thunk::Expression(e) => expression_evaluable(*e),
    }
}

/// Whether an expression can be evaluated: see `thunk_evaluable`.
pub open spec fn expression_evaluable(e: Expression) -> bool
    decreases e,
{
    match e {
        Expression::Unary(op, th) => thunk_evaluable(th) && ((op == UnaryOp::Neg || op == UnaryOp::Abs)
            ==> forall|x: Operand| #[trigger] thunk_outcome(th, Ok(x)) ==> !holds_min_integer(x)),
        Expression::Binary(_, a, b) => thunk_evaluable(a) && thunk_evaluable(b),
    }
}

impl Expression {
    /// Evaluates the thunks in order, then applies the operator; the first
    /// error stops it.
    pub fn eval(self) -> (r: Result<Operand, Error>)
        requires
            expression_evaluable(self),
        ensures
            expression_outcome(self, r),
            r matches Ok(x) ==> operand_wf(x),
        decreases self,
    {
        match self {
            Expression::Unary(u_op, th) => {
                let ghost th0 = th;
                match th.eval() {
                    Err(err) => Err(err),
                    Ok(x) => {
                        let ghost x0 = x;
                        let r = u_op.process(x);
                        proof {
                            assert(thunk_outcome(th0, Ok(x0)));
                        }
                        r
                    },
                }
            },
            Expression::Binary(b_op, th_a, th_b) => {
                let ghost a0 = th_a;
                let ghost b0 = th_b;
                match th_a.eval() {
                    Err(err) => Err(err),
                    Ok(x) => {
                        let ghost x0 = x;
                        proof {
                            assert(thunk_outcome(a0, Ok(x0)));
                        }
                        match th_b.eval() {
                            Err(err) => {
                                proof {
                                    let rr = Err::<Operand, Error>(err);
                                    assert(thunk_outcome(a0, Ok(x0)) && thunk_outcome(b0, rr) && binary_step(
                                        b_op,
                                        x0,
                                        rr,
                                        rr,
                                    ));
                                }
                                Err(err)
                            },
                            Ok(y) => {
                                let ghost y0 = y;
                                let r = b_op.process(x, y);
                                proof {
                                    assert(thunk_outcome(a0, Ok(x0)) && thunk_outcome(b0, Ok(y0)) && binary_step(
                                        b_op,
                                        x0,
                                        Ok(y0),
                                        r,
                                    ));
                                }
                                r
                            },
                        }
                    },
                }
            },
        }
    }
}

impl Thunk {
    /// The operand, or what the expression evaluates to.
    pub fn eval(self) -> (r: Result<Operand, Error>)
        requires
            thunk_evaluable(self),
        ensures
            thunk_outcome(self, r),
            r matches Ok(x) ==> operand_wf(x),
        decreases self,
    {
        match self {
            Thunk::Operand(o) => Ok(o),
            Thunk::Expression(e) => (*e).eval(),
        }
    }
}

} // verus!
