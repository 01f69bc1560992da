//! Expressions over the operands: operators applied to arguments.

pub mod op;

pub use self::op::BinaryOp;
pub use self::op::UnaryOp;

use vstd::prelude::*;

use crate::functions::Error;
use crate::functions::expr::op::binary::expr_binary_outcome;
use crate::functions::expr::op::unary::as_operator;
use crate::functions::operand::operand_wf;
use crate::functions::operator::unary::{holds_min_integer, unary_outcome};

verus! {

/// An argument of an operator in an expression: an operand.
pub type Arg = crate::functions::operand::Operand;

/// An operator applied to one or two thunks.
pub enum Expr {
    Unary(UnaryOp, Thunk),
    Binary(BinaryOp, Thunk, Thunk),
}

/// An argument, or an expression that gives one.
pub enum Thunk {
    Arg(Arg),
    Expr(Box<Expr>),
}

/// Whether `r` is what evaluating a thunk can give: an argument gives
/// itself, an expression what it evaluates to.
pub open spec fn thunk_outcome(th: Thunk, r: Result<Arg, Error>) -> bool
    decreases th,
{
    match th {
        Thunk::Arg(o) => r == Ok::<Arg, Error>(o),
        Thunk::Expr(e) => expr_outcome(*e, r),
    }
}

/// Whether `r` is what evaluating an expression can give: the error of the
/// first thunk that fails, in order, or else what the operator gives for
/// what the thunks gave.
pub open spec fn expr_outcome(e: Expr, r: Result<Arg, Error>) -> bool
    decreases e,
{
    match e {
        Expr::Unary(op, th) => (r is Err && thunk_outcome(th, r)) || (exists|x: Arg|
            thunk_outcome(th, Ok(x)) && #[trigger] unary_outcome(as_operator(op), x, r)),
        Expr::Binary(op, a, b) => (r is Err && thunk_outcome(a, r)) || (exists|
            x: Arg,
            y: Result<Arg, Error>,
        | thunk_outcome(a, Ok(x)) && thunk_outcome(b, y) && #[trigger] binary_step(op, x, y, r)),
    }
}

/// What a binary expression gives once its first thunk gave `x` and its
/// second gave `y`: the error of the second, or what the operator gives.
pub open spec fn binary_step(op: BinaryOp, x: Arg, y: Result<Arg, Error>, r: Result<Arg, Error>) -> bool {
    match y {
        Err(_) => r == y,
        Ok(y) => expr_binary_outcome(op, x, y, r),
    }
}

/// Whether a thunk can be evaluated: its arguments are well formed, and no
/// negation or absolute value is taken of what can give the integer that
/// has none in range.
pub open spec fn thunk_evaluable(th: Thunk) -> bool
    decreases th,
{
    match th {
        Thunk::Arg(o) => operand_wf(o),
        Thunk::Expr(e) => expr_evaluable(*e),
    }
}

/// Whether an expression can be evaluated: see `thunk_evaluable`.
pub open spec fn expr_evaluable(e: Expr) -> bool
    decreases e,
{
    match e {
        Expr::Unary(op, th) => thunk_evaluable(th) && ((op == UnaryOp::Neg || op == UnaryOp::Abs) ==> forall|
            x: Arg,
        | #[trigger] thunk_outcome(th, Ok(x)) ==> !holds_min_integer(x)),
        Expr::Binary(_, a, b) => thunk_evaluable(a) && thunk_evaluable(b),
    }
}

impl Expr {
    /// Evaluates the thunks in order, then applies the operator; the first
    /// error stops it.
    pub fn eval(self) -> (r: Result<Arg, Error>)
        requires
            expr_evaluable(self),
        ensures
            expr_outcome(self, r),
            r matches Ok(x) ==> operand_wf(x),
        decreases self,
    {
        match self {
            Expr::Unary(u_op, th) => {
                let ghost th0 = th;
                match th.eval() {
                    Err(err) => Err(err),
                    Ok(x) => {
                        let ghost x0 = x;
                        let r = u_op.process(x);
                        proof {
                            assert(thunk_outcome(th0, Ok(x0)));
                        }
                        r
                    },
                }
            },
            Expr::Binary(b_op, th_a, th_b) => {
                let ghost a0 = th_a;
                let ghost b0 = th_b;
                match th_a.eval() {
                    Err(err) => Err(err),
                    Ok(x) => {
                        let ghost x0 = x;
                        match th_b.eval() {
                            Err(err) => {
                                proof {
                                    let rr = Err::<Arg, Error>(err);
                                    assert(thunk_outcome(a0, Ok(x0)) && thunk_outcome(b0, rr) && binary_step(
                                        b_op,
                                        x0,
                                        rr,
                                        rr,
                                    ));
                                }
                                Err(err)
                            },
                            Ok(y) => {
                                let ghost y0 = y;
                                let r = b_op.process(x, y);
                                proof {
                                    assert(thunk_outcome(a0, Ok(x0)) && thunk_outcome(b0, Ok(y0)) && binary_step(
                                        b_op,
                                        x0,
                                        Ok(y0),
                                        r,
                                    ));
                                }
                                r
                            },
                        }
                    },
                }
            },
        }
    }
}

impl Thunk {
    /// The argument, or what the expression evaluates to.
    pub fn eval(self) -> (r: Result<Arg, Error>)
        requires
            thunk_evaluable(self),
        ensures
            thunk_outcome(self, r),
            r matches Ok(x) ==> operand_wf(x),
        decreases self,
    {
        match self {
            Thunk::Arg(o) => Ok(o),
            Thunk::Expr(e) => (*e).eval(),
        }
    }
}

} // verus!
