//! Binary operators that compare two values.

use vstd::prelude::*;

use crate::functions::Error;
use crate::metadata::types::{MetaVal, ValView, val_order, val_wf};

verus! {

/// The binary predicates: equality and the order of values.
#[derive(Clone, Copy, Debug, PartialEq, Eq, Structural)]
pub enum Predicate {
    Eq,
    Ne,
    Lt,
    Le,
    Gt,
    Ge,
}

/// What a binary predicate answers for two values.
pub open spec fn compared(p: Predicate, a: ValView, b: ValView) -> bool {
    match p {
        Predicate::Eq => a == b,
        Predicate::Ne => a != b,
        Predicate::Lt => val_order(a, b) < 0,
        Predicate::Le => val_order(a, b) <= 0,
        Predicate::Gt => val_order(a, b) > 0,
        Predicate::Ge => val_order(a, b) >= 0,
    }
}

impl Predicate {
    /// Compares two values: by equality, or by the order of values.
    pub fn process(&self, mv_a: &MetaVal, mv_b: &MetaVal) -> (r: Result<bool, Error>)
        requires
            val_wf(mv_a@),
            val_wf(mv_b@),
        ensures
            r == Ok::<bool, Error>(compared(*self, mv_a@, mv_b@)),
    {
        match self {
            Predicate::Eq => Ok(mv_a.equal(mv_b)),
            Predicate::Ne => Ok(!mv_a.equal(mv_b)),
            Predicate::Lt => Ok(mv_a.order(mv_b) < 0),
            Predicate::Le => Ok(mv_a.order(mv_b) <= 0),
            Predicate::Gt => Ok(mv_a.order(mv_b) > 0),
            Predicate::Ge => Ok(mv_a.order(mv_b) >= 0),
        }
    }
}

} // verus!
