//! Unary operators that answer a question about a value.

use vstd::prelude::*;

use crate::functions::Error;
use crate::functions::operator::as_sequence;
use crate::metadata::types::{MetaVal, ValView, lemma_vals_view};

verus! {

/// Whether all values of a sequence equal its first one.
pub open spec fn all_equal_vals(xs: Seq<ValView>) -> bool {
    forall|i: int| 0 <= i < xs.len() ==> #[trigger] xs[i] == xs[0]
}

/// What a unary predicate answers for a value.
pub open spec fn predicate_result(p: Predicate, v: ValView) -> Result<bool, Error> {
    match p {
        Predicate::AllEqual => match v {
            ValView::Sequence(xs) => Ok(all_equal_vals(xs)),
            _ => Err(Error::NotSequence),
        },
    }
}

/// The unary predicates.
#[derive(Clone, Copy, Debug, PartialEq, Eq, Structural)]
pub enum Predicate {
    AllEqual,
}

impl Predicate {
    /// Answers the predicate for a value: for `AllEqual`, whether every
    /// element of a sequence equals the first (true of an empty one);
    /// `NotSequence` for a value that is not a sequence.
    pub fn process(&self, mv: &MetaVal) -> (r: Result<bool, Error>)
        ensures
            r == predicate_result(*self, mv@),
    {
        match self {
            Predicate::AllEqual => {
                let seq = as_sequence(mv)?;
                let ghost xs = match mv@ {
                    ValView::Sequence(xs) => xs,
                    _ => Seq::empty(),
                };
                proof {
                    lemma_vals_view(seq@);
                }
                if seq.len() == 0 {
                    return Ok(true);
                }
                let mut i: usize = 1;
                while i < seq.len()
                    invariant
                        mv@ == ValView::Sequence(xs),
                        1 <= i <= seq.len(),
                        xs.len() == seq@.len(),
                        forall|j: int| 0 <= j < seq@.len() ==> xs[j] == seq@[j]@,
                        forall|j: int| 0 <= j < i ==> #[trigger] xs[j] == xs[0],
                    decreases seq.len() - i,
                {
                    if !seq[i].equal(&seq[0]) {
                        proof {
                            assert(xs[i as int] != xs[0]);
                        }
                        return Ok(false);
                    }
                    i = i + 1;
                }
                Ok(true)
            },
        }
    }
}

} // verus!
