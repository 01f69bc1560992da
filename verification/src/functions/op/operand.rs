//! The operands that an operand stack holds, and the stack.

use vstd::prelude::*;

use crate::functions::Error;
use crate::functions::util::StreamAdaptor;
use crate::metadata::types::MetaVal;

verus! {

/// A value pushed onto an operand stack: a stream of values, or a value.
pub enum Operand {
    StreamAdaptor(StreamAdaptor),
    Value(MetaVal),
}

/// A stack of operands, the last pushed on top.
pub struct OperandStack(Vec<Operand>);

impl View for OperandStack {
    type V = Seq<Operand>;

    /// The operands from the bottom of the stack to its top.
    closed spec fn view(&self) -> Seq<Operand> {
        self.0@
    }
}

impl OperandStack {
    /// An empty stack.
    pub fn new() -> (r: Self)
        ensures
            r@ == Seq::<Operand>::empty(),
    {
        OperandStack(Vec::new())
    }

    /// The number of operands on the stack.
    pub fn len(&self) -> (r: usize)
        ensures
            r == self@.len(),
    {
        self.0.len()
    }

    /// Takes the operand on top; `EmptyStack` for an empty stack, which
    /// stays as it is.
    pub fn pop(&mut self) -> (r: Result<Operand, Error>)
        ensures
            old(self)@.len() == 0 ==> r == Err::<Operand, Error>(Error::EmptyStack) && final(self)@ == old(self)@,
            old(self)@.len() > 0 ==> r == Ok::<Operand, Error>(old(self)@.last()) && final(self)@ == old(
                self,
            )@.drop_last(),
    {
        match self.0.pop() {
            Some(op) => Ok(op),
            None => Err(Error::EmptyStack),
        }
    }

    /// Puts an operand on top.
    pub fn push(&mut self, op: Operand)
        ensures
            final(self)@ == old(self)@.push(op),
    {
        self.0.push(op)
    }
}

/// Popping a stack right after a push gives back the pushed operand and
/// leaves the stack as it was before the push.
pub proof fn lemma_pop_undoes_push(before: Seq<Operand>, op: Operand)
    ensures
        before.push(op).len() > 0,
        before.push(op).last() == op,
        before.push(op).drop_last() == before,
{
    assert(before.push(op).drop_last() =~= before);
}

} // verus!
