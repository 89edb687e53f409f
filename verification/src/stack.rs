//! The machine's bounded stack of register values.  A push past the
//! fixed capacity is fatal; popping an empty stack yields nothing,
//! which the engine treats as a fatal save/restore mismatch.

use vstd::prelude::*;

use crate::errors::MachineError;
use crate::representation::Object;

verus! {

/// A bounded LIFO of machine values.
pub struct Stack {
    capacity: usize,
    container: Vec<Object>,
}

impl Stack {
    /// The values currently held, bottom first.
    pub closed spec fn view(&self) -> Seq<Object> {
        self.container@
    }

    /// The configured depth bound.
    pub closed spec fn spec_capacity(&self) -> int {
        self.capacity as int
    }

    /// An empty stack with depth 1000.
    pub fn new() -> (r: Self)
        ensures
            r@ == Seq::<Object>::empty(),
            r.spec_capacity() == 1000,
    {
        Stack { capacity: 1000, container: Vec::new() }
    }

    /// An empty stack with the given depth bound.
    pub fn with_capacity(capacity: usize) -> (r: Self)
        ensures
            r@ == Seq::<Object>::empty(),
            r.spec_capacity() == capacity,
    {
        Stack { capacity, container: Vec::new() }
    }

    /// The current depth.
    pub fn depth(&self) -> (r: usize)
        ensures
            r == self@.len(),
    {
        self.container.len()
    }

    /// Pushes a value; fatal (leaving the stack as it was) once the
    /// configured capacity is reached.
    pub fn push(&mut self, item: Object) -> (r: Result<(), MachineError>)
        ensures
            final (self).spec_capacity() == old(self).spec_capacity(),
            match r {
                Ok(_) => old(self)@.len() < old(self).spec_capacity() && final (self)@ == old(
                    self,
                )@.push(item),
                Err(e) => old(self)@.len() >= old(self).spec_capacity() && final (self)@ == old(
                    self,
                )@ && e == MachineError::StackOverflow,
            },
    {
        if self.container.len() < self.capacity {
            self.container.push(item);
            Ok(())
        } else {
            Err(MachineError::StackOverflow)
        }
    }

    /// Pops the newest value; `None` on an empty stack.
    pub fn pop(&mut self) -> (r: Option<Object>)
        ensures
            final (self).spec_capacity() == old(self).spec_capacity(),
            match r {
                Some(o) => old(self)@.len() > 0 && o == old(self)@.last() && final (self)@ == old(
                    self,
                )@.drop_last(),
                None => old(self)@.len() == 0 && final (self)@ == old(self)@,
            },
    {
        self.container.pop()
    }

    /// The newest value without removing it; `None` on an empty
    /// stack.
    pub fn peek(&self) -> (r: Option<&Object>)
        ensures
            match r {
                Some(o) => self@.len() > 0 && *o == self@.last(),
                None => self@.len() == 0,
            },
    {
        if self.container.len() > 0 {
            Some(&self.container[self.container.len() - 1])
        } else {
            None
        }
    }
}

} // verus!
