//! The tagged value type shared by registers, the stack and the heap.
//!
//! A single register or heap slot holds either an immediate value or a
//! pointer; the "is this a heap pointer" check is centralized here and
//! used by every part of the machine.  Floating-point numbers never
//! take part in the core's own logic — the core only stores and moves
//! them — so a `Number` carries the literal text it was read from.

use vstd::prelude::*;

verus! {

/// A machine value.  `Index` and `Pair` are integer indices into the
/// currently active heap generation: `Index` is the form registers
/// hold, `Pair` the form heap slots hold.  An index is only meaningful
/// relative to the generation it was minted in and must be re-derived
/// after a garbage collection.  `BrokenHeart` is reserved for the
/// collector's forwarding protocol and is unrepresentable as user
/// data: no reader or instruction ever produces it.
#[derive(Debug, PartialEq)]
pub enum Object {
    /// A floating-point number, kept as the literal text it was read
    /// from; the core never computes with it.
    Number(String),
    Integer(i32),
    Symbol(String),
    Quote(String),
    LispString(String),
    /// A heap index as held by a register.
    Index(usize),
    Bool(bool),
    /// A heap index as held by a car or cdr slot.
    Pair(usize),
    /// The empty list.
    Nil,
    /// An untouched heap slot.
    Empty,
    /// The collector's "already relocated" marker.
    BrokenHeart,
}

impl Clone for Object {
    /// A deep copy that is equal to the original.
    fn clone(&self) -> (res: Self)
        ensures
            res == *self,
    {
        match self {
            Object::Number(s) => Object::Number(s.clone()),
            Object::Integer(i) => Object::Integer(*i),
            Object::Symbol(s) => Object::Symbol(s.clone()),
            Object::Quote(s) => Object::Quote(s.clone()),
            Object::LispString(s) => Object::LispString(s.clone()),
            Object::Index(i) => Object::Index(*i),
            Object::Bool(b) => Object::Bool(*b),
            Object::Pair(i) => Object::Pair(*i),
            Object::Nil => Object::Nil,
            Object::Empty => Object::Empty,
            Object::BrokenHeart => Object::BrokenHeart,
        }
    }
}

/// The heap index an object points at, if it is a pointer.  Both the
/// register form (`Index`) and the slot form (`Pair`) count: the
/// collector relocates either, keeping its tag.
pub open spec fn spec_pointer_target(o: Object) -> Option<int> {
    match o {
        Object::Index(i) => Some(i as int),
        Object::Pair(i) => Some(i as int),
        _ => None,
    }
}

/// Whether an object is a heap pointer (in either form).
pub open spec fn spec_is_pointer(o: Object) -> bool {
    spec_pointer_target(o) is Some
}

/// The same pointer retargeted at `j`, keeping its tag; a non-pointer
/// is returned unchanged.
pub open spec fn spec_retarget(o: Object, j: int) -> Object {
    match o {
        Object::Index(_) => Object::Index(j as usize),
        Object::Pair(_) => Object::Pair(j as usize),
        _ => o,
    }
}

/// Exec counterpart of `spec_pointer_target`.
pub fn pointer_target(o: &Object) -> (r: Option<usize>)
    ensures
        match r {
            Some(t) => spec_pointer_target(*o) == Some(t as int),
            None => spec_pointer_target(*o) is None,
        },
{
    match o {
        Object::Index(i) => Some(*i),
        Object::Pair(i) => Some(*i),
        _ => None,
    }
}

/// Converts a scalar machine value back into a symbolic expression.
/// Heap pointers and the heap-only markers have no symbolic form:
/// converting one is fatal.
pub fn object_to_exp(o: Object) -> (r: Result<crate::tpfordev::Exp, crate::errors::MachineError>)
    ensures
        match r {
            Ok(e) => match o {
                Object::Number(x) => e == crate::tpfordev::Exp::FloatNumber(x),
                Object::Integer(x) => e == crate::tpfordev::Exp::Integer(x),
                Object::Symbol(x) => e == crate::tpfordev::Exp::Symbol(x),
                Object::Quote(x) => e == crate::tpfordev::Exp::Quote(x),
                Object::LispString(x) => e == crate::tpfordev::Exp::SchemeString(x),
                Object::Bool(x) => e == crate::tpfordev::Exp::Bool(x),
                _ => false,
            },
            Err(e) => e == crate::errors::MachineError::SyntaxError && match o {
                Object::Number(_) | Object::Integer(_) | Object::Symbol(_) | Object::Quote(_)
                    | Object::LispString(_) | Object::Bool(_) => false,
                _ => true,
            },
        },
{
    match o {
        Object::Number(x) => Ok(crate::tpfordev::Exp::FloatNumber(x)),
        Object::Integer(x) => Ok(crate::tpfordev::Exp::Integer(x)),
        Object::Symbol(x) => Ok(crate::tpfordev::Exp::Symbol(x)),
        Object::Quote(x) => Ok(crate::tpfordev::Exp::Quote(x)),
        Object::LispString(x) => Ok(crate::tpfordev::Exp::SchemeString(x)),
        Object::Bool(x) => Ok(crate::tpfordev::Exp::Bool(x)),
        _ => Err(crate::errors::MachineError::SyntaxError),
    }
}

} // verus!
