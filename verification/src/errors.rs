//! The fatal-error taxonomy of the machine core.
//!
//! Every failure in this core is fatal: assembly errors are reported
//! before any instruction runs, execution and heap errors abort the
//! current run.  Verified code never panics; each fatal condition is
//! returned as a value of this type instead.

use vstd::prelude::*;

verus! {

/// A fatal machine condition.  There is no recovery: callers are
/// expected to abort the run that produced one of these.
#[derive(Debug, PartialEq)]
pub enum MachineError {
    /// Assembly: the head symbol of an instruction names no known form.
    UnknownInstruction,
    /// Assembly: a `branch` destination is not a `(label ...)` form.
    BadBranch,
    /// Assembly: a `goto` destination is neither a label nor a register.
    BadGoto,
    /// Assembly: a `test` condition is not an operation form.
    BadTest,
    /// Assembly: a `perform` action is not an operation form, or its
    /// routed result cannot be stored.
    BadPerform,
    /// Assembly: an operand is not a `const`, `label` or `reg` form.
    BadPrimitive,
    /// Assembly: an instruction form is missing a required part.
    MalformedInstruction,
    /// Assembly: a `label` operand names a label that was never declared.
    UndeclaredLabel,
    /// Execution: an operation name is not registered in the table.
    UnknownOperation,
    /// Execution: a register name was never declared.
    UnknownRegister,
    /// Execution: a push would exceed the stack's fixed capacity.
    StackOverflow,
    /// Execution: a restore found nothing on the stack.
    StackUnderflow,
    /// Execution: a register was used as an index but holds no index.
    NotAnIndex,
    /// Heap: an index reached past a generation's capacity.
    IndexOutOfBounds,
    /// Heap: a named array does not exist.
    UnknownMemoryBlock,
    /// Heap/GC: a broken-heart cell whose cdr holds no forwarding index.
    BrokenHeart,
    /// Reader: mismatched delimiters or an unreadable token.
    SyntaxError,
    /// Reader: a structure was deeper than the reader's budget; the
    /// structure in memory is not a tree of the generation's size.
    StructureTooDeep,
    /// Execution: the step budget handed to `execute` ran out before
    /// the program halted.
    OutOfSteps,
}

} // verus!
