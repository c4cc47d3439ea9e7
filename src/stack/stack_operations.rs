use vstd::prelude::*;

use crate::errors::Error;
use crate::stack::{
    drop_result, dup_result, over_result, rot_result, swap_result, Stack, applied,
};

verus! {

/// The words that rearrange the operand stack.
#[derive(Debug, Clone, Copy, PartialEq, Eq, Structural)]
pub enum StackOperation {
    Dup,
    Drop,
    Swap,
    Over,
    Rot,
}

pub const DUP: StackOperation = StackOperation::Dup;

pub const DROP: StackOperation = StackOperation::Drop;

pub const SWAP: StackOperation = StackOperation::Swap;

pub const OVER: StackOperation = StackOperation::Over;

pub const ROT: StackOperation = StackOperation::Rot;

/// The stack that `operation` leaves on `s`, or the error it fails with.
pub open spec fn stack_operation_result(s: Seq<i16>, cap: nat, operation: StackOperation) -> Result<
    Seq<i16>,
    Error,
> {
    match operation {
        StackOperation::Dup => dup_result(s, cap),
        StackOperation::Drop => drop_result(s),
        StackOperation::Swap => swap_result(s),
        StackOperation::Over => over_result(s, cap),
        StackOperation::Rot => rot_result(s),
    }
}

/// Applies `operation` to `stack`; on failure the stack is left as it was.
pub fn execute_stack_operation(stack: &mut Stack, operation: &StackOperation) -> (r: Result<
    (),
    Error,
>)
    requires
        old(stack).wf(),
    ensures
        final(stack).wf(),
        final(stack).cap() == old(stack).cap(),
        applied(
            r,
            old(stack)@,
            final(stack)@,
            stack_operation_result(old(stack)@, old(stack).cap(), *operation),
        ),
{
    match operation {
        StackOperation::Dup => stack.dup(),
        StackOperation::Swap => stack.swap(),
        StackOperation::Over => stack.over(),
        StackOperation::Rot => stack.rot(),
        StackOperation::Drop => match stack.drop() {
            Ok(_) => Ok(()),
            Err(e) => Err(e),
        },
    }
}

} // verus!
