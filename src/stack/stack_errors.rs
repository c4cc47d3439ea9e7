use vstd::prelude::*;

verus! {

/// Failures of the bounded operand stack.
#[derive(Debug, Clone, Copy, PartialEq, Eq, Structural)]
pub enum StackError {
    Underflow,
    Overflow,
}

impl StackError {
    /// The tag printed for this failure.
    pub fn message(&self) -> (r: &'static str)
        ensures
            r@ == stack_error_tag(*self),
    {
        match self {
            StackError::Underflow => "stack-underflow",
            StackError::Overflow => "stack-overflow",
        }
    }
}

pub open spec fn stack_error_tag(e: StackError) -> Seq<char> {
    match e {
        StackError::Underflow => "stack-underflow"@,
        StackError::Overflow => "stack-overflow"@,
    }
}

} // verus!
