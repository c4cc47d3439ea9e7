use vstd::prelude::*;

verus! {

/// Failures of the arithmetic helper.
#[derive(Debug, Clone, Copy, PartialEq, Eq, Structural)]
pub enum CalculatorError {
    DivisionByZero,
    UndefinedOperation,
}

impl CalculatorError {
    /// The tag printed for this failure.
    pub fn message(&self) -> (r: &'static str)
        ensures
            r@ == calculator_error_tag(*self),
    {
        match self {
            CalculatorError::DivisionByZero => "division-by-zero",
            CalculatorError::UndefinedOperation => "undefined-operation",
        }
    }
}

pub open spec fn calculator_error_tag(e: CalculatorError) -> Seq<char> {
    match e {
        CalculatorError::DivisionByZero => "division-by-zero"@,
        CalculatorError::UndefinedOperation => "undefined-operation"@,
    }
}

} // verus!
