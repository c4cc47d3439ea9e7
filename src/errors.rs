use vstd::prelude::*;

use crate::calculator::calculator_errors::{calculator_error_tag, CalculatorError};
use crate::forth::forth_errors::{forth_error_tag, ForthError};
use crate::stack::stack_errors::{stack_error_tag, StackError};

verus! {

/// Every failure the interpreter can report.
#[derive(Debug, Clone, Copy, PartialEq, Eq, Structural)]
pub enum Error {
    StackError(StackError),
    CalculatorError(CalculatorError),
    ForthError(ForthError),
    InvalidStackSize,
    MissingPathError,
}

/// The human-readable tag of each failure.
pub open spec fn error_tag(e: Error) -> Seq<char> {
    match e {
        Error::StackError(s) => stack_error_tag(s),
        Error::CalculatorError(c) => calculator_error_tag(c),
        Error::ForthError(f) => forth_error_tag(f),
        Error::InvalidStackSize => "invalid stack size"@,
        Error::MissingPathError => "path to file not received"@,
    }
}

impl Error {
    /// The tag printed for this failure.
    pub fn message(&self) -> (r: &'static str)
        ensures
            r@ == error_tag(*self),
    {
        match self {
            Error::StackError(s) => s.message(),
            Error::CalculatorError(c) => c.message(),
            Error::ForthError(f) => f.message(),
            Error::InvalidStackSize => "invalid stack size",
            Error::MissingPathError => "path to file not received",
        }
    }
}

impl From<StackError> for Error {
    fn from(error: StackError) -> (r: Error)
        ensures
            r == Error::StackError(error),
    {
        Error::StackError(error)
    }
}

impl vstd::std_specs::convert::FromSpecImpl<StackError> for Error {
    open spec fn obeys_from_spec() -> bool {
        true
    }

    open spec fn from_spec(v: StackError) -> Error {
        Error::StackError(v)
    }
}

impl From<CalculatorError> for Error {
    fn from(error: CalculatorError) -> (r: Error)
        ensures
            r == Error::CalculatorError(error),
    {
        Error::CalculatorError(error)
    }
}

impl vstd::std_specs::convert::FromSpecImpl<CalculatorError> for Error {
    open spec fn obeys_from_spec() -> bool {
        true
    }

    open spec fn from_spec(v: CalculatorError) -> Error {
        Error::CalculatorError(v)
    }
}

impl From<ForthError> for Error {
    fn from(error: ForthError) -> (r: Error)
        ensures
            r == Error::ForthError(error),
    {
        Error::ForthError(error)
    }
}

impl vstd::std_specs::convert::FromSpecImpl<ForthError> for Error {
    open spec fn obeys_from_spec() -> bool {
        true
    }

    open spec fn from_spec(v: ForthError) -> Error {
        Error::ForthError(v)
    }
}

} // verus!
