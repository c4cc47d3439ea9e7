use vstd::prelude::*;

verus! {

/// Failures of the language itself.
#[derive(Debug, Clone, Copy, PartialEq, Eq, Structural)]
pub enum ForthError {
    InvalidWord,
    UnknownWord,
}

impl ForthError {
    /// The tag printed for this failure.
    pub fn message(&self) -> (r: &'static str)
        ensures
            r@ == forth_error_tag(*self),
    {
        match self {
            ForthError::InvalidWord => "invalid-word",
            ForthError::UnknownWord => "?",
        }
    }
}

pub open spec fn forth_error_tag(e: ForthError) -> Seq<char> {
    match e {
        ForthError::InvalidWord => "invalid-word"@,
        ForthError::UnknownWord => "?"@,
    }
}

} // verus!
