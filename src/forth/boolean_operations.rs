use vstd::prelude::*;

verus! {

/// The canonical truth value.
pub const FORTH_TRUE: i16 = -1;

/// The canonical false value.
pub const FORTH_FALSE: i16 = 0;

pub const AND: BooleanOperation = BooleanOperation::And;

pub const OR: BooleanOperation = BooleanOperation::Or;

pub const NOT: BooleanOperation = BooleanOperation::Not;

pub const LESS_THAN: LogicalOperation = LogicalOperation::LessThan;

pub const GREATER_THAN: LogicalOperation = LogicalOperation::GreaterThan;

pub const EQUAL: LogicalOperation = LogicalOperation::Equal;

/// Combinators on canonical booleans.
#[derive(Debug, Clone, Copy, PartialEq, Eq, Structural)]
pub enum BooleanOperation {
    And,
    Or,
    Not,
}

/// Comparisons of two signed values.
#[derive(Debug, Clone, Copy, PartialEq, Eq, Structural)]
pub enum LogicalOperation {
    LessThan,
    GreaterThan,
    Equal,
}

/// The canonical encoding of `b`.
pub open spec fn forth_bool(b: bool) -> i16 {
    if b {
        FORTH_TRUE
    } else {
        FORTH_FALSE
    }
}

/// `And` and `Or` count only `FORTH_TRUE` as true, a missing second operand
/// counting as false; `Not` is true exactly of zero.
pub open spec fn boolean_result(operation: BooleanOperation, op1: i16, op2: Option<i16>) -> i16 {
    let second = match op2 {
        Some(v) => v,
        None => 0,
    };
    match operation {
        BooleanOperation::And => forth_bool(op1 == FORTH_TRUE && second == FORTH_TRUE),
        BooleanOperation::Or => forth_bool(op1 == FORTH_TRUE || second == FORTH_TRUE),
        BooleanOperation::Not => forth_bool(op1 == 0),
    }
}

/// `op1` compared against `op2`.
pub open spec fn logical_result(operation: LogicalOperation, op1: i16, op2: i16) -> i16 {
    match operation {
        LogicalOperation::LessThan => forth_bool(op1 < op2),
        LogicalOperation::GreaterThan => forth_bool(op1 > op2),
        LogicalOperation::Equal => forth_bool(op1 == op2),
    }
}

/// Evaluates boolean and relational words.
#[derive(Debug, PartialEq, Eq, Structural)]
pub struct BooleanOperationManager {}

impl Default for BooleanOperationManager {
    fn default() -> (r: Self)
        ensures
            r == (BooleanOperationManager {  }),
    {
        BooleanOperationManager::new()
    }
}

impl BooleanOperationManager {
    pub fn new() -> (r: Self)
        ensures
            r == (BooleanOperationManager {  }),
    {
        BooleanOperationManager {  }
    }

    /// Applies a boolean combinator; `op2` is ignored by `Not`.
    pub fn execute_boolean_operation(
        &mut self,
        operation: &BooleanOperation,
        op1: i16,
        op2: Option<i16>,
    ) -> (r: i16)
        ensures
            r == boolean_result(*operation, op1, op2),
    {
        let second = match op2 {
            Some(v) => v,
            None => 0,
        };
        match operation {
            BooleanOperation::And => {
                if op1 == FORTH_TRUE && second == FORTH_TRUE {
                    FORTH_TRUE
                } else {
                    FORTH_FALSE
                }
            },
            BooleanOperation::Or => {
                if op1 == FORTH_TRUE || second == FORTH_TRUE {
                    FORTH_TRUE
                } else {
                    FORTH_FALSE
                }
            },
            BooleanOperation::Not => {
                if op1 == 0 {
                    FORTH_TRUE
                } else {
                    FORTH_FALSE
                }
            },
        }
    }

    /// Compares `op1` against `op2`.
    pub fn execute_logical_operations(
        &mut self,
        operation: &LogicalOperation,
        op1: i16,
        op2: i16,
    ) -> (r: i16)
        ensures
            r == logical_result(*operation, op1, op2),
    {
        match operation {
            LogicalOperation::LessThan => {
                if op1 < op2 {
                    FORTH_TRUE
                } else {
                    FORTH_FALSE
                }
            },
            LogicalOperation::GreaterThan => {
                if op1 > op2 {
                    FORTH_TRUE
                } else {
                    FORTH_FALSE
                }
            },
            LogicalOperation::Equal => {
                if op1 == op2 {
                    FORTH_TRUE
                } else {
                    FORTH_FALSE
                }
            },
        }
    }

    /// True iff `operation` takes a single operand.
    pub fn is_not(&self, operation: &BooleanOperation) -> (r: bool)
        ensures
            r == (*operation == BooleanOperation::Not),
    {
        match operation {
            BooleanOperation::Not => true,
            _ => false,
        }
    }
}

} // verus!
