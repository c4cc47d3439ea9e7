use vstd::prelude::*;

use crate::calculator::calculator_errors::CalculatorError;
use crate::errors::Error;

verus! {

/// `x` brought into the range of `i16` by wrapping around modulo 2^16.
pub open spec fn wrap_i16(x: int) -> i16 {
    let m = x % 0x1_0000;
    (if m > 0x7fff {
        m - 0x1_0000
    } else {
        m
    }) as i16
}

/// Integer division that rounds toward zero.
pub open spec fn trunc_div(a: int, b: int) -> int {
    let q: int = vstd::math::abs(a) as int / vstd::math::abs(b) as int;
    if (a < 0) == (b < 0) {
        q
    } else {
        -q
    }
}

/// True iff `op` spells the single character `c`.
pub open spec fn is_symbol(op: Seq<char>, c: char) -> bool {
    op.len() == 1 && op[0] == c
}

/// The result of `n1 op n2`: `+ - *` wrap around on overflow, `/` rounds
/// toward zero (and wraps on `-32768 / -1`), any other symbol is undefined.
pub open spec fn calculation(n1: i16, n2: i16, op: Seq<char>) -> Result<i16, Error> {
    if is_symbol(op, '+') {
        Ok(wrap_i16(n1 + n2))
    } else if is_symbol(op, '-') {
        Ok(wrap_i16(n1 - n2))
    } else if is_symbol(op, '*') {
        Ok(wrap_i16(n1 * n2))
    } else if is_symbol(op, '/') {
        if n2 == 0 {
            Err(Error::CalculatorError(CalculatorError::DivisionByZero))
        } else {
            Ok(wrap_i16(trunc_div(n1 as int, n2 as int)))
        }
    } else {
        Err(Error::CalculatorError(CalculatorError::UndefinedOperation))
    }
}

/// Arithmetic on two stack values.
pub struct Calculator {}

impl Default for Calculator {
    fn default() -> (r: Self)
        ensures
            r == (Calculator {  }),
    {
        Calculator::new()
    }
}

impl Calculator {
    pub fn new() -> (r: Self)
        ensures
            r == (Calculator {  }),
    {
        Calculator {  }
    }

    fn wrap(x: i32) -> (r: i16)
        ensures
            r == wrap_i16(x as int),
    {
        let m: i32 = x % 0x1_0000;
        let m: i32 = if m < 0 {
            m + 0x1_0000
        } else {
            m
        };
        let w: i32 = if m > 0x7fff {
            m - 0x1_0000
        } else {
            m
        };
        assert(m == (x as int) % 0x1_0000);
        w as i16
    }

    pub fn add(&self, n1: i16, n2: i16) -> (r: i16)
        ensures
            r == wrap_i16(n1 + n2),
    {
        Self::wrap(n1 as i32 + n2 as i32)
    }

    pub fn subtract(&self, n1: i16, n2: i16) -> (r: i16)
        ensures
            r == wrap_i16(n1 - n2),
    {
        Self::wrap(n1 as i32 - n2 as i32)
    }

    pub fn multiply(&self, n1: i16, n2: i16) -> (r: i16)
        ensures
            r == wrap_i16(n1 * n2),
    {
        assert(-0x8000 * 0x7fff <= n1 * n2 <= 0x8000 * 0x8000) by (nonlinear_arith)
            requires
                -0x8000 <= n1 <= 0x7fff,
                -0x8000 <= n2 <= 0x7fff,
        ;
        Self::wrap(n1 as i32 * n2 as i32)
    }

    pub fn divide(&self, n1: i16, n2: i16) -> (r: Result<i16, Error>)
        ensures
            n2 == 0 ==> r == Err::<i16, Error>(Error::CalculatorError(CalculatorError::DivisionByZero)),
            n2 != 0 ==> r == Ok::<i16, Error>(wrap_i16(trunc_div(n1 as int, n2 as int))),
    {
        if n2 == 0 {
            return Err(Error::CalculatorError(CalculatorError::DivisionByZero));
        }
        let a: u32 = if n1 < 0 {
            (0 - n1 as i32) as u32
        } else {
            n1 as u32
        };
        let b: u32 = if n2 < 0 {
            (0 - n2 as i32) as u32
        } else {
            n2 as u32
        };
        let q: u32 = a / b;
        assert(q <= a) by (nonlinear_arith)
            requires
                b >= 1,
                q == a / b,
        ;
        let signed: i32 = if (n1 < 0) == (n2 < 0) {
            q as i32
        } else {
            0 - q as i32
        };
        Ok(Self::wrap(signed))
    }

    /// Applies `operation` (`+`, `-`, `*` or `/`) to `n1` and `n2`.
    pub fn calculate(&self, n1: i16, n2: i16, operation: &str) -> (r: Result<i16, Error>)
        ensures
            r == calculation(n1, n2, operation@),
    {
        if operation.unicode_len() != 1 {
            return Err(Error::CalculatorError(CalculatorError::UndefinedOperation));
        }
        let c = operation.get_char(0);
        if c == '+' {
            Ok(self.add(n1, n2))
        } else if c == '-' {
            Ok(self.subtract(n1, n2))
        } else if c == '*' {
            Ok(self.multiply(n1, n2))
        } else if c == '/' {
            self.divide(n1, n2)
        } else {
            Err(Error::CalculatorError(CalculatorError::UndefinedOperation))
        }
    }
}

} // verus!
