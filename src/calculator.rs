pub mod calculator;
pub mod calculator_errors;

pub use calculator::Calculator;
