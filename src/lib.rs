pub mod calculator;
pub mod config;
pub mod errors;
pub mod forth;
pub mod handler;
pub mod stack;

pub use config::Config;
pub use forth::boolean_operations::{BooleanOperation, LogicalOperation};
pub use forth::interpreter::Forth;
pub use forth::intruction::Instruction;
pub use stack::Stack;
