pub use crate::forth::definition_type::DefinitionType;
pub use crate::forth::intruction::Instruction;
pub use crate::forth::word_data::WordData;
