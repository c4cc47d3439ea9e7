pub mod boolean_operations;
pub mod definition_type;
pub mod forth_errors;
pub mod interpreter;
pub mod intruction;
pub mod intructions;
pub mod lexicon;
pub mod output_instructions;
pub mod parser;
pub mod word;
pub mod word_data;
