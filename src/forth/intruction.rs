use vstd::prelude::*;

use crate::forth::boolean_operations::{BooleanOperation, LogicalOperation};
use crate::forth::definition_type::{DefinitionType, DefinitionTypeView};
use crate::forth::output_instructions::{OutputInstruction, OutputInstructionView};
use crate::stack::stack_operations::StackOperation;

verus! {

/// One parsed element of a line of source text.
#[derive(Debug, PartialEq, Eq)]
pub enum Instruction {
    Number(i16),
    Operator(String),
    StackWord(StackOperation),
    StartDefinition,
    EndDefinition,
    DefinitionType(DefinitionType),
    BooleanOperation(BooleanOperation),
    LogicalOperation(LogicalOperation),
    Output(OutputInstruction),
}

/// What an `Instruction` denotes, with its texts as characters.
pub enum InstructionView {
    Number(i16),
    Operator(Seq<char>),
    StackWord(StackOperation),
    StartDefinition,
    EndDefinition,
    DefinitionType(DefinitionTypeView),
    BooleanOperation(BooleanOperation),
    LogicalOperation(LogicalOperation),
    Output(OutputInstructionView),
}

impl View for Instruction {
    type V = InstructionView;

    open spec fn view(&self) -> InstructionView {
        match self {
            Instruction::Number(n) => InstructionView::Number(*n),
            Instruction::Operator(s) => InstructionView::Operator(s@),
            Instruction::StackWord(op) => InstructionView::StackWord(*op),
            Instruction::StartDefinition => InstructionView::StartDefinition,
            Instruction::EndDefinition => InstructionView::EndDefinition,
            Instruction::DefinitionType(d) => InstructionView::DefinitionType(d@),
            Instruction::BooleanOperation(op) => InstructionView::BooleanOperation(*op),
            Instruction::LogicalOperation(op) => InstructionView::LogicalOperation(*op),
            Instruction::Output(o) => InstructionView::Output(o@),
        }
    }
}

impl Instruction {
    pub fn number(value: i16) -> (r: Self)
        ensures
            r@ == InstructionView::Number(value),
    {
        Instruction::Number(value)
    }

    pub fn operator(op: String) -> (r: Self)
        ensures
            r@ == InstructionView::Operator(op@),
    {
        Instruction::Operator(op)
    }

    pub fn stack_word(op: StackOperation) -> (r: Self)
        ensures
            r@ == InstructionView::StackWord(op),
    {
        Instruction::StackWord(op)
    }

    pub fn start_definition() -> (r: Self)
        ensures
            r@ == InstructionView::StartDefinition,
    {
        Instruction::StartDefinition
    }

    pub fn end_definition() -> (r: Self)
        ensures
            r@ == InstructionView::EndDefinition,
    {
        Instruction::EndDefinition
    }

    pub fn definition_type(def: DefinitionType) -> (r: Self)
        ensures
            r@ == InstructionView::DefinitionType(def@),
    {
        Instruction::DefinitionType(def)
    }

    pub fn boolean_operation(op: BooleanOperation) -> (r: Self)
        ensures
            r@ == InstructionView::BooleanOperation(op),
    {
        Instruction::BooleanOperation(op)
    }

    pub fn logical_operation(op: LogicalOperation) -> (r: Self)
        ensures
            r@ == InstructionView::LogicalOperation(op),
    {
        Instruction::LogicalOperation(op)
    }

    pub fn output(output: OutputInstruction) -> (r: Self)
        ensures
            r@ == InstructionView::Output(output@),
    {
        Instruction::Output(output)
    }
}

} // verus!
