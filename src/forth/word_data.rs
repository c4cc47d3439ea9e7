use vstd::prelude::*;

use crate::forth::boolean_operations::{BooleanOperation, LogicalOperation};
use crate::forth::definition_type::{DefinitionType, DefinitionTypeView};
use crate::forth::output_instructions::{OutputInstruction, OutputInstructionView};
use crate::stack::stack_operations::StackOperation;

verus! {

/// One element of a compiled word body. `DefinitionIndex` refers to the body
/// stored at that position, as it was when the referring word was compiled.
#[derive(Debug, PartialEq, Eq)]
pub enum WordData {
    Number(i16),
    Operator(String),
    StackWord(StackOperation),
    DefinitionType(DefinitionType),
    BooleanOperation(BooleanOperation),
    LogicalOperation(LogicalOperation),
    Output(OutputInstruction),
    DefinitionIndex(usize),
}

/// What a `WordData` denotes, with its texts as characters.
pub enum WordDataView {
    Number(i16),
    Operator(Seq<char>),
    StackWord(StackOperation),
    DefinitionType(DefinitionTypeView),
    BooleanOperation(BooleanOperation),
    LogicalOperation(LogicalOperation),
    Output(OutputInstructionView),
    DefinitionIndex(nat),
}

impl View for WordData {
    type V = WordDataView;

    open spec fn view(&self) -> WordDataView {
        match self {
            WordData::Number(n) => WordDataView::Number(*n),
            WordData::Operator(s) => WordDataView::Operator(s@),
            WordData::StackWord(op) => WordDataView::StackWord(*op),
            WordData::DefinitionType(d) => WordDataView::DefinitionType(d@),
            WordData::BooleanOperation(op) => WordDataView::BooleanOperation(*op),
            WordData::LogicalOperation(op) => WordDataView::LogicalOperation(*op),
            WordData::Output(o) => WordDataView::Output(o@),
            WordData::DefinitionIndex(i) => WordDataView::DefinitionIndex(*i as nat),
        }
    }
}

impl WordData {
    pub fn number(value: i16) -> (r: Self)
        ensures
            r@ == WordDataView::Number(value),
    {
        WordData::Number(value)
    }

    pub fn operator(op: String) -> (r: Self)
        ensures
            r@ == WordDataView::Operator(op@),
    {
        WordData::Operator(op)
    }

    pub fn stack_word(op: StackOperation) -> (r: Self)
        ensures
            r@ == WordDataView::StackWord(op),
    {
        WordData::StackWord(op)
    }

    pub fn definition_type(def: DefinitionType) -> (r: Self)
        ensures
            r@ == WordDataView::DefinitionType(def@),
    {
        WordData::DefinitionType(def)
    }

    pub fn boolean_operation(op: BooleanOperation) -> (r: Self)
        ensures
            r@ == WordDataView::BooleanOperation(op),
    {
        WordData::BooleanOperation(op)
    }

    pub fn logical_operation(op: LogicalOperation) -> (r: Self)
        ensures
            r@ == WordDataView::LogicalOperation(op),
    {
        WordData::LogicalOperation(op)
    }

    pub fn output(output: OutputInstruction) -> (r: Self)
        ensures
            r@ == WordDataView::Output(output@),
    {
        WordData::Output(output)
    }
}

} // verus!
