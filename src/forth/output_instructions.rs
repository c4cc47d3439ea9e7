use vstd::prelude::*;

verus! {

pub const DOT: OutputInstruction = OutputInstruction::Dot;

pub const EMIT: OutputInstruction = OutputInstruction::Emit;

pub const CR: OutputInstruction = OutputInstruction::CR;

/// The words that write to the output: the top value in decimal, the top value
/// as a character, a newline, or a quoted text.
#[derive(Debug, PartialEq, Eq)]
pub enum OutputInstruction {
    Dot,
    Emit,
    CR,
    DotQuote(String),
}

/// What an `OutputInstruction` denotes, with the text as its characters.
pub enum OutputInstructionView {
    Dot,
    Emit,
    CR,
    DotQuote(Seq<char>),
}

impl View for OutputInstruction {
    type V = OutputInstructionView;

    open spec fn view(&self) -> OutputInstructionView {
        match self {
            OutputInstruction::Dot => OutputInstructionView::Dot,
            OutputInstruction::Emit => OutputInstructionView::Emit,
            OutputInstruction::CR => OutputInstructionView::CR,
            OutputInstruction::DotQuote(s) => OutputInstructionView::DotQuote(s@),
        }
    }
}

impl OutputInstruction {
    pub fn dot_quote(content: String) -> (r: Self)
        ensures
            r@ == OutputInstructionView::DotQuote(content@),
    {
        OutputInstruction::DotQuote(content)
    }
}

} // verus!
