use vstd::prelude::*;
use vstd::utf8::encode_utf8;

use crate::calculator::calculator::{calculation, Calculator};
use crate::errors::Error;
use crate::forth::boolean_operations::{
    boolean_result, logical_result, BooleanOperation, BooleanOperationManager, LogicalOperation,
};
use crate::forth::intruction::{Instruction, InstructionView};
use crate::forth::output_instructions::{OutputInstruction, OutputInstructionView};
use crate::forth::word_data::{WordData, WordDataView};
use crate::stack::stack_operations::{
    execute_stack_operation, stack_operation_result, StackOperation,
};
use crate::stack::{element_capacity, push_result, underflow, Stack};

verus! {

/// The state that executing an opcode reads and changes: the operand stack,
/// bottom first, and the bytes written so far, absent when there is no writer.
pub struct Machine {
    pub stack: Seq<i16>,
    pub output: Option<Seq<u8>>,
}

/// The ASCII digits of `n` in decimal.
pub open spec fn decimal_digits(n: nat) -> Seq<u8>
    decreases n,
{
    if n < 10 {
        seq![(48 + n) as u8]
    } else {
        decimal_digits(n / 10).push((48 + n % 10) as u8)
    }
}

/// `v` written in decimal, with a leading `-` when negative.
pub open spec fn decimal_text(v: int) -> Seq<u8> {
    if v < 0 {
        seq![45u8] + decimal_digits((-v) as nat)
    } else {
        decimal_digits(v as nat)
    }
}

/// The UTF-8 encoding of the character with code `x`, for `0 <= x <= 255`.
pub open spec fn byte_char_utf8(x: int) -> Seq<u8> {
    if x < 128 {
        seq![x as u8]
    } else {
        seq![(0xc0 + x / 64) as u8, (0x80 + x % 64) as u8]
    }
}

/// The machine with its stack replaced by `s`.
pub open spec fn with_stack(m: Machine, s: Seq<i16>) -> Machine {
    Machine { stack: s, output: m.output }
}

/// Pushes `v`; a full stack fails with `Overflow` and is left as it was.
pub open spec fn number_step(m: Machine, cap: nat, v: i16) -> (Machine, Option<Error>) {
    match push_result(m.stack, cap, v) {
        Ok(s) => (with_stack(m, s), None),
        Err(e) => (m, Some(e)),
    }
}

/// Pops `b` then `a` and pushes `a op b`. Operands already taken stay
/// taken when a later step fails.
pub open spec fn arithmetic_step(m: Machine, op: Seq<char>) -> (Machine, Option<Error>) {
    let s = m.stack;
    let n = s.len() as int;
    if n == 0 {
        (m, Some(underflow()))
    } else if n == 1 {
        (with_stack(m, s.drop_last()), Some(underflow()))
    } else {
        let rest = s.subrange(0, n - 2);
        match calculation(s[n - 2], s[n - 1], op) {
            Ok(v) => (with_stack(m, rest.push(v)), None),
            Err(e) => (with_stack(m, rest), Some(e)),
        }
    }
}

/// Pops the first operand, then the second unless the operation is `Not`,
/// and pushes the canonical result.
pub open spec fn boolean_step(m: Machine, op: BooleanOperation) -> (Machine, Option<Error>) {
    let s = m.stack;
    let n = s.len() as int;
    if n == 0 {
        (m, Some(underflow()))
    } else if op == BooleanOperation::Not {
        (with_stack(m, s.drop_last().push(boolean_result(op, s[n - 1], None))), None)
    } else if n == 1 {
        (with_stack(m, s.drop_last()), Some(underflow()))
    } else {
        (
            with_stack(
                m,
                s.subrange(0, n - 2).push(boolean_result(op, s[n - 1], Some(s[n - 2]))),
            ),
            None,
        )
    }
}

/// Pops `b` then `a` and pushes the canonical truth of `a op b`.
pub open spec fn logical_step(m: Machine, op: LogicalOperation) -> (Machine, Option<Error>) {
    let s = m.stack;
    let n = s.len() as int;
    if n == 0 {
        (m, Some(underflow()))
    } else if n == 1 {
        (with_stack(m, s.drop_last()), Some(underflow()))
    } else {
        (with_stack(m, s.subrange(0, n - 2).push(logical_result(op, s[n - 2], s[n - 1]))), None)
    }
}

/// Output words never fail. Without a writer they do nothing; `.` and `emit`
/// on an empty stack do nothing either.
pub open spec fn output_step(m: Machine, o: OutputInstructionView) -> Machine {
    let s = m.stack;
    match m.output {
        None => m,
        Some(out) => match o {
            OutputInstructionView::Dot => if s.len() == 0 {
                m
            } else {
                Machine {
                    stack: s.drop_last(),
                    output: Some(out + decimal_text(s.last() as int) + seq![32u8]),
                }
            },
            OutputInstructionView::Emit => if s.len() == 0 {
                m
            } else {
                let x = s.last() as int;
                Machine {
                    stack: s.drop_last(),
                    output: Some(
                        if 0 <= x <= 255 {
                            out + byte_char_utf8(x) + seq![32u8]
                        } else {
                            out
                        },
                    ),
                }
            },
            OutputInstructionView::CR => Machine { stack: s, output: Some(out.push(10u8)) },
            OutputInstructionView::DotQuote(text) => Machine {
                stack: s,
                output: Some(out + encode_utf8(text) + seq![32u8]),
            },
        },
    }
}

/// What executing one compiled opcode does to `m`, and the error it stops
/// with, if any. References to words and conditional markers are left to the
/// word manager and do nothing here.
pub open spec fn word_step(m: Machine, cap: nat, w: WordDataView) -> (Machine, Option<Error>) {
    match w {
        WordDataView::Number(v) => number_step(m, cap, v),
        WordDataView::Operator(op) => arithmetic_step(m, op),
        WordDataView::StackWord(op) => match stack_operation_result(m.stack, cap, op) {
            Ok(s) => (with_stack(m, s), None),
            Err(e) => (m, Some(e)),
        },
        WordDataView::BooleanOperation(op) => boolean_step(m, op),
        WordDataView::LogicalOperation(op) => logical_step(m, op),
        WordDataView::Output(o) => (output_step(m, o), None),
        _ => (m, None),
    }
}

/// What executing one parsed instruction does to `m`: the same as the
/// compiled opcode it stands for; definitions and word references do nothing.
#[verifier::opaque]
pub open spec fn instruction_step(m: Machine, cap: nat, i: InstructionView) -> (
    Machine,
    Option<Error>,
) {
    match i {
        InstructionView::Number(v) => word_step(m, cap, WordDataView::Number(v)),
        InstructionView::Operator(op) => word_step(m, cap, WordDataView::Operator(op)),
        InstructionView::StackWord(op) => word_step(m, cap, WordDataView::StackWord(op)),
        InstructionView::BooleanOperation(op) => word_step(
            m,
            cap,
            WordDataView::BooleanOperation(op),
        ),
        InstructionView::LogicalOperation(op) => word_step(
            m,
            cap,
            WordDataView::LogicalOperation(op),
        ),
        InstructionView::Output(o) => word_step(m, cap, WordDataView::Output(o)),
        _ => (m, None),
    }
}

/// `r` reports `e`: success when there is none.
pub open spec fn reports(r: Result<(), Error>, e: Option<Error>) -> bool {
    match e {
        None => r is Ok,
        Some(err) => r == Err::<(), Error>(err),
    }
}

/// Appends the decimal digits of `n`.
fn push_digits(out: &mut Vec<u8>, n: u32)
    ensures
        final(out)@ == old(out)@ + decimal_digits(n as nat),
    decreases n,
{
    if n >= 10 {
        push_digits(out, n / 10);
    }
    out.push((48 + n % 10) as u8);
    proof {
        assert(final(out)@ =~= old(out)@ + decimal_digits(n as nat));
    }
}

/// Appends the bytes of `bytes`.
fn push_bytes(out: &mut Vec<u8>, bytes: &[u8])
    ensures
        final(out)@ == old(out)@ + bytes@,
{
    let mut i: usize = 0;
    while i < bytes.len()
        invariant
            i <= bytes@.len(),
            out@ == old(out)@ + bytes@.subrange(0, i as int),
        decreases bytes@.len() - i,
    {
        out.push(bytes[i]);
        i = i + 1;
        proof {
            assert(out@ =~= old(out)@ + bytes@.subrange(0, i as int));
        }
    }
    proof {
        assert(bytes@.subrange(0, bytes@.len() as int) =~= bytes@);
    }
}

/// Runs the opcodes that touch the stack, the calculator and the writer.
pub struct ExecutionHandler {
    stack: Stack,
    calculator: Calculator,
    boolean_manager: BooleanOperationManager,
    writer: Option<Vec<u8>>,
}

impl ExecutionHandler {
    /// The stack and the output.
    pub closed spec fn machine(&self) -> Machine {
        Machine {
            stack: self.stack@,
            output: match self.writer {
                Some(w) => Some(w@),
                None => None,
            },
        }
    }

    /// Most elements the stack can hold.
    pub closed spec fn cap(&self) -> nat {
        self.stack.cap()
    }

    pub closed spec fn wf(&self) -> bool {
        self.stack.wf()
    }

    /// A handler with an empty stack of `stack_capacity` bytes, writing into
    /// `writer` when one is given.
    pub fn new(stack_capacity: Option<usize>, writer: Option<Vec<u8>>) -> (r: Self)
        ensures
            r.wf(),
            r.machine().stack == Seq::<i16>::empty(),
            r.machine().output == match writer {
                Some(w) => Some(w@),
                None => None::<Seq<u8>>,
            },
            r.cap() == element_capacity(stack_capacity),
    {
        ExecutionHandler {
            stack: Stack::new(stack_capacity),
            calculator: Calculator::new(),
            boolean_manager: BooleanOperationManager::new(),
            writer,
        }
    }

    /// Executes one parsed instruction.
    pub fn handle_instruction(&mut self, instruction: &Instruction) -> (r: Result<(), Error>)
        requires
            old(self).wf(),
        ensures
            final(self).wf(),
            final(self).cap() == old(self).cap(),
            final(self).machine() == instruction_step(
                old(self).machine(),
                old(self).cap(),
                instruction@,
            ).0,
            reports(r, instruction_step(old(self).machine(), old(self).cap(), instruction@).1),
    {
        proof {
            reveal(instruction_step);
        }
        match instruction {
            Instruction::Number(number) => self.handle_push_element(*number),
            Instruction::Operator(operator) => self.handle_calculate(operator.as_str()),
            Instruction::StackWord(stack_word) => self.handle_stack_word(stack_word),
            Instruction::BooleanOperation(boolean_operation) => self.handle_boolean_operation(
                boolean_operation,
            ),
            Instruction::LogicalOperation(logical_operation) => self.handle_logical_operation(
                logical_operation,
            ),
            Instruction::Output(output) => {
                self.handle_generation_output(output);
                Ok(())
            },
            _ => Ok(()),
        }
    }

    /// Executes one compiled opcode.
    pub fn handle_word_instruction(&mut self, instruction: &WordData) -> (r: Result<(), Error>)
        requires
            old(self).wf(),
        ensures
            final(self).wf(),
            final(self).cap() == old(self).cap(),
            final(self).machine() == word_step(old(self).machine(), old(self).cap(), instruction@).0,
            reports(r, word_step(old(self).machine(), old(self).cap(), instruction@).1),
    {
        match instruction {
            WordData::Number(number) => self.handle_push_element(*number),
            WordData::Operator(operator) => self.handle_calculate(operator.as_str()),
            WordData::StackWord(stack_word) => self.handle_stack_word(stack_word),
            WordData::BooleanOperation(boolean_operation) => self.handle_boolean_operation(
                boolean_operation,
            ),
            WordData::LogicalOperation(logical_operation) => self.handle_logical_operation(
                logical_operation,
            ),
            WordData::Output(output) => {
                self.handle_generation_output(output);
                Ok(())
            },
            _ => Ok(()),
        }
    }

    /// The bytes written so far, if there is a writer.
    pub fn handle_get_writer(&self) -> (r: Option<&Vec<u8>>)
        ensures
            self.machine().output == match r {
                Some(w) => Some(w@),
                None => None::<Seq<u8>>,
            },
    {
        match &self.writer {
            Some(w) => Some(w),
            None => None,
        }
    }

    /// The top of the stack; fails with `Underflow` when it is empty.
    pub fn handle_get_top_element(&self) -> (r: Result<&i16, Error>)
        requires
            self.wf(),
        ensures
            self.machine().stack.len() == 0 ==> r == Err::<&i16, Error>(underflow()),
            self.machine().stack.len() > 0 ==> (r matches Ok(v) && *v
                == self.machine().stack.last()),
    {
        self.stack.top()
    }

    /// Pushes `element`; fails with `Overflow` when the stack is full.
    pub fn handle_push_element(&mut self, element: i16) -> (r: Result<(), Error>)
        requires
            old(self).wf(),
        ensures
            final(self).wf(),
            final(self).cap() == old(self).cap(),
            final(self).machine() == number_step(old(self).machine(), old(self).cap(), element).0,
            reports(r, number_step(old(self).machine(), old(self).cap(), element).1),
    {
        self.stack.push(element)
    }

    /// Removes and returns the top of the stack; fails with `Underflow` when
    /// it is empty.
    pub fn handle_drop_element(&mut self) -> (r: Result<i16, Error>)
        requires
            old(self).wf(),
        ensures
            final(self).wf(),
            final(self).cap() == old(self).cap(),
            final(self).machine().output == old(self).machine().output,
            old(self).machine().stack.len() == 0 ==> r == Err::<i16, Error>(underflow())
                && final(self).machine().stack == old(self).machine().stack,
            old(self).machine().stack.len() > 0 ==> r == Ok::<i16, Error>(
                old(self).machine().stack.last(),
            ) && final(self).machine().stack == old(self).machine().stack.drop_last(),
    {
        self.stack.drop()
    }

    /// The stack, bottom first.
    pub fn handle_get_stack_content(&self) -> (r: &Vec<i16>)
        requires
            self.wf(),
        ensures
            r@ == self.machine().stack,
    {
        self.stack.get_stack_content()
    }

    pub fn handle_is_empty(&self) -> (r: bool)
        requires
            self.wf(),
        ensures
            r == (self.machine().stack.len() == 0),
    {
        self.stack.is_empty()
    }

    pub fn handle_stack_size(&self) -> (r: usize)
        requires
            self.wf(),
        ensures
            r == self.machine().stack.len(),
    {
        self.stack.size()
    }

    fn handle_stack_word(&mut self, operation: &StackOperation) -> (r: Result<(), Error>)
        requires
            old(self).wf(),
        ensures
            final(self).wf(),
            final(self).cap() == old(self).cap(),
            final(self).machine() == word_step(
                old(self).machine(),
                old(self).cap(),
                WordDataView::StackWord(*operation),
            ).0,
            reports(
                r,
                word_step(
                    old(self).machine(),
                    old(self).cap(),
                    WordDataView::StackWord(*operation),
                ).1,
            ),
    {
        execute_stack_operation(&mut self.stack, operation)
    }

    pub fn handle_calculate(&mut self, operation: &str) -> (r: Result<(), Error>)
        requires
            old(self).wf(),
        ensures
            final(self).wf(),
            final(self).cap() == old(self).cap(),
            final(self).machine() == arithmetic_step(old(self).machine(), operation@).0,
            reports(r, arithmetic_step(old(self).machine(), operation@).1),
    {
        proof {
            self.stack.lemma_bounded();
        }
        let operand2 = match self.stack.drop() {
            Ok(v) => v,
            Err(e) => return Err(e),
        };
        let operand1 = match self.stack.drop() {
            Ok(v) => v,
            Err(e) => return Err(e),
        };
        proof {
            let s = old(self).stack@;
            assert(s.drop_last().drop_last() =~= s.subrange(0, s.len() - 2));
        }
        let result = match self.calculator.calculate(operand1, operand2, operation) {
            Ok(v) => v,
            Err(e) => return Err(e),
        };
        self.stack.push(result)
    }

    fn handle_boolean_operation(&mut self, operation: &BooleanOperation) -> (r: Result<(), Error>)
        requires
            old(self).wf(),
        ensures
            final(self).wf(),
            final(self).cap() == old(self).cap(),
            final(self).machine() == boolean_step(old(self).machine(), *operation).0,
            reports(r, boolean_step(old(self).machine(), *operation).1),
    {
        proof {
            self.stack.lemma_bounded();
        }
        let operand1 = match self.stack.drop() {
            Ok(v) => v,
            Err(e) => return Err(e),
        };
        let operand2 = if self.boolean_manager.is_not(operation) {
            None
        } else {
            match self.stack.drop() {
                Ok(v) => {
                    proof {
                        let s = old(self).stack@;
                        assert(s.drop_last().drop_last() =~= s.subrange(0, s.len() - 2));
                    }
                    Some(v)
                },
                Err(e) => return Err(e),
            }
        };
        let result = self.boolean_manager.execute_boolean_operation(operation, operand1, operand2);
        self.stack.push(result)
    }

    fn handle_logical_operation(&mut self, operation: &LogicalOperation) -> (r: Result<(), Error>)
        requires
            old(self).wf(),
        ensures
            final(self).wf(),
            final(self).cap() == old(self).cap(),
            final(self).machine() == logical_step(old(self).machine(), *operation).0,
            reports(r, logical_step(old(self).machine(), *operation).1),
    {
        proof {
            self.stack.lemma_bounded();
        }
        let operand2 = match self.stack.drop() {
            Ok(v) => v,
            Err(e) => return Err(e),
        };
        let operand1 = match self.stack.drop() {
            Ok(v) => v,
            Err(e) => return Err(e),
        };
        proof {
            let s = old(self).stack@;
            assert(s.drop_last().drop_last() =~= s.subrange(0, s.len() - 2));
        }
        let result = self.boolean_manager.execute_logical_operations(operation, operand1, operand2);
        self.stack.push(result)
    }

    fn handle_generation_output(&mut self, output: &OutputInstruction)
        requires
            old(self).wf(),
        ensures
            final(self).wf(),
            final(self).cap() == old(self).cap(),
            final(self).machine() == output_step(old(self).machine(), output@),
    {
        match output {
            OutputInstruction::Dot => self.handle_output_dot(),
            OutputInstruction::CR => self.handle_output_cr(),
            OutputInstruction::Emit => self.handle_output_emit(),
            OutputInstruction::DotQuote(text) => self.handle_output_dot_quote(text.as_str()),
        }
    }

    fn handle_output_dot(&mut self)
        requires
            old(self).wf(),
        ensures
            final(self).wf(),
            final(self).cap() == old(self).cap(),
            final(self).machine() == output_step(old(self).machine(), OutputInstructionView::Dot),
    {
        if self.writer.is_none() {
            return;
        }
        let top = match self.stack.drop() {
            Ok(v) => v,
            Err(_) => return,
        };
        if let Some(writer) = &mut self.writer {
            if top < 0 {
                writer.push(45u8);
                push_digits(writer, (0 - top as i32) as u32);
            } else {
                push_digits(writer, top as u32);
            }
            writer.push(32u8);
        }
        proof {
            let out = old(self).machine().output.unwrap();
            let t = decimal_text(top as int);
            assert(self.writer.unwrap()@ =~= out + t + seq![32u8]);
        }
    }

    fn handle_output_cr(&mut self)
        requires
            old(self).wf(),
        ensures
            final(self).wf(),
            final(self).cap() == old(self).cap(),
            final(self).machine() == output_step(old(self).machine(), OutputInstructionView::CR),
    {
        if let Some(writer) = &mut self.writer {
            writer.push(10u8);
        }
    }

    fn handle_output_emit(&mut self)
        requires
            old(self).wf(),
        ensures
            final(self).wf(),
            final(self).cap() == old(self).cap(),
            final(self).machine() == output_step(old(self).machine(), OutputInstructionView::Emit),
    {
        if self.writer.is_none() {
            return;
        }
        let top = match self.stack.drop() {
            Ok(v) => v,
            Err(_) => return,
        };
        if let Some(writer) = &mut self.writer {
            if 0 <= top && top <= 255 {
                if top < 128 {
                    writer.push(top as u8);
                } else {
                    writer.push((0xc0 + top / 64) as u8);
                    writer.push((0x80 + top % 64) as u8);
                }
                writer.push(32u8);
            }
        }
        proof {
            let out = old(self).machine().output.unwrap();
            let x = top as int;
            if 0 <= x <= 255 {
                assert(self.writer.unwrap()@ =~= out + byte_char_utf8(x) + seq![32u8]);
            }
        }
    }

    fn handle_output_dot_quote(&mut self, text: &str)
        requires
            old(self).wf(),
        ensures
            final(self).wf(),
            final(self).cap() == old(self).cap(),
            final(self).machine() == output_step(
                old(self).machine(),
                OutputInstructionView::DotQuote(text@),
            ),
    {
        if let Some(writer) = &mut self.writer {
            push_bytes(writer, text.as_bytes());
            writer.push(32u8);
        }
        proof {
            if let Some(out) = old(self).machine().output {
                assert(self.writer.unwrap()@ =~= out + encode_utf8(text@) + seq![32u8]);
            }
        }
    }
}

} // verus!
