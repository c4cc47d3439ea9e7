use vstd::prelude::*;

use crate::errors::Error;
use crate::forth::definition_type::{DefinitionType, DefinitionTypeView};
use crate::forth::forth_errors::ForthError;
use crate::forth::intruction::{Instruction, InstructionView};
use crate::forth::parser::{parse_tokens_result, tokens, Parser};
use crate::forth::word::{
    find_end_definition, first_end, lemma_first_end_prefix, define_result, invalid_word, run_word_result, WordDefinitionManager, WordType, WordTypeView,
    WordsView, body_view,
};
use crate::forth::word_data::WordData;
use crate::handler::instructions_handler::{
    instruction_step, number_step, reports, ExecutionHandler, Machine,
};
use crate::stack::{element_capacity, underflow};

verus! {

/// Everything a program can change: the operand stack and output, and the
/// dictionary.
pub struct ForthView {
    pub machine: Machine,
    pub words: WordsView,
}

/// The dictionary after the definition that opens `def`: `:` followed by
/// the new word's name and its body up to `;`. Without a name after the `:`
/// it fails with `InvalidWord`.
pub open spec fn definition_result(words: WordsView, def: Seq<InstructionView>) -> Result<
    WordsView,
    Error,
> {
    if def.len() >= 2 {
        match def[1] {
            InstructionView::DefinitionType(DefinitionTypeView::Name(n)) => define_result(
                words,
                WordTypeView::UserDefined(n),
                def.subrange(2, def.len() as int),
            ),
            _ => Err(invalid_word()),
        }
    } else {
        Err(invalid_word())
    }
}

/// Runs `data` from position `i` on `st`: a `:` defines a word from the
/// instructions up to the next `;` and the run goes on after that `;`, a
/// name runs the word bound to it, and any other instruction goes to the
/// handler. The first error stops the run.
pub open spec fn process_result(st: ForthView, cap: nat, data: Seq<InstructionView>, i: int) -> (
    ForthView,
    Option<Error>,
)
    decreases data.len() - i,
{
    if i < 0 || i >= data.len() {
        (st, None)
    } else {
        match data[i] {
            InstructionView::StartDefinition => {
                let def = data.subrange(i, data.len() as int);
                match definition_result(st.words, def) {
                    Ok(w) => match first_end(def.subrange(2, def.len() as int)) {
                        Some(e) => if i + 3 + e <= data.len() {
                            process_result(
                                ForthView { machine: st.machine, words: w },
                                cap,
                                data,
                                i + 3 + e,
                            )
                        } else {
                            (ForthView { machine: st.machine, words: w }, None)
                        },
                        None => (ForthView { machine: st.machine, words: w }, None),
                    },
                    Err(e) => (st, Some(e)),
                }
            },
            InstructionView::DefinitionType(DefinitionTypeView::Name(n)) => {
                let (m, e) = run_word_result(st.words, cap, n, st.machine);
                if e is Some {
                    (ForthView { machine: m, words: st.words }, e)
                } else {
                    process_result(ForthView { machine: m, words: st.words }, cap, data, i + 1)
                }
            },
            ins => {
                let (m, e) = instruction_step(st.machine, cap, ins);
                if e is Some {
                    (ForthView { machine: m, words: st.words }, e)
                } else {
                    process_result(ForthView { machine: m, words: st.words }, cap, data, i + 1)
                }
            },
        }
    }
}

/// The interpreter: an operand stack with its output, a dictionary of words
/// and a parser.
pub struct Forth {
    handler: ExecutionHandler,
    word_manager: WordDefinitionManager,
    parser: Parser,
}

impl Forth {
    pub closed spec fn view_forth(&self) -> ForthView {
        ForthView { machine: self.handler.machine(), words: self.word_manager.view_words() }
    }

    /// Most elements the stack can hold.
    pub closed spec fn cap(&self) -> nat {
        self.handler.cap()
    }

    pub closed spec fn wf(&self) -> bool {
        self.handler.wf() && self.word_manager.wf()
    }

    /// An interpreter with an empty stack of `stack_capacity` bytes, no
    /// words, and output into `writer` when one is given.
    pub fn new(stack_capacity: Option<usize>, writer: Option<Vec<u8>>) -> (r: Self)
        ensures
            r.wf(),
            r.view_forth().machine.stack == Seq::<i16>::empty(),
            r.view_forth().machine.output == match writer {
                Some(w) => Some(w@),
                None => None::<Seq<u8>>,
            },
            r.view_forth().words.words == Map::<WordTypeView, nat>::empty(),
            r.view_forth().words.bodies == Seq::<Seq<crate::forth::word_data::WordDataView>>::empty(),
            r.cap() == element_capacity(stack_capacity),
    {
        Forth {
            word_manager: WordDefinitionManager::new(),
            handler: ExecutionHandler::new(stack_capacity, writer),
            parser: Parser::new(),
        }
    }

    /// Pushes `element`; fails with `Overflow` when the stack is full.
    pub fn push(&mut self, element: i16) -> (r: Result<(), Error>)
        requires
            old(self).wf(),
        ensures
            final(self).wf(),
            final(self).cap() == old(self).cap(),
            final(self).view_forth().words == old(self).view_forth().words,
            final(self).view_forth().machine == number_step(
                old(self).view_forth().machine,
                old(self).cap(),
                element,
            ).0,
            reports(r, number_step(old(self).view_forth().machine, old(self).cap(), element).1),
    {
        self.handler.handle_push_element(element)
    }

    /// The top of the stack; fails with `Underflow` when it is empty.
    pub fn peek_stack(&self) -> (r: Result<&i16, Error>)
        requires
            self.wf(),
        ensures
            self.view_forth().machine.stack.len() == 0 ==> r == Err::<&i16, Error>(underflow()),
            self.view_forth().machine.stack.len() > 0 ==> (r matches Ok(v) && *v
                == self.view_forth().machine.stack.last()),
    {
        self.handler.handle_get_top_element()
    }

    /// Runs the instructions of `data` in order (see `process_result`).
    pub fn process_instructions(&mut self, data: Vec<Instruction>) -> (r: Result<(), Error>)
        requires
            old(self).wf(),
        ensures
            final(self).wf(),
            final(self).cap() == old(self).cap(),
            final(self).view_forth() == process_result(
                old(self).view_forth(),
                old(self).cap(),
                data@.map_values(|i: Instruction| i@),
                0,
            ).0,
            reports(
                r,
                process_result(
                    old(self).view_forth(),
                    old(self).cap(),
                    data@.map_values(|i: Instruction| i@),
                    0,
                ).1,
            ),
    {
        let ghost dv = data@.map_values(|i: Instruction| i@);
        let ghost cap = self.cap();
        let ghost target = process_result(self.view_forth(), cap, dv, 0);
        let ghost mut base: int = 0;
        let mut items = data;
        let mut i: usize = 0;
        proof {
            assert(items@.map_values(|i: Instruction| i@) =~= dv.subrange(0, dv.len() as int));
        }
        while i < items.len()
            invariant
                self.wf(),
                self.cap() == cap,
                cap == old(self).cap(),
                dv == data@.map_values(|i: Instruction| i@),
                target == process_result(old(self).view_forth(), cap, dv, 0),
                0 <= base,
                base + items@.len() == dv.len(),
                items@.map_values(|i: Instruction| i@) == dv.subrange(base, dv.len() as int),
                i <= items@.len(),
                process_result(self.view_forth(), cap, dv, base + i) == target,
            decreases dv.len() - (base + i),
        {
            proof {
                assert(dv[base + i] == items@.map_values(|i: Instruction| i@)[i as int]);
            }
            if let Instruction::StartDefinition = items[i] {
                let ghost st = self.view_forth();
                let ghost iv = items@.map_values(|i: Instruction| i@);
                let ghost def = iv.subrange(i as int, iv.len() as int);
                proof {
                    assert(def =~= dv.subrange(base + i, dv.len() as int));
                }
                let res = self.define_word(&mut items, i);
                if res.is_err() {
                    return res;
                }
                proof {
                    let e = first_end(def.subrange(2, def.len() as int))->Some_0;
                    lemma_first_end_prefix(def.subrange(2, def.len() as int), e);
                    let nb = base + i + 3 + e;
                    assert(items@.map_values(|i: Instruction| i@) =~= dv.subrange(nb, dv.len() as int));
                    base = nb;
                }
                i = 0;
            } else {
                let res = match &items[i] {
                    Instruction::DefinitionType(DefinitionType::Name(name)) => self.execute_new_word(
                        name.as_str(),
                    ),
                    element => self.handler.handle_instruction(element),
                };
                if res.is_err() {
                    return res;
                }
                i = i + 1;
            }
        }
        Ok(())
    }

    /// Defines the word whose definition opens at position `start` of `items`
    /// and leaves in `items` what follows the definition's `;`.
    fn define_word(&mut self, items: &mut Vec<Instruction>, start: usize) -> (r: Result<(), Error>)
        requires
            old(self).wf(),
            start < old(items)@.len(),
        ensures
            final(self).wf(),
            final(self).cap() == old(self).cap(),
            final(self).view_forth().machine == old(self).view_forth().machine,
            ({
                let def = old(items)@.map_values(|i: Instruction| i@).subrange(
                    start as int,
                    old(items)@.len() as int,
                );
                match definition_result(old(self).view_forth().words, def) {
                    Ok(w) => r is Ok && final(self).view_forth().words == w && first_end(
                        def.subrange(2, def.len() as int),
                    ) is Some && final(items)@.map_values(|i: Instruction| i@) == def.subrange(
                        3 + first_end(def.subrange(2, def.len() as int))->Some_0 as int,
                        def.len() as int,
                    ),
                    Err(e) => r == Err::<(), Error>(e) && final(self).view_forth().words == old(
                        self,
                    ).view_forth().words,
                }
            }),
    {
        let ghost dv = items@.map_values(|i: Instruction| i@);
        let ghost def = dv.subrange(start as int, dv.len() as int);
        proof {
            reveal(define_result);
        }
        if items.len() - start < 2 {
            return Err(Error::ForthError(ForthError::InvalidWord));
        }
        let name = match &items[start + 1] {
            Instruction::DefinitionType(DefinitionType::Name(word_name)) => word_name.clone(),
            _ => {
                proof {
                    assert(def[1] == items@[start + 1]@);
                }
                return Err(Error::ForthError(ForthError::InvalidWord));
            },
        };
        proof {
            assert(def[1] == items@[start + 1]@);
        }
        let mut rest = items.split_off(start + 2);
        let ghost body = rest@.map_values(|i: Instruction| i@);
        proof {
            assert(body =~= def.subrange(2, def.len() as int));
        }
        match find_end_definition(&rest) {
            None => self.word_manager.define_new_word(WordType::UserDefined(name), rest),
            Some(e) => {
                let tail = rest.split_off(e + 1);
                proof {
                    lemma_first_end_prefix(body, e as nat);
                    assert(rest@.map_values(|i: Instruction| i@) =~= body.subrange(0, e + 1));
                    assert(tail@.map_values(|i: Instruction| i@) =~= def.subrange(3 + e as int, def.len() as int));
                }
                let r = self.word_manager.define_new_word(WordType::UserDefined(name), rest);
                *items = tail;
                r
            },
        }
    }

    /// Runs the word bound to `word_name`; fails with `UnknownWord` when the
    /// name is unbound.
    fn execute_new_word(&mut self, word_name: &str) -> (r: Result<(), Error>)
        requires
            old(self).wf(),
        ensures
            final(self).wf(),
            final(self).cap() == old(self).cap(),
            final(self).view_forth().words == old(self).view_forth().words,
            final(self).view_forth().machine == run_word_result(
                old(self).view_forth().words,
                old(self).cap(),
                word_name@,
                old(self).view_forth().machine,
            ).0,
            reports(
                r,
                run_word_result(
                    old(self).view_forth().words,
                    old(self).cap(),
                    word_name@,
                    old(self).view_forth().machine,
                ).1,
            ),
    {
        self.word_manager.run_word(&mut self.handler, word_name)
    }

    /// Whether `word_name` is bound to a body.
    pub fn is_word_defined(&self, word_name: &WordType) -> (r: bool)
        requires
            self.wf(),
        ensures
            r == self.view_forth().words.words.contains_key(word_name@),
    {
        self.word_manager.is_word_defined(word_name)
    }

    /// The body `word_name` is bound to, if any.
    pub fn fetch_word_definition(&self, word_name: &WordType) -> (r: Option<&Vec<WordData>>)
        requires
            self.wf(),
        ensures
            r is None ==> !self.view_forth().words.words.contains_key(word_name@),
            r matches Some(b) ==> self.view_forth().words.words.contains_key(word_name@)
                && body_view(b@) == self.view_forth().words.bodies[self.view_forth().words.words[word_name@] as int],
    {
        self.word_manager.get_word_definition(word_name)
    }

    /// The stack, bottom first.
    pub fn get_stack_content(&self) -> (r: &Vec<i16>)
        requires
            self.wf(),
        ensures
            r@ == self.view_forth().machine.stack,
    {
        self.handler.handle_get_stack_content()
    }

    /// The instructions of the line `line`, with names resolved against the
    /// words defined so far.
    pub fn parse_instructions(&self, line: String) -> (r: Vec<Instruction>)
        requires
            self.wf(),
        ensures
            r@.map_values(|i: Instruction| i@) == parse_tokens_result(
                self.view_forth().words.words,
                tokens(line@),
            ).0,
    {
        self.parser.parse_instructions(line, &self.word_manager)
    }

    pub fn is_stack_empty(&self) -> (r: bool)
        requires
            self.wf(),
        ensures
            r == (self.view_forth().machine.stack.len() == 0),
    {
        self.handler.handle_is_empty()
    }

    pub fn stack_size(&self) -> (r: usize)
        requires
            self.wf(),
        ensures
            r == self.view_forth().machine.stack.len(),
    {
        self.handler.handle_stack_size()
    }

    /// The bytes written so far, if there is a writer.
    pub fn get_writer(&self) -> (r: Option<&Vec<u8>>)
        ensures
            self.view_forth().machine.output == match r {
                Some(w) => Some(w@),
                None => None::<Seq<u8>>,
            },
    {
        self.handler.handle_get_writer()
    }
}

} // verus!
