use vstd::prelude::*;

use crate::errors::Error;
use crate::forth::boolean_operations::{BooleanOperation, LogicalOperation};
use crate::forth::definition_type::{DefinitionType, DefinitionTypeView};
use crate::forth::intruction::{Instruction, InstructionView};
use crate::forth::lexicon::{
    all_digits, digits_value, integer_literal, is_space, lowercase_of, parse_integer, to_lowercase,
};
use crate::forth::output_instructions::{OutputInstruction, OutputInstructionView};
use crate::forth::word::{WordDefinitionManager, WordType, WordTypeView};
use crate::stack::stack_operations::StackOperation;

verus! {

/// Where the parser stands with respect to a definition.
#[derive(Debug, Clone, Copy, PartialEq, Eq, Structural)]
pub enum ParserState {
    OutsideDefinition,
    InsideDefinition,
    ParsingWordName,
}

/// A character that ends a word: whitespace or a definition delimiter.
pub open spec fn is_special(c: char) -> bool {
    is_space(c) || c == ':' || c == ';'
}

/// Whether a quoted print literal, `." `, opens at position `i`.
pub open spec fn opens_quote(s: Seq<char>, i: int) -> bool {
    0 <= i && i + 3 <= s.len() && s[i] == '.' && s[i + 1] == '"' && s[i + 2] == ' '
}

/// The first position at or after `k` that holds `"`, or the length of `s`.
pub open spec fn quote_end(s: Seq<char>, k: int) -> int
    decreases s.len() - k,
{
    if k < 0 || k >= s.len() {
        s.len() as int
    } else if s[k] == '"' {
        k
    } else {
        quote_end(s, k + 1)
    }
}

/// The first position at or after `k` that holds a special character, or the
/// length of `s`.
pub open spec fn word_end(s: Seq<char>, k: int) -> int
    decreases s.len() - k,
{
    if k < 0 || k >= s.len() {
        s.len() as int
    } else if is_special(s[k]) {
        k
    } else {
        word_end(s, k + 1)
    }
}

/// The lexemes of `s` from position `i` on. A quoted print literal runs from
/// its `." ` to the next `"` and keeps its text as written; `:` and `;` stand
/// alone; whitespace separates; any other run of characters is a word, in
/// lowercase.
pub open spec fn tokens_from(s: Seq<char>, i: int) -> Seq<Seq<char>>
    decreases s.len() - i,
{
    if i < 0 || i >= s.len() {
        Seq::empty()
    } else if opens_quote(s, i) && i + 3 <= quote_end(s, i + 3) && quote_end(s, i + 3) < s.len() {
        let j = quote_end(s, i + 3);
        seq![s.subrange(i, j + 1)] + tokens_from(s, j + 1)
    } else if s[i] == ':' || s[i] == ';' {
        seq![s.subrange(i, i + 1)] + tokens_from(s, i + 1)
    } else if is_space(s[i]) {
        tokens_from(s, i + 1)
    } else {
        let j = word_end(s, i + 1);
        if i < j && j <= s.len() {
            seq![lowercase_of(s.subrange(i, j))] + tokens_from(s, j)
        } else {
            Seq::empty()
        }
    }
}

/// The lexemes of a whole line.
pub open spec fn tokens(s: Seq<char>) -> Seq<Seq<char>> {
    tokens_from(s, 0)
}

/// Whether `t` is a quoted print literal.
pub open spec fn is_dot_quote(t: Seq<char>) -> bool {
    t.len() >= 4 && t[0] == '.' && t[1] == '"' && t[2] == ' ' && t.last() == '"'
}

pub open spec fn is_user_word(words: Map<WordTypeView, nat>, t: Seq<char>) -> bool {
    words.contains_key(WordTypeView::UserDefined(t))
}

/// The instruction that the lexeme `t` stands for, given the names bound in
/// `words`: output words, numbers, arithmetic operators (unless a word of
/// that name is defined), comparisons, boolean combinators, stack words and
/// conditional markers (unless a word of that name is defined), and
/// otherwise a reference to a word.
pub open spec fn classify(words: Map<WordTypeView, nat>, t: Seq<char>) -> InstructionView {
    if t == "."@ {
        InstructionView::Output(OutputInstructionView::Dot)
    } else if t == "emit"@ {
        InstructionView::Output(OutputInstructionView::Emit)
    } else if t == "cr"@ {
        InstructionView::Output(OutputInstructionView::CR)
    } else if is_dot_quote(t) {
        InstructionView::Output(OutputInstructionView::DotQuote(t.subrange(3, t.len() - 1)))
    } else if integer_literal(t) is Some {
        InstructionView::Number(integer_literal(t)->Some_0)
    } else if t == "+"@ || t == "-"@ || t == "*"@ || t == "/"@ {
        if is_user_word(words, t) {
            InstructionView::DefinitionType(DefinitionTypeView::Name(t))
        } else {
            InstructionView::Operator(t)
        }
    } else if t == "<"@ {
        InstructionView::LogicalOperation(LogicalOperation::LessThan)
    } else if t == ">"@ {
        InstructionView::LogicalOperation(LogicalOperation::GreaterThan)
    } else if t == "="@ {
        InstructionView::LogicalOperation(LogicalOperation::Equal)
    } else if t == "and"@ {
        InstructionView::BooleanOperation(BooleanOperation::And)
    } else if t == "or"@ {
        InstructionView::BooleanOperation(BooleanOperation::Or)
    } else if t == "not"@ {
        InstructionView::BooleanOperation(BooleanOperation::Not)
    } else if is_user_word(words, t) {
        InstructionView::DefinitionType(DefinitionTypeView::Name(t))
    } else if t == "dup"@ {
        InstructionView::StackWord(StackOperation::Dup)
    } else if t == "drop"@ {
        InstructionView::StackWord(StackOperation::Drop)
    } else if t == "swap"@ {
        InstructionView::StackWord(StackOperation::Swap)
    } else if t == "over"@ {
        InstructionView::StackWord(StackOperation::Over)
    } else if t == "rot"@ {
        InstructionView::StackWord(StackOperation::Rot)
    } else if t == "if"@ {
        InstructionView::DefinitionType(DefinitionTypeView::If)
    } else if t == "else"@ {
        InstructionView::DefinitionType(DefinitionTypeView::Else)
    } else if t == "then"@ {
        InstructionView::DefinitionType(DefinitionTypeView::Then)
    } else {
        InstructionView::DefinitionType(DefinitionTypeView::Name(t))
    }
}

/// What the lexeme `t` adds in state `state`, and the next state. `:` always
/// opens a definition and `;` always closes one; the lexeme after `:` is the
/// new word's name taken as written.
pub open spec fn parse_step(words: Map<WordTypeView, nat>, state: ParserState, t: Seq<char>) -> (
    InstructionView,
    ParserState,
) {
    if t == ":"@ {
        (InstructionView::StartDefinition, ParserState::ParsingWordName)
    } else if t == ";"@ {
        (InstructionView::EndDefinition, ParserState::OutsideDefinition)
    } else {
        match state {
            ParserState::ParsingWordName => (
                InstructionView::DefinitionType(DefinitionTypeView::Name(t)),
                ParserState::InsideDefinition,
            ),
            _ => (classify(words, t), state),
        }
    }
}

/// The instructions for the lexemes `toks`, starting outside any
/// definition, and the state after the last one.
pub open spec fn parse_tokens_result(words: Map<WordTypeView, nat>, toks: Seq<Seq<char>>) -> (
    Seq<InstructionView>,
    ParserState,
)
    decreases toks.len(),
{
    if toks.len() == 0 {
        (Seq::empty(), ParserState::OutsideDefinition)
    } else {
        let (prev, state) = parse_tokens_result(words, toks.drop_last());
        let (ins, next) = parse_step(words, state, toks.last());
        (prev.push(ins), next)
    }
}

/// The stack size, in bytes, that a `stack-size=N` setting gives: `N` must be
/// a decimal number above zero that fits in `usize`.
pub open spec fn stack_size_of(input: Seq<char>) -> Option<usize> {
    let digits = input.subrange(11, input.len() as int);
    if input.len() > 11 && input.subrange(0, 11) == "stack-size="@ && all_digits(digits) && 0
        < digits_value(digits) <= usize::MAX {
        Some(digits_value(digits) as usize)
    } else {
        None
    }
}

proof fn lemma_word_end_of_plain(s: Seq<char>, k: int)
    requires
        0 <= k <= s.len(),
        forall|j: int| 0 <= j < s.len() ==> !is_special(#[trigger] s[j]),
    ensures
        word_end(s, k) == s.len(),
    decreases s.len() - k,
{
    if k < s.len() {
        lemma_word_end_of_plain(s, k + 1);
    }
}

/// The lowercase name of a stack word.
pub open spec fn stack_word_name(op: StackOperation) -> Seq<char> {
    match op {
        StackOperation::Dup => "dup"@,
        StackOperation::Drop => "drop"@,
        StackOperation::Swap => "swap"@,
        StackOperation::Over => "over"@,
        StackOperation::Rot => "rot"@,
    }
}

/// Every spelling of a stack word in upper or lower case parses to that
/// stack word, as long as no word of that name has been defined.
pub proof fn lemma_stack_word_in_any_case(
    words: Map<WordTypeView, nat>,
    line: Seq<char>,
    op: StackOperation,
)
    requires
        line.map_values(|c: char| crate::forth::lexicon::ascii_lower_char(c)) == stack_word_name(
            op,
        ),
        !is_user_word(words, stack_word_name(op)),
    ensures
        parse_tokens_result(words, tokens(line)).0 == seq![InstructionView::StackWord(op)],
{
    reveal_strlit("dup");
    reveal_strlit("drop");
    reveal_strlit("swap");
    reveal_strlit("over");
    reveal_strlit("rot");
    let name = stack_word_name(op);
    assert(line.len() == name.len());
    assert forall|j: int| 0 <= j < line.len() implies !is_special(#[trigger] line[j]) && (
    line[j] as u32) < 128 by {
        assert(crate::forth::lexicon::ascii_lower_char(line[j]) == name[j]);
        assert('a' <= name[j] <= 'z');
    }
    lemma_word_end_of_plain(line, 1);
    let low = lowercase_of(line);
    assert(crate::forth::lexicon::all_ascii(line));
    assert(low == name);
    let n = line.len() as int;
    assert(tokens_from(line, n) == Seq::<Seq<char>>::empty());
    assert(line.subrange(0, n) =~= line);
    assert(!opens_quote(line, 0));
    assert(tokens(line) =~= seq![low]);
    reveal_strlit(".");
    reveal_strlit("emit");
    reveal_strlit("cr");
    reveal_strlit("+");
    reveal_strlit("-");
    reveal_strlit("*");
    reveal_strlit("/");
    reveal_strlit("<");
    reveal_strlit(">");
    reveal_strlit("=");
    reveal_strlit("and");
    reveal_strlit("or");
    reveal_strlit("not");
    reveal_strlit(":");
    reveal_strlit(";");
    assert(integer_literal(low) is None) by {
        assert(!crate::forth::lexicon::is_digit(low[0]));
        assert(low[0] != '-');
    }
    assert(!is_dot_quote(low));
    assert(low != "."@ && low != "emit"@ && low != "cr"@) by {
        assert(low[0] != '.' && low[0] != 'e' && low[0] != 'c');
    }
    assert(low != "+"@ && low != "-"@ && low != "*"@ && low != "/"@ && low != "<"@ && low != ">"@
        && low != "="@ && low != ":"@ && low != ";"@) by {
        assert(low.len() >= 3);
    }
    assert(low != "and"@ && low != "or"@ && low != "not"@) by {
        assert(low[0] != 'a' && low[0] != 'n');
        assert(low.len() >= 3);
    }
    assert(classify(words, low) == InstructionView::StackWord(op));
    assert(seq![low].last() == low);
    assert(seq![low].drop_last() =~= Seq::<Seq<char>>::empty());
    assert(parse_tokens_result(words, Seq::<Seq<char>>::empty()) == (
        Seq::<InstructionView>::empty(),
        ParserState::OutsideDefinition,
    ));
    assert(parse_tokens_result(words, seq![low]).0 =~= seq![InstructionView::StackWord(op)]);
}

proof fn lemma_quote_end_after_text(s: Seq<char>, k: int, close: int)
    requires
        0 <= k <= close < s.len(),
        s[close] == '"',
        forall|j: int| k <= j < close ==> s[j] != '"',
    ensures
        quote_end(s, k) == close,
    decreases close - k,
{
    if k < close {
        lemma_quote_end_after_text(s, k + 1, close);
    }
}

/// A quoted print literal, `." ` followed by any text without `"` and a
/// closing `"`, parses to that text unchanged, and printing it writes the
/// text followed by one space.
pub proof fn lemma_quoted_text_is_kept(
    words: Map<WordTypeView, nat>,
    text: Seq<char>,
    m: crate::handler::instructions_handler::Machine,
)
    requires
        forall|j: int| 0 <= j < text.len() ==> text[j] != '"',
        m.output is Some,
    ensures
        parse_tokens_result(words, tokens(seq!['.', '"', ' '] + text + seq!['"'])).0 == seq![
            InstructionView::Output(OutputInstructionView::DotQuote(text)),
        ],
        crate::handler::instructions_handler::output_step(
            m,
            OutputInstructionView::DotQuote(text),
        ) == (crate::handler::instructions_handler::Machine {
            stack: m.stack,
            output: Some(m.output->Some_0 + vstd::utf8::encode_utf8(text) + seq![32u8]),
        }),
{
    let line = seq!['.', '"', ' '] + text + seq!['"'];
    let close = line.len() - 1;
    assert forall|j: int| 3 <= j < close implies line[j] != '"' by {
        assert(line[j] == text[j - 3]);
    }
    lemma_quote_end_after_text(line, 3, close);
    assert(opens_quote(line, 0));
    assert(line.subrange(0, close + 1) =~= line);
    assert(tokens_from(line, close + 1) == Seq::<Seq<char>>::empty());
    assert(tokens(line) =~= seq![line]);
    reveal_strlit(".");
    reveal_strlit("emit");
    reveal_strlit("cr");
    reveal_strlit(":");
    reveal_strlit(";");
    assert(line != "."@ && line != "emit"@ && line != "cr"@ && line != ":"@ && line != ";"@) by {
        assert(line[0] == '.');
        assert(line.len() >= 4);
    }
    assert(is_dot_quote(line));
    assert(line.subrange(3, line.len() - 1) =~= text);
    assert(classify(words, line) == InstructionView::Output(OutputInstructionView::DotQuote(text)));
    assert(seq![line].last() == line);
    assert(seq![line].drop_last() =~= Seq::<Seq<char>>::empty());
    assert(parse_tokens_result(words, Seq::<Seq<char>>::empty()) == (
        Seq::<InstructionView>::empty(),
        ParserState::OutsideDefinition,
    ));
    assert(parse_tokens_result(words, seq![line]).0 =~= seq![
        InstructionView::Output(OutputInstructionView::DotQuote(text)),
    ]);
}

/// Splits and classifies source text.
#[derive(Debug, PartialEq, Eq, Structural)]
pub struct Parser {}

impl Default for Parser {
    fn default() -> (r: Self)
        ensures
            r == (Parser {  }),
    {
        Parser::new()
    }
}

impl Parser {
    pub fn new() -> (r: Self)
        ensures
            r == (Parser {  }),
    {
        Parser {  }
    }

    /// The instructions of the line `input`, with names resolved against the
    /// words of `word_manager`.
    pub fn parse_instructions(&self, input: String, word_manager: &WordDefinitionManager) -> (r: Vec<
        Instruction,
    >)
        requires
            word_manager.wf(),
        ensures
            r@.map_values(|i: Instruction| i@) == parse_tokens_result(
                word_manager.view_words().words,
                tokens(input@),
            ).0,
    {
        let toks = self.tokenize(input.as_str());
        self.parse_tokens(&toks, word_manager)
    }

    /// Reads a `stack-size=N` setting; anything else is `InvalidStackSize`.
    pub fn parse_stack_size(&self, input: &str) -> (r: Result<usize, Error>)
        ensures
            r == match stack_size_of(input@) {
                Some(n) => Ok::<usize, Error>(n),
                None => Err(Error::InvalidStackSize),
            },
    {
        let n = input.unicode_len();
        if n <= 11 || !same_as(input.substring_char(0, 11), "stack-size=") {
            return Err(Error::InvalidStackSize);
        }
        let ghost digits = input@.subrange(11, n as int);
        let mut acc: usize = 0;
        let mut k: usize = 11;
        while k < n
            invariant
                11 <= k <= n,
                n == input@.len(),
                digits == input@.subrange(11, n as int),
                all_digits(digits.subrange(0, k - 11)),
                acc == digits_value(digits.subrange(0, k - 11)),
            decreases n - k,
        {
            let c = input.get_char(k);
            if !('0' <= c && c <= '9') {
                proof {
                    assert(!crate::forth::lexicon::is_digit(digits[k - 11]));
                }
                return Err(Error::InvalidStackSize);
            }
            let d = (c as u32 - 48) as usize;
            let ghost prev = digits.subrange(0, k - 11);
            if acc > (usize::MAX - d) / 10 {
                proof {
                    assert(digits.subrange(0, k + 1 - 11).drop_last() =~= prev);
                    assert(acc * 10 + d > usize::MAX) by (nonlinear_arith)
                        requires
                            acc > (usize::MAX - d) / 10,
                            d <= 9,
                    ;
                    if all_digits(digits) {
                        crate::forth::lexicon::lemma_digits_value_grows(digits, k + 1 - 11);
                    }
                }
                return Err(Error::InvalidStackSize);
            }
            proof {
                assert(acc * 10 + d <= usize::MAX) by (nonlinear_arith)
                    requires
                        acc <= (usize::MAX - d) / 10,
                        d <= 9,
                ;
            }
            acc = acc * 10 + d;
            k = k + 1;
            proof {
                assert(digits.subrange(0, k - 11).drop_last() =~= prev);
            }
        }
        proof {
            assert(digits.subrange(0, n - 11) =~= digits);
        }
        if acc == 0 {
            return Err(Error::InvalidStackSize);
        }
        Ok(acc)
    }

    /// The lexemes of `input`.
    fn tokenize(&self, input: &str) -> (r: Vec<String>)
        ensures
            r@.map_values(|t: String| t@) == tokens(input@),
    {
        let n = input.unicode_len();
        let ghost s = input@;
        let mut out: Vec<String> = Vec::new();
        let mut i: usize = 0;
        proof {
            assert(out@.map_values(|t: String| t@) =~= Seq::<Seq<char>>::empty());
            assert(Seq::<Seq<char>>::empty() + tokens_from(s, 0) =~= tokens_from(s, 0));
        }
        while i < n
            invariant
                i <= n,
                n == s.len(),
                s == input@,
                out@.map_values(|t: String| t@) + tokens_from(s, i as int) == tokens(s),
            decreases n - i,
        {
            let ghost before = out@.map_values(|t: String| t@);
            let c = input.get_char(i);
            if c == '.' && n - i >= 3 && input.get_char(i + 1) == '"' && input.get_char(i + 2) == ' ' {
                let j = find_quote(input, i + 3);
                if j < n {
                    let lexeme = input.substring_char(i, j + 1).to_owned();
                    out.push(lexeme);
                    proof {
                        let x = s.subrange(i as int, j + 1);
                        assert(tokens_from(s, i as int) == seq![x] + tokens_from(s, j + 1));
                        assert(out@.map_values(|t: String| t@) =~= before.push(x));
                        assert(before.push(x) + tokens_from(s, j + 1) =~= before + (seq![x] + tokens_from(s, j + 1)));
                    }
                    i = j + 1;
                    continue;
                }
            }
            if c == ':' || c == ';' {
                let lexeme = input.substring_char(i, i + 1).to_owned();
                out.push(lexeme);
                proof {
                    let x = s.subrange(i as int, i + 1);
                    assert(tokens_from(s, i as int) == seq![x] + tokens_from(s, i + 1));
                    assert(out@.map_values(|t: String| t@) =~= before.push(x));
                    assert(before.push(x) + tokens_from(s, i + 1) =~= before + (seq![x] + tokens_from(s, i + 1)));
                }
                i = i + 1;
            } else if c == ' ' || c == '\t' || c == '\n' || c == '\x0C' || c == '\r' {
                i = i + 1;
            } else {
                let j = find_word_end(input, i + 1);
                let lexeme = to_lowercase(input.substring_char(i, j));
                out.push(lexeme);
                proof {
                    let x = lowercase_of(s.subrange(i as int, j as int));
                    assert(tokens_from(s, i as int) == seq![x] + tokens_from(s, j as int));
                    assert(out@.map_values(|t: String| t@) =~= before.push(x));
                    assert(before.push(x) + tokens_from(s, j as int) =~= before + (seq![x] + tokens_from(s, j as int)));
                }
                i = j;
            }
        }
        proof {
            assert(out@.map_values(|t: String| t@) + tokens_from(s, i as int) =~= out@.map_values(|t: String| t@));
        }
        out
    }

    /// The instructions for lexemes already split and normalised.
    pub fn parse_tokens(&self, toks: &Vec<String>, word_manager: &WordDefinitionManager) -> (r: Vec<
        Instruction,
    >)
        requires
            word_manager.wf(),
        ensures
            r@.map_values(|i: Instruction| i@) == parse_tokens_result(
                word_manager.view_words().words,
                toks@.map_values(|t: String| t@),
            ).0,
    {
        let ghost words = word_manager.view_words().words;
        let ghost tv = toks@.map_values(|t: String| t@);
        let mut instructions: Vec<Instruction> = Vec::new();
        let mut state = ParserState::OutsideDefinition;
        let mut k: usize = 0;
        proof {
            assert(tv.subrange(0, 0) =~= Seq::<Seq<char>>::empty());
            assert(instructions@.map_values(|i: Instruction| i@) =~= Seq::<InstructionView>::empty());
        }
        while k < toks.len()
            invariant
                word_manager.wf(),
                words == word_manager.view_words().words,
                tv == toks@.map_values(|t: String| t@),
                k <= toks@.len(),
                parse_tokens_result(words, tv.subrange(0, k as int)) == (
                    instructions@.map_values(|i: Instruction| i@),
                    state,
                ),
            decreases toks@.len() - k,
        {
            let token = &toks[k];
            let ghost before = instructions@;
            proof {
                assert(tv.subrange(0, k + 1).drop_last() =~= tv.subrange(0, k as int));
                assert(tv.subrange(0, k + 1).last() == token@);
            }
            let (instruction, next) = self.parse_token(token, state, word_manager);
            instructions.push(instruction);
            state = next;
            proof {
                assert(instructions@.map_values(|i: Instruction| i@) =~= before.map_values(
                    |i: Instruction| i@,
                ).push(instructions@.last()@));
            }
            k = k + 1;
        }
        proof {
            assert(tv.subrange(0, toks@.len() as int) =~= tv);
        }
        instructions
    }

    /// The instruction for `token` in `state`, and the next state.
    fn parse_token(&self, token: &String, state: ParserState, word_manager: &WordDefinitionManager) -> (r: (
        Instruction,
        ParserState,
    ))
        requires
            word_manager.wf(),
        ensures
            (r.0@, r.1) == parse_step(word_manager.view_words().words, state, token@),
    {
        let t = token.as_str();
        if same_as(t, ":") {
            (Instruction::StartDefinition, ParserState::ParsingWordName)
        } else if same_as(t, ";") {
            (Instruction::EndDefinition, ParserState::OutsideDefinition)
        } else {
            match state {
                ParserState::ParsingWordName => (
                    Instruction::DefinitionType(DefinitionType::Name(token.clone())),
                    ParserState::InsideDefinition,
                ),
                _ => (self.process_token(t, word_manager), state),
            }
        }
    }

    /// The instruction that `token` stands for.
    fn process_token(&self, token: &str, word_manager: &WordDefinitionManager) -> (r: Instruction)
        requires
            word_manager.wf(),
        ensures
            r@ == classify(word_manager.view_words().words, token@),
    {
        let defined = word_manager.is_word_defined(&WordType::UserDefined(token.to_owned()));
        if same_as(token, ".") {
            return Instruction::Output(OutputInstruction::Dot);
        } else if same_as(token, "emit") {
            return Instruction::Output(OutputInstruction::Emit);
        } else if same_as(token, "cr") {
            return Instruction::Output(OutputInstruction::CR);
        }
        let n = token.unicode_len();
        if n >= 4 && token.get_char(0) == '.' && token.get_char(1) == '"' && token.get_char(2) == ' '
            && token.get_char(n - 1) == '"' {
            let text = token.substring_char(3, n - 1).to_owned();
            return Instruction::Output(OutputInstruction::DotQuote(text));
        }
        if let Some(v) = parse_integer(token) {
            return Instruction::Number(v);
        }
        if same_as(token, "+") || same_as(token, "-") || same_as(token, "*") || same_as(token, "/") {
            if defined {
                return Instruction::DefinitionType(DefinitionType::Name(token.to_owned()));
            }
            return Instruction::Operator(token.to_owned());
        }
        if same_as(token, "<") {
            Instruction::LogicalOperation(LogicalOperation::LessThan)
        } else if same_as(token, ">") {
            Instruction::LogicalOperation(LogicalOperation::GreaterThan)
        } else if same_as(token, "=") {
            Instruction::LogicalOperation(LogicalOperation::Equal)
        } else if same_as(token, "and") {
            Instruction::BooleanOperation(BooleanOperation::And)
        } else if same_as(token, "or") {
            Instruction::BooleanOperation(BooleanOperation::Or)
        } else if same_as(token, "not") {
            Instruction::BooleanOperation(BooleanOperation::Not)
        } else if defined {
            Instruction::DefinitionType(DefinitionType::Name(token.to_owned()))
        } else if same_as(token, "dup") {
            Instruction::StackWord(StackOperation::Dup)
        } else if same_as(token, "drop") {
            Instruction::StackWord(StackOperation::Drop)
        } else if same_as(token, "swap") {
            Instruction::StackWord(StackOperation::Swap)
        } else if same_as(token, "over") {
            Instruction::StackWord(StackOperation::Over)
        } else if same_as(token, "rot") {
            Instruction::StackWord(StackOperation::Rot)
        } else if same_as(token, "if") {
            Instruction::DefinitionType(DefinitionType::If)
        } else if same_as(token, "else") {
            Instruction::DefinitionType(DefinitionType::Else)
        } else if same_as(token, "then") {
            Instruction::DefinitionType(DefinitionType::Then)
        } else {
            Instruction::DefinitionType(DefinitionType::Name(token.to_owned()))
        }
    }
}

/// The first position at or after `k` that holds `"`, or the length of `s`.
fn find_quote(s: &str, k: usize) -> (r: usize)
    requires
        k <= s@.len(),
    ensures
        r == quote_end(s@, k as int),
        k <= r <= s@.len(),
{
    let n = s.unicode_len();
    let mut j = k;
    while j < n
        invariant
            k <= j <= n,
            n == s@.len(),
            quote_end(s@, k as int) == quote_end(s@, j as int),
        decreases n - j,
    {
        if s.get_char(j) == '"' {
            return j;
        }
        j = j + 1;
    }
    j
}

/// The first position at or after `k` that holds a special character, or the
/// length of `s`.
fn find_word_end(s: &str, k: usize) -> (r: usize)
    requires
        k <= s@.len(),
    ensures
        r == word_end(s@, k as int),
        k <= r <= s@.len(),
{
    let n = s.unicode_len();
    let mut j = k;
    while j < n
        invariant
            k <= j <= n,
            n == s@.len(),
            word_end(s@, k as int) == word_end(s@, j as int),
        decreases n - j,
    {
        let c = s.get_char(j);
        if c == ' ' || c == '\t' || c == '\n' || c == '\x0C' || c == '\r' || c == ':' || c == ';' {
            return j;
        }
        j = j + 1;
    }
    j
}

/// Whether `a` holds exactly the characters of `b`.
fn same_as(a: &str, b: &str) -> (r: bool)
    ensures
        r == (a@ == b@),
{
    let n = a.unicode_len();
    if n != b.unicode_len() {
        return false;
    }
    let mut k: usize = 0;
    while k < n
        invariant
            k <= n,
            n == a@.len(),
            n == b@.len(),
            forall|j: int| 0 <= j < k ==> a@[j] == b@[j],
        decreases n - k,
    {
        if a.get_char(k) != b.get_char(k) {
            return false;
        }
        k = k + 1;
    }
    proof {
        assert(a@ =~= b@);
    }
    true
}

} // verus!
