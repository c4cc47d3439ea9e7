use vstd::prelude::*;

use crate::errors::Error;
use crate::forth::definition_type::{DefinitionType, DefinitionTypeView};
use crate::forth::forth_errors::ForthError;
use crate::forth::intruction::{Instruction, InstructionView};
use crate::forth::lexicon::{
    integer_literal, is_name_char, is_punctuation, is_word_char_alphanumeric, parse_integer,
};
use crate::forth::output_instructions::OutputInstruction;
use crate::forth::word_data::{WordData, WordDataView};
use crate::handler::instructions_handler::{reports, with_stack, word_step, ExecutionHandler, Machine};

verus! {

/// The name of a word: one of the language's own, or one a program defined.
#[derive(Debug, PartialEq, Eq)]
pub enum WordType {
    Predefined(&'static str),
    UserDefined(String),
}

/// What a `WordType` denotes, with the name as its characters.
pub enum WordTypeView {
    Predefined(Seq<char>),
    UserDefined(Seq<char>),
}

impl View for WordType {
    type V = WordTypeView;

    open spec fn view(&self) -> WordTypeView {
        match self {
            WordType::Predefined(s) => WordTypeView::Predefined(s@),
            WordType::UserDefined(s) => WordTypeView::UserDefined(s@),
        }
    }
}

/// The dictionary: the body index that each name is bound to, and every
/// body compiled so far, in the order of definition.
pub struct WordsView {
    pub words: Map<WordTypeView, nat>,
    pub bodies: Seq<Seq<WordDataView>>,
}

/// The views of the elements of a body.
pub open spec fn body_view(b: Seq<WordData>) -> Seq<WordDataView> {
    b.map_values(|w: WordData| w@)
}

/// An element of the body stored at position `d`: no name is left to
/// resolve, and references point to bodies stored before it.
pub open spec fn element_wf(w: WordDataView, d: nat) -> bool {
    match w {
        WordDataView::DefinitionIndex(j) => j < d,
        WordDataView::DefinitionType(DefinitionTypeView::Name(_)) => false,
        _ => true,
    }
}

pub open spec fn body_wf(body: Seq<WordDataView>, d: nat) -> bool {
    forall|k: int| 0 <= k < body.len() ==> element_wf(#[trigger] body[k], d)
}

/// Every name is bound to a stored body, and every body is well formed.
pub open spec fn words_wf(v: WordsView) -> bool {
    &&& forall|k: WordTypeView| #[trigger] v.words.contains_key(k) ==> v.words[k] < v.bodies.len()
    &&& forall|d: int| 0 <= d < v.bodies.len() ==> body_wf(#[trigger] v.bodies[d], d as nat)
}

/// Whether `name` may be defined: a program's name must not read as a number
/// and must consist of letters, digits and ASCII punctuation.
pub open spec fn valid_name(name: WordTypeView) -> bool {
    match name {
        WordTypeView::Predefined(_) => true,
        WordTypeView::UserDefined(n) => integer_literal(n) is None && forall|k: int|
            0 <= k < n.len() ==> (is_word_char_alphanumeric(#[trigger] n[k]) || is_punctuation(
                n[k],
            )),
    }
}

pub open spec fn invalid_word() -> Error {
    Error::ForthError(ForthError::InvalidWord)
}

pub open spec fn unknown_word() -> Error {
    Error::ForthError(ForthError::UnknownWord)
}

/// What one parsed instruction compiles to. A name turns into a reference to
/// the body it is bound to now, or into nothing when it is unbound.
pub open spec fn compile_one(words: Map<WordTypeView, nat>, i: InstructionView) -> Result<
    Seq<WordDataView>,
    Error,
> {
    match i {
        InstructionView::Number(n) => Ok(seq![WordDataView::Number(n)]),
        InstructionView::Operator(s) => Ok(seq![WordDataView::Operator(s)]),
        InstructionView::StackWord(op) => Ok(seq![WordDataView::StackWord(op)]),
        InstructionView::BooleanOperation(op) => Ok(seq![WordDataView::BooleanOperation(op)]),
        InstructionView::LogicalOperation(op) => Ok(seq![WordDataView::LogicalOperation(op)]),
        InstructionView::Output(o) => Ok(seq![WordDataView::Output(o)]),
        InstructionView::DefinitionType(DefinitionTypeView::Name(n)) => {
            if words.contains_key(WordTypeView::UserDefined(n)) {
                Ok(seq![WordDataView::DefinitionIndex(words[WordTypeView::UserDefined(n)])])
            } else {
                Ok(Seq::empty())
            }
        },
        InstructionView::DefinitionType(d) => Ok(seq![WordDataView::DefinitionType(d)]),
        _ => Err(invalid_word()),
    }
}

/// The compiled form of `body`, or `InvalidWord` when it holds a definition
/// delimiter.
pub open spec fn compile(words: Map<WordTypeView, nat>, body: Seq<InstructionView>) -> Result<
    Seq<WordDataView>,
    Error,
>
    decreases body.len(),
{
    if body.len() == 0 {
        Ok(Seq::empty())
    } else {
        match compile(words, body.drop_last()) {
            Err(e) => Err(e),
            Ok(c) => match compile_one(words, body.last()) {
                Err(e) => Err(e),
                Ok(x) => Ok(c + x),
            },
        }
    }
}

/// The position of the first `EndDefinition` of `body` at or after `k`.
pub open spec fn end_from(body: Seq<InstructionView>, k: int) -> Option<nat>
    decreases body.len() - k,
{
    if k < 0 || k >= body.len() {
        None
    } else if body[k] == InstructionView::EndDefinition {
        Some(k as nat)
    } else {
        end_from(body, k + 1)
    }
}

/// The position of the first `EndDefinition` of `body`.
pub open spec fn first_end(body: Seq<InstructionView>) -> Option<nat> {
    end_from(body, 0)
}

proof fn lemma_end_from_bounds(body: Seq<InstructionView>, k: int)
    ensures
        end_from(body, k) matches Some(e) ==> k <= e < body.len() && body[e as int]
            == InstructionView::EndDefinition,
    decreases body.len() - k,
{
    if 0 <= k < body.len() && body[k] != InstructionView::EndDefinition {
        lemma_end_from_bounds(body, k + 1);
    }
}

proof fn lemma_end_from_prefix(body: Seq<InstructionView>, k: int, e: nat)
    requires
        0 <= k,
        end_from(body, k) == Some(e),
    ensures
        end_from(body.subrange(0, e as int + 1), k) == Some(e),
    decreases body.len() - k,
{
    lemma_end_from_bounds(body, k);
    if body[k] != InstructionView::EndDefinition {
        lemma_end_from_prefix(body, k + 1, e);
    }
}

/// Cutting a body right after its first `EndDefinition` keeps that position.
pub proof fn lemma_first_end_prefix(body: Seq<InstructionView>, e: nat)
    requires
        first_end(body) == Some(e),
    ensures
        e < body.len(),
        first_end(body.subrange(0, e as int + 1)) == Some(e),
        body.subrange(0, e as int + 1).subrange(0, e as int) == body.subrange(0, e as int),
{
    lemma_end_from_bounds(body, 0);
    lemma_end_from_prefix(body, 0, e);
    assert(body.subrange(0, e as int + 1).subrange(0, e as int) =~= body.subrange(0, e as int));
}

/// The dictionary after defining `name` as the instructions of `body` up to
/// its first `EndDefinition`: the compiled body is stored after all others
/// and `name` is bound to it.
#[verifier::opaque]
pub open spec fn define_result(v: WordsView, name: WordTypeView, body: Seq<InstructionView>) -> Result<
    WordsView,
    Error,
> {
    if !valid_name(name) {
        Err(invalid_word())
    } else {
        match first_end(body) {
            None => Err(invalid_word()),
            Some(e) => match compile(v.words, body.subrange(0, e as int)) {
                Err(err) => Err(err),
                Ok(c) => Ok(
                    WordsView { words: v.words.insert(name, v.bodies.len()), bodies: v.bodies.push(c) },
                ),
            },
        }
    }
}

/// The position of the `Then` that closes a conditional whose branch starts
/// at `k`, searching up to `end`; `depth` counts the conditionals opened on the way.
pub open spec fn scan_then(body: Seq<WordDataView>, k: int, end: int, depth: nat) -> Option<int>
    decreases end - k,
{
    if k >= end || k < 0 || k >= body.len() {
        None
    } else {
        match body[k] {
            WordDataView::DefinitionType(DefinitionTypeView::If) => scan_then(
                body,
                k + 1,
                end,
                depth + 1,
            ),
            WordDataView::DefinitionType(DefinitionTypeView::Then) => if depth == 0 {
                Some(k)
            } else {
                scan_then(body, k + 1, end, (depth - 1) as nat)
            },
            _ => scan_then(body, k + 1, end, depth),
        }
    }
}

/// The position of the `Else` of a conditional whose branch starts at `k`,
/// if it has one before its closing `Then`.
pub open spec fn scan_else(body: Seq<WordDataView>, k: int, end: int, depth: nat) -> Option<int>
    decreases end - k,
{
    if k >= end || k < 0 || k >= body.len() {
        None
    } else {
        match body[k] {
            WordDataView::DefinitionType(DefinitionTypeView::If) => scan_else(
                body,
                k + 1,
                end,
                depth + 1,
            ),
            WordDataView::DefinitionType(DefinitionTypeView::Then) => if depth == 0 {
                None
            } else {
                scan_else(body, k + 1, end, (depth - 1) as nat)
            },
            WordDataView::DefinitionType(DefinitionTypeView::Else) => if depth == 0 {
                Some(k)
            } else {
                scan_else(body, k + 1, end, depth)
            },
            _ => scan_else(body, k + 1, end, depth),
        }
    }
}

/// Runs the elements `i..end` of body `d` on `m`, stopping at the first
/// error. A reference runs the body it points to. `If` pops a value and
/// runs the elements up to its `Else` (or `Then`) when the value is not zero,
/// those between its `Else` and `Then` otherwise, and goes on after its
/// `Then`; without a matching `Then` it fails with `InvalidWord`. Other
/// markers do nothing; the remaining opcodes go to the handler.
pub open spec fn run_range(
    bodies: Seq<Seq<WordDataView>>,
    cap: nat,
    d: nat,
    i: int,
    end: int,
    m: Machine,
) -> (Machine, Option<Error>)
    decreases d, end - i,
{
    if i >= end || i < 0 || d >= bodies.len() || end > bodies[d as int].len() {
        (m, None)
    } else {
        let body = bodies[d as int];
        match body[i] {
            WordDataView::DefinitionIndex(j) => if j < d {
                let (m1, e) = run_range(bodies, cap, j, 0, bodies[j as int].len() as int, m);
                if e is Some {
                    (m1, e)
                } else {
                    run_range(bodies, cap, d, i + 1, end, m1)
                }
            } else {
                run_range(bodies, cap, d, i + 1, end, m)
            },
            WordDataView::DefinitionType(DefinitionTypeView::If) => {
                if m.stack.len() == 0 {
                    (m, Some(crate::stack::underflow()))
                } else {
                    let v = m.stack.last();
                    let m0 = with_stack(m, m.stack.drop_last());
                    match scan_then(body, i + 1, end, 0) {
                        None => (m0, Some(invalid_word())),
                        Some(t) => if t <= i || t >= end {
                            (m0, Some(invalid_word()))
                        } else {
                            let el = match scan_else(body, i + 1, end, 0) {
                                Some(x) => if i < x < t {
                                    Some(x)
                                } else {
                                    None
                                },
                                None => None,
                            };
                            let (m1, e) = if v != 0 {
                                run_range(
                                    bodies,
                                    cap,
                                    d,
                                    i + 1,
                                    match el {
                                        Some(x) => x,
                                        None => t,
                                    },
                                    m0,
                                )
                            } else {
                                match el {
                                    Some(x) => run_range(bodies, cap, d, x + 1, t, m0),
                                    None => (m0, None),
                                }
                            };
                            if e is Some {
                                (m1, e)
                            } else {
                                run_range(bodies, cap, d, t + 1, end, m1)
                            }
                        },
                    }
                }
            },
            WordDataView::DefinitionType(_) => run_range(bodies, cap, d, i + 1, end, m),
            w => {
                let (m1, e) = word_step(m, cap, w);
                if e is Some {
                    (m1, e)
                } else {
                    run_range(bodies, cap, d, i + 1, end, m1)
                }
            },
        }
    }
}

/// Runs the word that `name` is bound to; an unbound name fails with
/// `UnknownWord` and changes nothing.
#[verifier::opaque]
pub open spec fn run_word_result(v: WordsView, cap: nat, name: Seq<char>, m: Machine) -> (
    Machine,
    Option<Error>,
) {
    let key = WordTypeView::UserDefined(name);
    if v.words.contains_key(key) {
        let d = v.words[key];
        run_range(v.bodies, cap, d, 0, v.bodies[d as int].len() as int, m)
    } else {
        (m, Some(unknown_word()))
    }
}

/// The bindings recorded in `entries`, a later entry for a name replacing
/// the earlier ones.
pub open spec fn bindings(entries: Seq<(WordTypeView, nat)>) -> Map<WordTypeView, nat>
    decreases entries.len(),
{
    if entries.len() == 0 {
        Map::empty()
    } else {
        bindings(entries.drop_last()).insert(entries.last().0, entries.last().1)
    }
}

proof fn lemma_bindings_latest(entries: Seq<(WordTypeView, nat)>, k: WordTypeView, i: int)
    requires
        0 <= i < entries.len(),
        entries[i].0 == k,
        forall|j: int| i < j < entries.len() ==> entries[j].0 != k,
    ensures
        bindings(entries).contains_key(k),
        bindings(entries)[k] == entries[i].1,
    decreases entries.len(),
{
    if i < entries.len() - 1 {
        lemma_bindings_latest(entries.drop_last(), k, i);
    }
}

proof fn lemma_bindings_absent(entries: Seq<(WordTypeView, nat)>, k: WordTypeView)
    requires
        forall|j: int| 0 <= j < entries.len() ==> entries[j].0 != k,
    ensures
        !bindings(entries).contains_key(k),
    decreases entries.len(),
{
    if entries.len() > 0 {
        lemma_bindings_absent(entries.drop_last(), k);
    }
}

proof fn lemma_compile_prefix_err(words: Map<WordTypeView, nat>, body: Seq<InstructionView>, k: int)
    requires
        0 <= k <= body.len(),
        compile(words, body.subrange(0, k)) is Err,
    ensures
        compile(words, body) == Err::<Seq<WordDataView>, Error>(invalid_word()),
    decreases body.len() - k,
{
    lemma_compile_err_is_invalid(words, body.subrange(0, k));
    if k < body.len() {
        assert(body.subrange(0, k + 1).drop_last() =~= body.subrange(0, k));
        lemma_compile_prefix_err(words, body, k + 1);
    } else {
        assert(body.subrange(0, k) =~= body);
    }
}

proof fn lemma_compile_err_is_invalid(words: Map<WordTypeView, nat>, body: Seq<InstructionView>)
    ensures
        compile(words, body) is Err ==> compile(words, body) == Err::<Seq<WordDataView>, Error>(
            invalid_word(),
        ),
    decreases body.len(),
{
    if body.len() > 0 {
        lemma_compile_err_is_invalid(words, body.drop_last());
    }
}

proof fn lemma_scan_then_bounds(body: Seq<WordDataView>, k: int, end: int, depth: nat)
    ensures
        scan_then(body, k, end, depth) matches Some(t) ==> k <= t < end && t < body.len(),
    decreases end - k,
{
    if !(k >= end || k < 0 || k >= body.len()) {
        lemma_scan_then_bounds(body, k + 1, end, depth + 1);
        lemma_scan_then_bounds(body, k + 1, end, depth);
        if depth > 0 {
            lemma_scan_then_bounds(body, k + 1, end, (depth - 1) as nat);
        }
    }
}

proof fn lemma_scan_else_bounds(body: Seq<WordDataView>, k: int, end: int, depth: nat)
    ensures
        scan_else(body, k, end, depth) matches Some(t) ==> k <= t < end && t < body.len(),
    decreases end - k,
{
    if !(k >= end || k < 0 || k >= body.len()) {
        lemma_scan_else_bounds(body, k + 1, end, depth + 1);
        lemma_scan_else_bounds(body, k + 1, end, depth);
        if depth > 0 {
            lemma_scan_else_bounds(body, k + 1, end, (depth - 1) as nat);
        }
    }
}

/// Whether `w` is one of the conditional markers.
pub open spec fn is_marker(w: WordDataView) -> bool {
    w == WordDataView::DefinitionType(DefinitionTypeView::If) || w == WordDataView::DefinitionType(
        DefinitionTypeView::Else,
    ) || w == WordDataView::DefinitionType(DefinitionTypeView::Then)
}

proof fn lemma_scan_skips_plain(body: Seq<WordDataView>, k: int, stop: int, end: int, depth: nat)
    requires
        0 <= k <= stop < end <= body.len(),
        forall|j: int| k <= j < stop ==> !is_marker(#[trigger] body[j]),
    ensures
        scan_then(body, k, end, depth) == scan_then(body, stop, end, depth),
        scan_else(body, k, end, depth) == scan_else(body, stop, end, depth),
    decreases stop - k,
{
    if k < stop {
        assert(!is_marker(body[k]));
        lemma_scan_skips_plain(body, k + 1, stop, end, depth);
    }
}

/// A conditional `If a Else b Then`, whose branches hold no markers, runs
/// `a` on the remaining stack when the popped value is not zero, and `b`
/// when it is zero.
pub proof fn lemma_if_else_by_truth(
    bodies: Seq<Seq<WordDataView>>,
    cap: nat,
    d: nat,
    a_len: int,
    b_len: int,
    m: Machine,
)
    requires
        a_len >= 0,
        b_len >= 0,
        d < bodies.len(),
        bodies[d as int].len() == a_len + b_len + 3,
        bodies[d as int][0] == WordDataView::DefinitionType(DefinitionTypeView::If),
        bodies[d as int][a_len + 1] == WordDataView::DefinitionType(DefinitionTypeView::Else),
        bodies[d as int][a_len + b_len + 2] == WordDataView::DefinitionType(DefinitionTypeView::Then),
        forall|j: int|
            1 <= j <= a_len || a_len + 2 <= j < a_len + b_len + 2 ==> !is_marker(
                #[trigger] bodies[d as int][j],
            ),
        m.stack.len() > 0,
    ensures
        m.stack.last() != 0 ==> run_range(bodies, cap, d, 0, a_len + b_len + 3, m) == run_range(
            bodies,
            cap,
            d,
            1,
            a_len + 1,
            with_stack(m, m.stack.drop_last()),
        ),
        m.stack.last() == 0 ==> run_range(bodies, cap, d, 0, a_len + b_len + 3, m) == run_range(
            bodies,
            cap,
            d,
            a_len + 2,
            a_len + b_len + 2,
            with_stack(m, m.stack.drop_last()),
        ),
{
    let body = bodies[d as int];
    let end = a_len + b_len + 3;
    lemma_scan_skips_plain(body, 1, a_len + 1, end, 0);
    assert(scan_else(body, a_len + 1, end, 0) == Some(a_len + 1));
    lemma_scan_skips_plain(body, a_len + 2, a_len + b_len + 2, end, 0);
    assert(scan_then(body, a_len + b_len + 2, end, 0) == Some(a_len + b_len + 2));
    assert(scan_then(body, a_len + 1, end, 0) == scan_then(body, a_len + 2, end, 0));
    assert(scan_then(body, 1, end, 0) == Some(a_len + b_len + 2));
    let m0 = with_stack(m, m.stack.drop_last());
    let r1 = run_range(bodies, cap, d, 1, a_len + 1, m0);
    let r2 = run_range(bodies, cap, d, a_len + 2, a_len + b_len + 2, m0);
    assert(run_range(bodies, cap, d, end, end, r1.0) == (r1.0, None::<Error>));
    assert(run_range(bodies, cap, d, end, end, r2.0) == (r2.0, None::<Error>));
}

/// A conditional `If a Then`, whose branch holds no markers, runs `a` on the
/// remaining stack when the popped value is not zero and skips it when the
/// value is zero.
pub proof fn lemma_if_by_truth(bodies: Seq<Seq<WordDataView>>, cap: nat, d: nat, a_len: int, m: Machine)
    requires
        a_len >= 0,
        d < bodies.len(),
        bodies[d as int].len() == a_len + 2,
        bodies[d as int][0] == WordDataView::DefinitionType(DefinitionTypeView::If),
        bodies[d as int][a_len + 1] == WordDataView::DefinitionType(DefinitionTypeView::Then),
        forall|j: int| 1 <= j <= a_len ==> !is_marker(#[trigger] bodies[d as int][j]),
        m.stack.len() > 0,
    ensures
        m.stack.last() != 0 ==> run_range(bodies, cap, d, 0, a_len + 2, m) == run_range(
            bodies,
            cap,
            d,
            1,
            a_len + 1,
            with_stack(m, m.stack.drop_last()),
        ),
        m.stack.last() == 0 ==> run_range(bodies, cap, d, 0, a_len + 2, m) == (
            with_stack(m, m.stack.drop_last()),
            None::<Error>,
        ),
{
    let body = bodies[d as int];
    let end = a_len + 2;
    lemma_scan_skips_plain(body, 1, a_len + 1, end, 0);
    assert(scan_then(body, 1, end, 0) == Some(a_len + 1));
    assert(scan_else(body, 1, end, 0) is None);
    let m0 = with_stack(m, m.stack.drop_last());
    let r1 = run_range(bodies, cap, d, 1, a_len + 1, m0);
    assert(run_range(bodies, cap, d, end, end, r1.0) == (r1.0, None::<Error>));
    assert(run_range(bodies, cap, d, end, end, m0) == (m0, None::<Error>));
}

proof fn lemma_first_end_of_pair(i: InstructionView)
    requires
        i != InstructionView::EndDefinition,
    ensures
        first_end(seq![i, InstructionView::EndDefinition]) == Some(1nat),
{
    let body = seq![i, InstructionView::EndDefinition];
    assert(end_from(body, 1) == Some(1nat));
}

proof fn lemma_compile_single(words: Map<WordTypeView, nat>, i: InstructionView)
    ensures
        compile(words, seq![i]) == match compile_one(words, i) {
            Ok(x) => Ok(x),
            Err(e) => Err::<Seq<WordDataView>, Error>(e),
        },
{
    let body = seq![i];
    assert(body.drop_last() =~= Seq::<InstructionView>::empty());
    assert(body.last() == i);
    assert(compile(words, Seq::<InstructionView>::empty()) == Ok::<Seq<WordDataView>, Error>(
        Seq::empty(),
    ));
    if let Ok(x) = compile_one(words, i) {
        assert(Seq::<WordDataView>::empty() + x =~= x);
    }
}

proof fn lemma_plain_name_is_valid(n: Seq<char>)
    requires
        n.len() > 0,
        forall|k: int| 0 <= k < n.len() ==> 'a' <= #[trigger] n[k] <= 'z',
    ensures
        valid_name(WordTypeView::UserDefined(n)),
{
    assert(!crate::forth::lexicon::all_digits(n)) by {
        assert(!crate::forth::lexicon::is_digit(n[0]));
    }
    assert(n[0] != '-');
    assert forall|k: int| 0 <= k < n.len() implies (is_word_char_alphanumeric(#[trigger] n[k])
        || is_punctuation(n[k])) by {
        assert('a' <= n[k] <= 'z');
    }
}

/// Redefining a word leaves the words compiled before it alone: after `foo`
/// is defined to push 5, `bar` to call `foo`, and `foo` again to push 6,
/// running `bar` and then `foo` pushes 5 and then 6.
pub proof fn lemma_redefinition_is_not_transitive(v: WordsView, cap: nat, m: Machine)
    requires
        words_wf(v),
        m.stack.len() + 2 <= cap,
    ensures
        ({
            let foo = seq!['f', 'o', 'o'];
            let bar = seq!['b', 'a', 'r'];
            let end = InstructionView::EndDefinition;
            let call_foo = InstructionView::DefinitionType(DefinitionTypeView::Name(foo));
            let d1 = define_result(v, WordTypeView::UserDefined(foo), seq![InstructionView::Number(5), end]);
            let d2 = define_result(d1->Ok_0, WordTypeView::UserDefined(bar), seq![call_foo, end]);
            let d3 = define_result(d2->Ok_0, WordTypeView::UserDefined(foo), seq![InstructionView::Number(6), end]);
            let after_bar = run_word_result(d3->Ok_0, cap, bar, m);
            let after_foo = run_word_result(d3->Ok_0, cap, foo, after_bar.0);
            &&& d1 is Ok
            &&& d2 is Ok
            &&& d3 is Ok
            &&& after_bar.1 is None
            &&& after_foo.1 is None
            &&& after_foo.0.stack == m.stack.push(5).push(6)
            &&& after_foo.0.output == m.output
        }),
{
    reveal(define_result);
    reveal(run_word_result);
    let foo = seq!['f', 'o', 'o'];
    let bar = seq!['b', 'a', 'r'];
    let end = InstructionView::EndDefinition;
    let call_foo = InstructionView::DefinitionType(DefinitionTypeView::Name(foo));
    let kfoo = WordTypeView::UserDefined(foo);
    let kbar = WordTypeView::UserDefined(bar);
    assert(foo != bar) by {
        assert(foo[0] != bar[0]);
    }
    lemma_plain_name_is_valid(foo);
    lemma_plain_name_is_valid(bar);
    let n = v.bodies.len();
    let b1 = seq![InstructionView::Number(5), end];
    lemma_first_end_of_pair(InstructionView::Number(5));
    assert(b1.subrange(0, 1) =~= seq![InstructionView::Number(5)]);
    assert(seq![InstructionView::Number(5)].drop_last() =~= Seq::<InstructionView>::empty());
    let c1 = seq![WordDataView::Number(5)];
    lemma_compile_single(v.words, InstructionView::Number(5));
    let v1 = WordsView { words: v.words.insert(kfoo, n), bodies: v.bodies.push(c1) };
    assert(define_result(v, kfoo, b1) == Ok::<WordsView, Error>(v1));
    let b2 = seq![call_foo, end];
    lemma_first_end_of_pair(call_foo);
    assert(b2.subrange(0, 1) =~= seq![call_foo]);
    assert(seq![call_foo].drop_last() =~= Seq::<InstructionView>::empty());
    let c2 = seq![WordDataView::DefinitionIndex(n)];
    assert(v1.words.contains_key(kfoo) && v1.words[kfoo] == n);
    lemma_compile_single(v1.words, call_foo);
    let v2 = WordsView { words: v1.words.insert(kbar, n + 1), bodies: v1.bodies.push(c2) };
    assert(define_result(v1, kbar, b2) == Ok::<WordsView, Error>(v2));
    let b3 = seq![InstructionView::Number(6), end];
    lemma_first_end_of_pair(InstructionView::Number(6));
    assert(b3.subrange(0, 1) =~= seq![InstructionView::Number(6)]);
    assert(seq![InstructionView::Number(6)].drop_last() =~= Seq::<InstructionView>::empty());
    let c3 = seq![WordDataView::Number(6)];
    lemma_compile_single(v2.words, InstructionView::Number(6));
    let v3 = WordsView { words: v2.words.insert(kfoo, n + 2), bodies: v2.bodies.push(c3) };
    assert(define_result(v2, kfoo, b3) == Ok::<WordsView, Error>(v3));
    assert(v3.words.contains_key(kbar) && v3.words[kbar] == n + 1);
    assert(v3.words.contains_key(kfoo) && v3.words[kfoo] == n + 2);
    assert(v3.bodies[n as int] == c1);
    assert(v3.bodies[n + 1 as int] == c2);
    assert(v3.bodies[n + 2 as int] == c3);
    let m1 = crate::handler::instructions_handler::with_stack(m, m.stack.push(5));
    assert(run_range(v3.bodies, cap, n, 1, 1, m1) == (m1, None::<Error>));
    assert(run_range(v3.bodies, cap, n, 0, 1, m) == (m1, None::<Error>));
    assert(run_range(v3.bodies, cap, (n + 1) as nat, 1, 1, m1) == (m1, None::<Error>));
    assert(run_range(v3.bodies, cap, (n + 1) as nat, 0, 1, m) == (m1, None::<Error>));
    let m2 = crate::handler::instructions_handler::with_stack(m1, m1.stack.push(6));
    assert(run_range(v3.bodies, cap, (n + 2) as nat, 1, 1, m2) == (m2, None::<Error>));
    assert(run_range(v3.bodies, cap, (n + 2) as nat, 0, 1, m1) == (m2, None::<Error>));
}

proof fn lemma_compile_push(words: Map<WordTypeView, nat>, body: Seq<InstructionView>, i: InstructionView)
    ensures
        compile(words, body.push(i)) == match compile(words, body) {
            Err(e) => Err(e),
            Ok(c) => match compile_one(words, i) {
                Err(e) => Err(e),
                Ok(x) => Ok::<Seq<WordDataView>, Error>(c + x),
            },
        },
{
    assert(body.push(i).drop_last() =~= body);
}

/// The body `if a else b then`, compiled.
proof fn lemma_compile_if_else(words: Map<WordTypeView, nat>, a: i16, b: i16)
    ensures
        compile(
            words,
            seq![
                InstructionView::DefinitionType(DefinitionTypeView::If),
                InstructionView::Number(a),
                InstructionView::DefinitionType(DefinitionTypeView::Else),
                InstructionView::Number(b),
                InstructionView::DefinitionType(DefinitionTypeView::Then),
            ],
        ) == Ok::<Seq<WordDataView>, Error>(
            seq![
                WordDataView::DefinitionType(DefinitionTypeView::If),
                WordDataView::Number(a),
                WordDataView::DefinitionType(DefinitionTypeView::Else),
                WordDataView::Number(b),
                WordDataView::DefinitionType(DefinitionTypeView::Then),
            ],
        ),
{
    let i0 = InstructionView::DefinitionType(DefinitionTypeView::If);
    let i1 = InstructionView::Number(a);
    let i2 = InstructionView::DefinitionType(DefinitionTypeView::Else);
    let i3 = InstructionView::Number(b);
    let i4 = InstructionView::DefinitionType(DefinitionTypeView::Then);
    lemma_compile_single(words, i0);
    lemma_compile_push(words, seq![i0], i1);
    lemma_compile_push(words, seq![i0].push(i1), i2);
    lemma_compile_push(words, seq![i0].push(i1).push(i2), i3);
    lemma_compile_push(words, seq![i0].push(i1).push(i2).push(i3), i4);
    assert(seq![i0].push(i1).push(i2).push(i3).push(i4) =~= seq![i0, i1, i2, i3, i4]);
    assert(compile(words, seq![i0, i1, i2, i3, i4])->Ok_0 =~= seq![
        WordDataView::DefinitionType(DefinitionTypeView::If),
        WordDataView::Number(a),
        WordDataView::DefinitionType(DefinitionTypeView::Else),
        WordDataView::Number(b),
        WordDataView::DefinitionType(DefinitionTypeView::Then),
    ]);
}

/// The body `if a then`, compiled.
proof fn lemma_compile_if(words: Map<WordTypeView, nat>, a: i16)
    ensures
        compile(
            words,
            seq![
                InstructionView::DefinitionType(DefinitionTypeView::If),
                InstructionView::Number(a),
                InstructionView::DefinitionType(DefinitionTypeView::Then),
            ],
        ) == Ok::<Seq<WordDataView>, Error>(
            seq![
                WordDataView::DefinitionType(DefinitionTypeView::If),
                WordDataView::Number(a),
                WordDataView::DefinitionType(DefinitionTypeView::Then),
            ],
        ),
{
    let i0 = InstructionView::DefinitionType(DefinitionTypeView::If);
    let i1 = InstructionView::Number(a);
    let i2 = InstructionView::DefinitionType(DefinitionTypeView::Then);
    lemma_compile_single(words, i0);
    lemma_compile_push(words, seq![i0], i1);
    lemma_compile_push(words, seq![i0].push(i1), i2);
    assert(seq![i0].push(i1).push(i2) =~= seq![i0, i1, i2]);
    assert(compile(words, seq![i0, i1, i2])->Ok_0 =~= seq![
        WordDataView::DefinitionType(DefinitionTypeView::If),
        WordDataView::Number(a),
        WordDataView::DefinitionType(DefinitionTypeView::Then),
    ]);
}

/// Defining a word as `if a else b then` in any dictionary and running it
/// on a stack with `x` on top replaces `x` by `a` when `x` is not zero and
/// by `b` when `x` is zero.
pub proof fn lemma_if_else_word_by_truth(
    v: WordsView,
    name: Seq<char>,
    a: i16,
    b: i16,
    cap: nat,
    m: Machine,
)
    requires
        words_wf(v),
        valid_name(WordTypeView::UserDefined(name)),
        0 < m.stack.len() <= cap,
    ensures
        ({
            let body = seq![
                InstructionView::DefinitionType(DefinitionTypeView::If),
                InstructionView::Number(a),
                InstructionView::DefinitionType(DefinitionTypeView::Else),
                InstructionView::Number(b),
                InstructionView::DefinitionType(DefinitionTypeView::Then),
                InstructionView::EndDefinition,
            ];
            let d = define_result(v, WordTypeView::UserDefined(name), body);
            let r = run_word_result(d->Ok_0, cap, name, m);
            &&& d is Ok
            &&& r.1 is None
            &&& r.0.stack == m.stack.drop_last().push(
                if m.stack.last() != 0 {
                    a
                } else {
                    b
                },
            )
            &&& r.0.output == m.output
        }),
{
    reveal(define_result);
    reveal(run_word_result);
    let body = seq![
        InstructionView::DefinitionType(DefinitionTypeView::If),
        InstructionView::Number(a),
        InstructionView::DefinitionType(DefinitionTypeView::Else),
        InstructionView::Number(b),
        InstructionView::DefinitionType(DefinitionTypeView::Then),
        InstructionView::EndDefinition,
    ];
    assert(end_from(body, 5) == Some(5nat));
    assert(end_from(body, 4) == Some(5nat));
    assert(end_from(body, 3) == Some(5nat));
    assert(end_from(body, 2) == Some(5nat));
    assert(end_from(body, 1) == Some(5nat));
    assert(first_end(body) == Some(5nat));
    assert(body.subrange(0, 5) =~= seq![
        InstructionView::DefinitionType(DefinitionTypeView::If),
        InstructionView::Number(a),
        InstructionView::DefinitionType(DefinitionTypeView::Else),
        InstructionView::Number(b),
        InstructionView::DefinitionType(DefinitionTypeView::Then),
    ]);
    lemma_compile_if_else(v.words, a, b);
    let c = seq![
        WordDataView::DefinitionType(DefinitionTypeView::If),
        WordDataView::Number(a),
        WordDataView::DefinitionType(DefinitionTypeView::Else),
        WordDataView::Number(b),
        WordDataView::DefinitionType(DefinitionTypeView::Then),
    ];
    let key = WordTypeView::UserDefined(name);
    let n = v.bodies.len();
    let v1 = WordsView { words: v.words.insert(key, n), bodies: v.bodies.push(c) };
    assert(define_result(v, key, body) == Ok::<WordsView, Error>(v1));
    assert(v1.bodies[n as int] == c);
    lemma_if_else_by_truth(v1.bodies, cap, n, 1, 1, m);
    let m0 = with_stack(m, m.stack.drop_last());
    let ma = with_stack(m0, m0.stack.push(a));
    let mb = with_stack(m0, m0.stack.push(b));
    assert(run_range(v1.bodies, cap, n, 2, 2, ma) == (ma, None::<Error>));
    assert(run_range(v1.bodies, cap, n, 1, 2, m0) == (ma, None::<Error>));
    assert(run_range(v1.bodies, cap, n, 4, 4, mb) == (mb, None::<Error>));
    assert(run_range(v1.bodies, cap, n, 3, 4, m0) == (mb, None::<Error>));
}

/// Defining a word as `if a then` in any dictionary and running it on a
/// stack with `x` on top replaces `x` by `a` when `x` is not zero and just
/// removes `x` when `x` is zero.
pub proof fn lemma_if_word_by_truth(v: WordsView, name: Seq<char>, a: i16, cap: nat, m: Machine)
    requires
        words_wf(v),
        valid_name(WordTypeView::UserDefined(name)),
        0 < m.stack.len() <= cap,
    ensures
        ({
            let body = seq![
                InstructionView::DefinitionType(DefinitionTypeView::If),
                InstructionView::Number(a),
                InstructionView::DefinitionType(DefinitionTypeView::Then),
                InstructionView::EndDefinition,
            ];
            let d = define_result(v, WordTypeView::UserDefined(name), body);
            let r = run_word_result(d->Ok_0, cap, name, m);
            &&& d is Ok
            &&& r.1 is None
            &&& r.0.stack == if m.stack.last() != 0 {
                m.stack.drop_last().push(a)
            } else {
                m.stack.drop_last()
            }
            &&& r.0.output == m.output
        }),
{
    reveal(define_result);
    reveal(run_word_result);
    let body = seq![
        InstructionView::DefinitionType(DefinitionTypeView::If),
        InstructionView::Number(a),
        InstructionView::DefinitionType(DefinitionTypeView::Then),
        InstructionView::EndDefinition,
    ];
    assert(end_from(body, 3) == Some(3nat));
    assert(end_from(body, 2) == Some(3nat));
    assert(end_from(body, 1) == Some(3nat));
    assert(first_end(body) == Some(3nat));
    assert(body.subrange(0, 3) =~= seq![
        InstructionView::DefinitionType(DefinitionTypeView::If),
        InstructionView::Number(a),
        InstructionView::DefinitionType(DefinitionTypeView::Then),
    ]);
    lemma_compile_if(v.words, a);
    let c = seq![
        WordDataView::DefinitionType(DefinitionTypeView::If),
        WordDataView::Number(a),
        WordDataView::DefinitionType(DefinitionTypeView::Then),
    ];
    let key = WordTypeView::UserDefined(name);
    let n = v.bodies.len();
    let v1 = WordsView { words: v.words.insert(key, n), bodies: v.bodies.push(c) };
    assert(define_result(v, key, body) == Ok::<WordsView, Error>(v1));
    assert(v1.bodies[n as int] == c);
    lemma_if_by_truth(v1.bodies, cap, n, 1, m);
    let m0 = with_stack(m, m.stack.drop_last());
    let ma = with_stack(m0, m0.stack.push(a));
    assert(run_range(v1.bodies, cap, n, 2, 2, ma) == (ma, None::<Error>));
    assert(run_range(v1.bodies, cap, n, 1, 2, m0) == (ma, None::<Error>));
}

/// The compiled words of a program and the names bound to them.
pub struct WordDefinitionManager {
    words: Vec<(WordType, usize)>,
    definitions: Vec<Vec<WordData>>,
}

impl Default for WordDefinitionManager {
    fn default() -> (r: Self)
        ensures
            r.wf(),
            r.view_words().words == Map::<WordTypeView, nat>::empty(),
            r.view_words().bodies == Seq::<Seq<WordDataView>>::empty(),
    {
        WordDefinitionManager::new()
    }
}

impl WordDefinitionManager {
    /// The dictionary this manager holds.
    pub closed spec fn view_words(&self) -> WordsView {
        WordsView {
            words: bindings(self.words@.map_values(|e: (WordType, usize)| (e.0@, e.1 as nat))),
            bodies: self.definitions@.map_values(|b: Vec<WordData>| body_view(b@)),
        }
    }

    pub closed spec fn wf(&self) -> bool {
        &&& forall|j: int| 0 <= j < self.words@.len() ==> #[trigger] self.words@[j].1 < self.definitions@.len()
        &&& words_wf(self.view_words())
    }

    /// A manager with no words.
    pub fn new() -> (r: Self)
        ensures
            r.wf(),
            r.view_words().words == Map::<WordTypeView, nat>::empty(),
            r.view_words().bodies == Seq::<Seq<WordDataView>>::empty(),
    {
        let r = WordDefinitionManager { words: Vec::new(), definitions: Vec::new() };
        proof {
            assert(r.words@.map_values(|e: (WordType, usize)| (e.0@, e.1 as nat)) =~= Seq::empty());
            assert(r.view_words().bodies =~= Seq::<Seq<WordDataView>>::empty());
        }
        r
    }
    /// The index bound to `name`, if any.
    fn find_word(&self, name: &WordType) -> (r: Option<usize>)
        requires
            self.wf(),
        ensures
            r matches Some(i) ==> self.view_words().words.contains_key(name@)
                && self.view_words().words[name@] == i && i < self.definitions@.len(),
            r is None ==> !self.view_words().words.contains_key(name@),
    {
        let ghost entries = self.words@.map_values(|e: (WordType, usize)| (e.0@, e.1 as nat));
        let mut k = self.words.len();
        while k > 0
            invariant
                self.wf(),
                k <= self.words@.len(),
                entries == self.words@.map_values(|e: (WordType, usize)| (e.0@, e.1 as nat)),
                forall|j: int| k <= j < entries.len() ==> entries[j].0 != name@,
            decreases k,
        {
            k = k - 1;
            if same_word(&self.words[k].0, name) {
                proof {
                    lemma_bindings_latest(entries, name@, k as int);
                    assert(self.words@[k as int].1 < self.definitions@.len());
                }
                return Some(self.words[k].1);
            }
        }
        proof {
            lemma_bindings_absent(entries, name@);
        }
        None
    }

    /// Whether `name` is bound to a body.
    pub fn is_word_defined(&self, name: &WordType) -> (r: bool)
        requires
            self.wf(),
        ensures
            r == self.view_words().words.contains_key(name@),
    {
        self.find_word(name).is_some()
    }

    /// The body `name` is bound to, if any.
    pub fn get_word_definition(&self, name: &WordType) -> (r: Option<&Vec<WordData>>)
        requires
            self.wf(),
        ensures
            r is None ==> !self.view_words().words.contains_key(name@),
            r matches Some(b) ==> self.view_words().words.contains_key(name@) && body_view(b@)
                == self.view_words().bodies[self.view_words().words[name@] as int],
    {
        match self.find_word(name) {
            Some(index) => Some(&self.definitions[index]),
            None => None,
        }
    }

    /// Whether `name` may be defined.
    fn is_word_name_valid(&self, name: &String) -> (r: bool)
        ensures
            r == valid_name(WordTypeView::UserDefined(name@)),
    {
        let text = name.as_str();
        if parse_integer(text).is_some() {
            return false;
        }
        let n = text.unicode_len();
        let mut k: usize = 0;
        while k < n
            invariant
                k <= n,
                n == text@.len(),
                text@ == name@,
                forall|j: int|
                    0 <= j < k ==> (is_word_char_alphanumeric(#[trigger] text@[j]) || is_punctuation(
                        text@[j],
                    )),
            decreases n - k,
        {
            if !is_name_char(text.get_char(k)) {
                return false;
            }
            k = k + 1;
        }
        true
    }

    /// What `instruction` compiles to against the current bindings.
    fn convert_to_word_definition(&self, instruction: &Instruction) -> (r: Result<Vec<WordData>, Error>)
        requires
            self.wf(),
        ensures
            match compile_one(self.view_words().words, instruction@) {
                Ok(c) => r matches Ok(v) && body_view(v@) == c,
                Err(e) => r == Err::<Vec<WordData>, Error>(e),
            },
    {
        let mut out: Vec<WordData> = Vec::new();
        match instruction {
            Instruction::Number(n) => out.push(WordData::Number(*n)),
            Instruction::Operator(op) => out.push(WordData::Operator(op.clone())),
            Instruction::StackWord(op) => out.push(WordData::StackWord(*op)),
            Instruction::BooleanOperation(op) => out.push(WordData::BooleanOperation(*op)),
            Instruction::LogicalOperation(op) => out.push(WordData::LogicalOperation(*op)),
            Instruction::Output(o) => {
                let copy = match o {
                    OutputInstruction::Dot => OutputInstruction::Dot,
                    OutputInstruction::Emit => OutputInstruction::Emit,
                    OutputInstruction::CR => OutputInstruction::CR,
                    OutputInstruction::DotQuote(text) => OutputInstruction::DotQuote(text.clone()),
                };
                out.push(WordData::Output(copy));
            },
            Instruction::DefinitionType(DefinitionType::Name(name)) => {
                let key = WordType::UserDefined(name.clone());
                if let Some(index) = self.find_word(&key) {
                    out.push(WordData::DefinitionIndex(index));
                }
            },
            Instruction::DefinitionType(DefinitionType::If) => out.push(
                WordData::DefinitionType(DefinitionType::If),
            ),
            Instruction::DefinitionType(DefinitionType::Else) => out.push(
                WordData::DefinitionType(DefinitionType::Else),
            ),
            Instruction::DefinitionType(DefinitionType::Then) => out.push(
                WordData::DefinitionType(DefinitionType::Then),
            ),
            _ => return Err(Error::ForthError(ForthError::InvalidWord)),
        }
        proof {
            match compile_one(self.view_words().words, instruction@) {
                Ok(c) => assert(body_view(out@) =~= c),
                Err(_) => {},
            }
        }
        Ok(out)
    }

    /// The compiled form of the first `end` instructions of `body`.
    fn compile_body(&self, body: &Vec<Instruction>, end: usize) -> (r: Result<Vec<WordData>, Error>)
        requires
            self.wf(),
            end <= body@.len(),
        ensures
            match compile(
                self.view_words().words,
                body@.map_values(|i: Instruction| i@).subrange(0, end as int),
            ) {
                Ok(c) => r matches Ok(v) && body_view(v@) == c,
                Err(e) => r == Err::<Vec<WordData>, Error>(e),
            },
    {
        let ghost body_v = body@.map_values(|i: Instruction| i@);
        let ghost words = self.view_words().words;
        let mut definition: Vec<WordData> = Vec::new();
        let mut k: usize = 0;
        proof {
            assert(body_v.subrange(0, 0) =~= Seq::<InstructionView>::empty());
            assert(body_view(definition@) =~= Seq::<WordDataView>::empty());
        }
        while k < end
            invariant
                self.wf(),
                words == self.view_words().words,
                end <= body@.len(),
                k <= end,
                body_v == body@.map_values(|i: Instruction| i@),
                compile(words, body_v.subrange(0, k as int)) == Ok::<Seq<WordDataView>, Error>(
                    body_view(definition@),
                ),
            decreases end - k,
        {
            let piece = self.convert_to_word_definition(&body[k]);
            proof {
                assert(body_v.subrange(0, k + 1).drop_last() =~= body_v.subrange(0, k as int));
                assert(body_v.subrange(0, k + 1).last() == body@[k as int]@);
            }
            match piece {
                Ok(mut items) => {
                    let ghost before = definition@;
                    let ghost added = items@;
                    definition.append(&mut items);
                    proof {
                        assert(body_view(definition@) =~= body_view(before) + body_view(added));
                    }
                },
                Err(e) => {
                    proof {
                        lemma_compile_prefix_err(words, body_v.subrange(0, end as int), k + 1);
                        assert(body_v.subrange(0, end as int).subrange(0, k + 1) =~= body_v.subrange(0, k + 1));
                    }
                    return Err(e);
                },
            }
            k = k + 1;
        }
        Ok(definition)
    }

    /// Defines `name` as the instructions of `body` up to its first
    /// `EndDefinition`. The stored bodies of other words are not touched, so
    /// words compiled earlier keep referring to the bodies they saw.
    pub fn define_new_word(&mut self, name: WordType, body: Vec<Instruction>) -> (r: Result<(), Error>)
        requires
            old(self).wf(),
        ensures
            final(self).wf(),
            match define_result(
                old(self).view_words(),
                name@,
                body@.map_values(|i: Instruction| i@),
            ) {
                Ok(v) => r is Ok && final(self).view_words() == v,
                Err(e) => r == Err::<(), Error>(e) && final(self).view_words() == old(self).view_words(),
            },
    {
        let ghost body_v = body@.map_values(|i: Instruction| i@);
        proof {
            reveal(define_result);
        }
        let valid = match &name {
            WordType::UserDefined(name_str) => self.is_word_name_valid(name_str),
            WordType::Predefined(_) => true,
        };
        if !valid {
            return Err(Error::ForthError(ForthError::InvalidWord));
        }
        let end = match find_end_definition(&body) {
            Some(e) => e,
            None => return Err(Error::ForthError(ForthError::InvalidWord)),
        };
        let ghost words = self.view_words().words;
        proof {
            assert(valid_name(name@));
            assert(first_end(body_v) == Some(end as nat));
        }
        let definition = match self.compile_body(&body, end) {
            Ok(d) => d,
            Err(e) => return Err(e),
        };
        let ghost old_words = self.words@;
        let ghost old_defs = self.definitions@;
        let index = self.definitions.len();
        self.definitions.push(definition);
        self.words.push((name, index));
        proof {
            let entries = self.words@.map_values(|e: (WordType, usize)| (e.0@, e.1 as nat));
            let old_entries = old_words.map_values(|e: (WordType, usize)| (e.0@, e.1 as nat));
            assert(entries.drop_last() =~= old_entries);
            assert(self.view_words().bodies =~= old(self).view_words().bodies.push(
                body_view(definition@),
            ));
            assert forall|j: int| 0 <= j < self.words@.len() implies #[trigger] self.words@[j].1
                < self.definitions@.len() by {
                if j < old_words.len() {
                    assert(self.words@[j] == old_words[j]);
                }
            }
            let v = self.view_words();
            let c = body_view(definition@);
            assert forall|q: int| 0 <= q < c.len() implies element_wf(#[trigger] c[q], index as nat) by {
                lemma_compiled_element_wf(words, body_v.subrange(0, end as int), old_defs.len(), q);
            }
            assert forall|dd: int| 0 <= dd < v.bodies.len() implies body_wf(#[trigger] v.bodies[dd], dd as nat) by {
                if dd < old_defs.len() {
                    assert(v.bodies[dd] == old(self).view_words().bodies[dd]);
                }
            }
        }
        Ok(())
    }
}

impl WordDefinitionManager {
    /// The matching `Then` (when `then` is set) or `Else` of a conditional
    /// whose branch starts at `start` in body `d`, searching up to `end`.
    fn find_instruction_index(&self, d: usize, start: usize, end: usize, then: bool) -> (r: Option<usize>)
        requires
            d < self.definitions@.len(),
            start <= end <= self.definitions@[d as int]@.len(),
        ensures
            then ==> r == match scan_then(self.view_words().bodies[d as int], start as int, end as int, 0) {
                Some(t) => Some(t as usize),
                None => None::<usize>,
            },
            !then ==> r == match scan_else(self.view_words().bodies[d as int], start as int, end as int, 0) {
                Some(t) => Some(t as usize),
                None => None::<usize>,
            },
    {
        let ghost body = self.view_words().bodies[d as int];
        let instructions = &self.definitions[d];
        proof {
            assert(self.view_words().bodies.len() == self.definitions@.len());
            assert(body == body_view(instructions@));
        }
        let mut depth: usize = 0;
        let mut k: usize = start;
        while k < end
            invariant
                start <= k <= end,
                end <= instructions@.len(),
                body == body_view(instructions@),
                body == self.view_words().bodies[d as int],
                depth <= k - start,
                then ==> scan_then(body, start as int, end as int, 0) == scan_then(
                    body,
                    k as int,
                    end as int,
                    depth as nat,
                ),
                !then ==> scan_else(body, start as int, end as int, 0) == scan_else(
                    body,
                    k as int,
                    end as int,
                    depth as nat,
                ),
            decreases end - k,
        {
            proof {
                assert(body[k as int] == instructions@[k as int]@);
            }
            match &instructions[k] {
                WordData::DefinitionType(DefinitionType::If) => {
                    depth = depth + 1;
                },
                WordData::DefinitionType(DefinitionType::Then) => {
                    if depth == 0 {
                        if then {
                            return Some(k);
                        }
                        return None;
                    }
                    depth = depth - 1;
                },
                WordData::DefinitionType(DefinitionType::Else) => {
                    if depth == 0 && !then {
                        return Some(k);
                    }
                },
                _ => {},
            }
            k = k + 1;
        }
        None
    }

    /// Runs the elements `start..end` of body `d` against `handler`.
    fn execute_instruction(
        &self,
        handler: &mut ExecutionHandler,
        d: usize,
        start: usize,
        end: usize,
    ) -> (r: Result<(), Error>)
        requires
            self.wf(),
            old(handler).wf(),
            d < self.definitions@.len(),
            start <= end <= self.definitions@[d as int]@.len(),
        ensures
            final(handler).wf(),
            final(handler).cap() == old(handler).cap(),
            final(handler).machine() == run_range(
                self.view_words().bodies,
                old(handler).cap(),
                d as nat,
                start as int,
                end as int,
                old(handler).machine(),
            ).0,
            reports(
                r,
                run_range(
                    self.view_words().bodies,
                    old(handler).cap(),
                    d as nat,
                    start as int,
                    end as int,
                    old(handler).machine(),
                ).1,
            ),
        decreases d, end - start,
    {
        let ghost bodies = self.view_words().bodies;
        let ghost cap = handler.cap();
        let ghost target = run_range(bodies, cap, d as nat, start as int, end as int, handler.machine());
        let instructions = &self.definitions[d];
        proof {
            assert(bodies[d as int] == body_view(instructions@));
        }
        let mut i: usize = start;
        while i < end
            invariant
                self.wf(),
                handler.wf(),
                handler.cap() == cap,
                cap == old(handler).cap(),
                target == run_range(
                    bodies,
                    cap,
                    d as nat,
                    start as int,
                    end as int,
                    old(handler).machine(),
                ),
                bodies == self.view_words().bodies,
                d < bodies.len(),
                instructions@ == self.definitions@[d as int]@,
                bodies[d as int] == body_view(instructions@),
                start <= i <= end,
                end <= instructions@.len(),
                run_range(bodies, cap, d as nat, i as int, end as int, handler.machine()) == target,
            decreases end - i,
        {
            proof {
                assert(bodies[d as int][i as int] == instructions@[i as int]@);
            }
            match &instructions[i] {
                WordData::DefinitionIndex(j) => {
                    let j = *j;
                    proof {
                        assert(element_wf(bodies[d as int][i as int], d as nat));
                        assert(bodies[j as int] == body_view(self.definitions@[j as int]@));
                    }
                    let res = self.execute_instruction(handler, j, 0, self.definitions[j].len());
                    if res.is_err() {
                        return res;
                    }
                    i = i + 1;
                },
                WordData::DefinitionType(DefinitionType::If) => {
                    let v = match handler.handle_drop_element() {
                        Ok(v) => v,
                        Err(e) => return Err(e),
                    };
                    let then_index = match self.find_instruction_index(d, i + 1, end, true) {
                        Some(t) => t,
                        None => return Err(Error::ForthError(ForthError::InvalidWord)),
                    };
                    proof {
                        lemma_scan_then_bounds(bodies[d as int], i + 1, end as int, 0);
                        lemma_scan_else_bounds(bodies[d as int], i + 1, end as int, 0);
                    }
                    let else_index = match self.find_instruction_index(d, i + 1, end, false) {
                        Some(x) => if i < x && x < then_index {
                            Some(x)
                        } else {
                            None
                        },
                        None => None,
                    };
                    let res = if v != 0 {
                        let stop = match else_index {
                            Some(x) => x,
                            None => then_index,
                        };
                        self.execute_instruction(handler, d, i + 1, stop)
                    } else {
                        match else_index {
                            Some(x) => self.execute_instruction(handler, d, x + 1, then_index),
                            None => Ok(()),
                        }
                    };
                    if res.is_err() {
                        return res;
                    }
                    i = then_index + 1;
                },
                WordData::DefinitionType(_) => {
                    i = i + 1;
                },
                w => {
                    let res = handler.handle_word_instruction(w);
                    if res.is_err() {
                        return res;
                    }
                    i = i + 1;
                },
            }
        }
        Ok(())
    }

    /// Runs the word bound to `word_name`; fails with `UnknownWord` when the
    /// name is unbound.
    pub fn run_word(&self, handler: &mut ExecutionHandler, word_name: &str) -> (r: Result<(), Error>)
        requires
            self.wf(),
            old(handler).wf(),
        ensures
            final(handler).wf(),
            final(handler).cap() == old(handler).cap(),
            final(handler).machine() == run_word_result(
                self.view_words(),
                old(handler).cap(),
                word_name@,
                old(handler).machine(),
            ).0,
            reports(
                r,
                run_word_result(
                    self.view_words(),
                    old(handler).cap(),
                    word_name@,
                    old(handler).machine(),
                ).1,
            ),
    {
        proof {
            reveal(run_word_result);
        }
        let key = WordType::UserDefined(word_name.to_owned());
        match self.find_word(&key) {
            Some(index) => {
                proof {
                    assert(self.view_words().bodies[index as int] == body_view(
                        self.definitions@[index as int]@,
                    ));
                }
                self.execute_instruction(handler, index, 0, self.definitions[index].len())
            },
            None => Err(Error::ForthError(ForthError::UnknownWord)),
        }
    }
}

/// Every element compiled against bindings to bodies below `n` is well formed
/// for a body stored at position `n`.
proof fn lemma_compiled_element_wf(
    words: Map<WordTypeView, nat>,
    body: Seq<InstructionView>,
    n: nat,
    q: int,
)
    requires
        forall|k: WordTypeView| #[trigger] words.contains_key(k) ==> words[k] < n,
        compile(words, body) matches Ok(c) && 0 <= q < c.len(),
    ensures
        compile(words, body) matches Ok(c) && element_wf(c[q], n),
    decreases body.len(),
{
    let c = compile(words, body)->Ok_0;
    let prev = compile(words, body.drop_last())->Ok_0;
    if q < prev.len() {
        lemma_compiled_element_wf(words, body.drop_last(), n, q);
        assert(c[q] == prev[q]);
    }
}

/// The position of the first `EndDefinition` of `body`.
pub(crate) fn find_end_definition(body: &Vec<Instruction>) -> (r: Option<usize>)
    ensures
        first_end(body@.map_values(|i: Instruction| i@)) == match r {
            Some(k) => Some(k as nat),
            None => None::<nat>,
        },
        r matches Some(e) ==> e < body@.len(),
{
    let ghost v = body@.map_values(|i: Instruction| i@);
    let mut k: usize = 0;
    while k < body.len()
        invariant
            k <= body@.len(),
            v == body@.map_values(|i: Instruction| i@),
            end_from(v, 0) == end_from(v, k as int),
        decreases body@.len() - k,
    {
        proof {
            assert(v[k as int] == body@[k as int]@);
        }
        if let Instruction::EndDefinition = body[k] {
            return Some(k);
        }
        k = k + 1;
    }
    None
}

/// Whether two names are the same.
fn same_word(a: &WordType, b: &WordType) -> (r: bool)
    ensures
        r == (a@ == b@),
{
    match (a, b) {
        (WordType::Predefined(x), WordType::Predefined(y)) => same_text(x, y),
        (WordType::UserDefined(x), WordType::UserDefined(y)) => same_text(x.as_str(), y.as_str()),
        _ => false,
    }
}

/// Whether two texts hold the same characters.
fn same_text(a: &str, b: &str) -> (r: bool)
    ensures
        r == (a@ == b@),
{
    let n = a.unicode_len();
    if n != b.unicode_len() {
        return false;
    }
    let mut k: usize = 0;
    while k < n
        invariant
            k <= n,
            n == a@.len(),
            n == b@.len(),
            forall|j: int| 0 <= j < k ==> a@[j] == b@[j],
        decreases n - k,
    {
        if a.get_char(k) != b.get_char(k) {
            return false;
        }
        k = k + 1;
    }
    proof {
        assert(a@ =~= b@);
    }
    true
}

} // verus!
