use rust_forth::config::unify_multiline_definitions;
use rust_forth::errors::Error;
use rust_forth::calculator::calculator_errors::CalculatorError;
use rust_forth::forth::forth_errors::ForthError;
use rust_forth::stack::stack_errors::StackError;
use rust_forth::Forth;

fn run_line(forth: &mut Forth, line: &str) -> Result<(), Error> {
    let instructions = forth.parse_instructions(line.to_string());
    forth.process_instructions(instructions)
}

#[test]
fn adding_the_two_top_values() {
    let mut forth = Forth::new(None, None);
    assert_eq!(run_line(&mut forth, "1 2 3 +"), Ok(()));
    assert_eq!(forth.get_stack_content(), &vec![1, 5]);
}

#[test]
fn dividing_by_zero_fails_and_empties_the_stack() {
    let mut forth = Forth::new(None, None);
    assert_eq!(
        run_line(&mut forth, "4 0 /"),
        Err(Error::CalculatorError(CalculatorError::DivisionByZero))
    );
    assert!(forth.is_stack_empty());
}

#[test]
fn a_defined_word_negates() {
    let mut forth = Forth::new(None, None);
    assert_eq!(run_line(&mut forth, ": negate -1 * ; 10 negate"), Ok(()));
    assert_eq!(forth.get_stack_content(), &vec![-10]);
}

#[test]
fn comparisons_combine_with_and() {
    let mut forth = Forth::new(None, None);
    assert_eq!(run_line(&mut forth, "3 4 < 20 10 > and"), Ok(()));
    assert_eq!(forth.get_stack_content(), &vec![-1]);
}

#[test]
fn a_conditional_word_over_several_lines_prints_its_else_branch() {
    let mut forth = Forth::new(None, Some(Vec::new()));
    let lines: Vec<String> = vec![
        ": is-zero? 0 = if".to_string(),
        ".\" is zero\"".to_string(),
        "else .\" is not zero\"".to_string(),
        "then ;".to_string(),
        "4 is-zero?".to_string(),
    ];
    for line in unify_multiline_definitions(&lines) {
        assert_eq!(run_line(&mut forth, &line), Ok(()));
    }
    let output = String::from_utf8(forth.get_writer().unwrap().to_vec()).unwrap();
    assert_eq!(output, "is not zero ");
    assert!(forth.is_stack_empty());
}

#[test]
fn redefinition_does_not_reach_earlier_words() {
    let mut forth = Forth::new(None, None);
    assert_eq!(run_line(&mut forth, ": foo 5 ; : bar foo ; : foo 6 ; bar foo"), Ok(()));
    assert_eq!(forth.get_stack_content(), &vec![5, 6]);
}

#[test]
fn stack_words_in_any_case_parse_alike() {
    let forth = Forth::new(None, None);
    let a = forth.parse_instructions("dup".to_string());
    let b = forth.parse_instructions("DUP".to_string());
    let c = forth.parse_instructions("Dup".to_string());
    assert_eq!(a, b);
    assert_eq!(b, c);
}

#[test]
fn quoted_text_is_printed_verbatim() {
    let mut forth = Forth::new(None, Some(Vec::new()));
    assert_eq!(run_line(&mut forth, ".\"  Hello, World! \""), Ok(()));
    let output = String::from_utf8(forth.get_writer().unwrap().to_vec()).unwrap();
    assert_eq!(output, " Hello, World!  ");
}

#[test]
fn truthy_values_take_the_if_branch() {
    let mut forth = Forth::new(None, None);
    assert_eq!(run_line(&mut forth, ": pick if 1 else 2 then ;"), Ok(()));
    assert_eq!(run_line(&mut forth, "7 pick 0 pick -3 pick"), Ok(()));
    assert_eq!(forth.get_stack_content(), &vec![1, 2, 1]);
}

#[test]
fn output_words_without_a_writer_do_nothing() {
    let mut forth = Forth::new(None, None);
    assert_eq!(run_line(&mut forth, "1 . 66 emit cr"), Ok(()));
    assert_eq!(forth.get_stack_content(), &vec![1, 66]);
}

#[test]
fn emit_writes_latin1_characters_and_skips_others() {
    let mut forth = Forth::new(None, Some(Vec::new()));
    assert_eq!(run_line(&mut forth, "233 emit 300 emit -5 ."), Ok(()));
    let output = String::from_utf8(forth.get_writer().unwrap().to_vec()).unwrap();
    assert_eq!(output, "é -5 ");
}

#[test]
fn the_stack_overflows_at_its_capacity() {
    let mut forth = Forth::new(Some(4), None);
    assert_eq!(
        run_line(&mut forth, "1 2 3"),
        Err(Error::StackError(StackError::Overflow))
    );
    assert_eq!(forth.get_stack_content(), &vec![1, 2]);
}

#[test]
fn user_words_shadow_stack_words_and_operators() {
    let mut forth = Forth::new(None, None);
    assert_eq!(run_line(&mut forth, ": dup 42 ; : + 7 ;"), Ok(()));
    assert_eq!(run_line(&mut forth, ": + 7 ;"), Ok(()));
    assert_eq!(run_line(&mut forth, "1 dup +"), Ok(()));
    assert_eq!(forth.get_stack_content(), &vec![1, 42, 7]);
}

#[test]
fn definitions_spread_over_lines_behave_like_one_line() {
    let mut forth = Forth::new(None, None);
    for line in [": foo 5 ;", ": bar foo ;", ": foo 6 ;", "bar foo"] {
        assert_eq!(run_line(&mut forth, line), Ok(()));
    }
    assert_eq!(forth.get_stack_content(), &vec![5, 6]);
}

#[test]
fn a_nested_colon_or_an_empty_name_is_invalid() {
    let mut forth = Forth::new(None, None);
    assert_eq!(
        run_line(&mut forth, ": a 1 : b 2 ; 3 ;"),
        Err(Error::ForthError(ForthError::InvalidWord))
    );
    assert_eq!(run_line(&mut forth, ": ;"), Err(Error::ForthError(ForthError::InvalidWord)));
    assert!(forth.is_stack_empty());
}

#[test]
fn a_failed_definition_stops_the_line() {
    let mut forth = Forth::new(None, None);
    assert_eq!(
        run_line(&mut forth, ": 12 3 ; 4"),
        Err(Error::ForthError(ForthError::InvalidWord))
    );
    assert!(forth.is_stack_empty());
}

#[test]
fn an_unknown_word_stops_the_line() {
    let mut forth = Forth::new(None, None);
    assert_eq!(
        run_line(&mut forth, "1 nothing 2"),
        Err(Error::ForthError(ForthError::UnknownWord))
    );
    assert_eq!(forth.get_stack_content(), &vec![1]);
}

#[test]
fn error_tags_read_as_documented() {
    assert_eq!(Error::StackError(StackError::Underflow).message(), "stack-underflow");
    assert_eq!(Error::StackError(StackError::Overflow).message(), "stack-overflow");
    assert_eq!(Error::CalculatorError(CalculatorError::DivisionByZero).message(), "division-by-zero");
    assert_eq!(Error::ForthError(ForthError::InvalidWord).message(), "invalid-word");
    assert_eq!(Error::ForthError(ForthError::UnknownWord).message(), "?");
}
