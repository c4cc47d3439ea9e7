use rust_forth::calculator::calculator::Calculator;
use rust_forth::forth::boolean_operations::{AND, GREATER_THAN, LESS_THAN};
use rust_forth::forth::definition_type::DefinitionType;
use rust_forth::forth::forth_errors::ForthError;
use rust_forth::forth::interpreter::Forth;
use rust_forth::forth::intruction::Instruction;
use rust_forth::forth::output_instructions::{OutputInstruction, CR, DOT, EMIT};
use rust_forth::forth::word::WordType;
use rust_forth::forth::word_data::WordData;
use rust_forth::stack::stack_operations::{DROP, DUP, OVER, ROT, SWAP};

#[test]
fn interpreter_can_create_forth_with_stack_and_calculator_corectly() {
    let forth = Forth::new(None, None);

    assert!(forth.is_stack_empty());
}

#[test]
fn interpreter_can_push_element_into_stack() {
    let mut forth = Forth::new(None, None);
    let elements = vec![1, 2, -3];

    for element in &elements {
        let _ = forth.push(*element);
    }

    assert_eq!(forth.stack_size(), 3);
    assert_eq!(forth.peek_stack(), Ok(elements.last().unwrap()));
}

#[test]
fn interpreter_can_be_added_correctly_using_the_stack() {
    let mut forth = Forth::new(None, None);
    let _ = forth.push(2);
    let _ = forth.push(4);
    let operation = Instruction::operator("+".to_string());
    let expected_result = vec![6];

    let _ = forth.process_instructions(vec![operation]);

    assert_eq!(forth.get_stack_content(), &expected_result);
}

#[test]
fn interpreter_can_be_divided_correctly_using_the_stack() {
    let mut forth = Forth::new(None, None);
    let _ = forth.push(4);
    let _ = forth.push(2);
    let operation = Instruction::operator("/".to_string());
    let expected_result = vec![2];

    let _ = forth.process_instructions(vec![operation]);

    assert_eq!(forth.get_stack_content(), &expected_result);
}

#[test]
fn interpreter_can_perform_complex_operations_correctly() {
    let mut forth = Forth::new(None, None);
    let operation: Vec<Instruction> = vec![
        Instruction::number(2),
        Instruction::number(4),
        Instruction::operator("+".to_string()),
        Instruction::number(6),
        Instruction::operator("-".to_string()),
        Instruction::number(8),
        Instruction::number(2),
        Instruction::operator("*".to_string()),
        Instruction::number(4),
        Instruction::operator("/".to_string()),
    ];

    let expected_result = [0, 4];
    let _ = forth.process_instructions(operation);

    assert_eq!(forth.stack_size(), expected_result.len());
    assert_eq!(forth.get_stack_content(), &expected_result);
}

#[test]
fn interpreter_stack_can_be_manipulated_correctly() {
    let mut forth = Forth::new(None, None);
    let data: Vec<Instruction> = vec![
        Instruction::number(2),
        Instruction::number(4),
        Instruction::stack_word(DUP),
        Instruction::stack_word(ROT),
        Instruction::stack_word(OVER),
        Instruction::stack_word(SWAP),
        Instruction::stack_word(DROP),
    ];
    let expected_result = vec![4, 4, 4];

    let _ = forth.process_instructions(data);

    assert_eq!(forth.stack_size(), expected_result.len());
    assert_eq!(forth.get_stack_content(), &expected_result);
}

#[test]
fn interpreter_can_define_new_words() {
    let mut forth = Forth::new(None, None);
    let data: Vec<Instruction> = vec![
        Instruction::start_definition(),
        Instruction::definition_type(DefinitionType::Name("NEGATE".to_string())),
        Instruction::number(-1),
        Instruction::operator("*".to_string()),
        Instruction::end_definition(),
    ];

    let _ = forth.process_instructions(data);

    assert!(forth.is_word_defined(&WordType::UserDefined("NEGATE".to_string())));
    let expected_definition = vec![WordData::number(-1), WordData::operator("*".to_string())];
    let actual_definition = forth
        .fetch_word_definition(&WordType::UserDefined("NEGATE".to_string()))
        .unwrap();

    assert_eq!(*actual_definition, expected_definition);
}

#[test]
fn interpreter_can_execute_a_new_word_defined() {
    let mut forth = Forth::new(None, None);
    let word: Vec<Instruction> = vec![
        Instruction::start_definition(),
        Instruction::definition_type(DefinitionType::Name("NEGATE".to_string())),
        Instruction::number(-1),
        Instruction::operator("*".to_string()),
        Instruction::end_definition(),
    ];
    let data: Vec<Instruction> = vec![
        Instruction::number(-10),
        Instruction::definition_type(DefinitionType::Name("NEGATE".to_string())),
    ];
    let expected_result = [10];

    let _ = forth.process_instructions(word);
    let _ = forth.process_instructions(data);

    assert_eq!(forth.get_stack_content(), &expected_result);
}

#[test]
fn interpreter_cannot_define_invalid_word() {
    let mut forth = Forth::new(None, None);
    let data: Vec<Instruction> = vec![
        Instruction::start_definition(),
        Instruction::number(11),
        Instruction::number(-1),
        Instruction::operator("*".to_string()),
        Instruction::end_definition(),
    ];

    let result = forth.process_instructions(data);

    assert_eq!(result, Err(ForthError::InvalidWord.into()));
}

#[test]
fn interpreter_can_execute_boolean_operations_correctly() {
    let mut forth = Forth::new(None, None);
    let data = vec![
        Instruction::number(3),
        Instruction::number(4),
        Instruction::logical_operation(LESS_THAN),
        Instruction::number(20),
        Instruction::number(10),
        Instruction::logical_operation(GREATER_THAN),
        Instruction::boolean_operation(AND),
    ];

    let expected_result = [-1];

    assert_eq!(forth.process_instructions(data), Ok(()));
    assert_eq!(forth.get_stack_content(), &expected_result);
}

#[test]
fn interpreter_can_execute_output_instructions_correctly() {
    let output = Vec::new();
    let mut forth = Forth::new(None, Some(output));
    let instruction = vec![
        Instruction::number(3),
        Instruction::output(DOT),
        Instruction::number(65),
        Instruction::output(EMIT),
        Instruction::number(4),
        Instruction::output(CR),
        Instruction::output(OutputInstruction::dot_quote("word".to_string())),
    ];
    let expected_result = "3 A \nword ";

    let _ = forth.process_instructions(instruction);

    let result = String::from_utf8(forth.get_writer().unwrap().to_vec()).unwrap();

    assert_eq!(result, expected_result);
}

#[test]
fn forth_can_create_forth_with_stack_and_calculator_corectly() {
    let forth = Forth::new(None, None);

    assert!(forth.is_stack_empty());
    assert_eq!(Calculator::new().calculate(2, 4, "+"), Ok(6));
}

#[test]
fn forth_can_push_element_into_stack() {
    let mut forth = Forth::new(None, None);
    let elements = vec![1, 2, -3];

    for element in &elements {
        let _ = forth.push(*element);
    }

    assert_eq!(forth.stack_size(), 3);
    assert_eq!(forth.peek_stack(), Ok(elements.last().unwrap()));
}

#[test]
fn forth_can_be_added_correctly_using_the_stack() {
    let mut forth = Forth::new(None, None);
    let _ = forth.push(2);
    let _ = forth.push(4);

    let _ = forth.process_instructions(vec![Instruction::operator("+".to_string())]);

    assert_eq!(forth.peek_stack(), Ok(&6));
}

#[test]
fn forth_can_be_divided_correctly_using_the_stack() {
    let mut forth = Forth::new(None, None);
    let _ = forth.push(4);
    let _ = forth.push(2);

    let _ = forth.process_instructions(vec![Instruction::operator("/".to_string())]);

    assert_eq!(forth.peek_stack(), Ok(&2));
}
