use rust_forth::errors::Error;
use rust_forth::forth::boolean_operations::{LogicalOperation, FORTH_TRUE};
use rust_forth::forth::definition_type::DefinitionType;
use rust_forth::forth::forth_errors::ForthError;
use rust_forth::forth::intruction::Instruction;
use rust_forth::forth::output_instructions::OutputInstruction;
use rust_forth::forth::word::{WordDefinitionManager, WordType};
use rust_forth::forth::word_data::WordData;
use rust_forth::handler::instructions_handler::ExecutionHandler;

#[test]
fn word_can_define_new_words() {
    let mut word_manager = WordDefinitionManager::new();
    let data: Vec<Instruction> = vec![
        Instruction::Number(-1),
        Instruction::Operator("*".to_string()),
        Instruction::EndDefinition,
    ];
    let expected_result = vec![WordData::Number(-1), WordData::Operator("*".to_string())];

    word_manager
        .define_new_word(WordType::UserDefined("NEGATE".to_string()), data)
        .unwrap();

    assert!(word_manager.is_word_defined(&WordType::UserDefined("NEGATE".to_string())));
    let actual_definition = word_manager
        .get_word_definition(&WordType::UserDefined("NEGATE".to_string()))
        .unwrap();
    assert_eq!(*actual_definition, expected_result);
}

#[test]
fn word_can_execute_a_new_word_defined() {
    let mut word_manager = WordDefinitionManager::new();
    let mut handler = ExecutionHandler::new(None, None);
    let word: Vec<Instruction> = vec![
        Instruction::Number(-1),
        Instruction::Operator("*".to_string()),
        Instruction::EndDefinition,
    ];
    let expected_result = [10];

    let _ = word_manager.define_new_word(WordType::UserDefined("NEGATE".to_string()), word);
    let _ = handler.handle_push_element(-10);
    let _ = word_manager.run_word(&mut handler, "NEGATE");

    assert_eq!(handler.handle_get_stack_content(), &expected_result);
}

#[test]
fn word_cannot_execute_unknown_word() {
    let mut word_manager = WordDefinitionManager::new();
    let mut handler = ExecutionHandler::new(None, None);
    let word: Vec<Instruction> = vec![
        Instruction::Number(-1),
        Instruction::Operator("*".to_string()),
        Instruction::EndDefinition,
    ];
    let _ = word_manager.define_new_word(WordType::UserDefined("NEGATE".to_string()), word);

    let result = word_manager.run_word(&mut handler, "ABS");

    assert_eq!(result, Err(ForthError::UnknownWord.into()));
}

#[test]
fn can_define_word_that_generate_output() {
    let mut word_manager = WordDefinitionManager::new();
    let word: Vec<Instruction> = vec![
        Instruction::Output(OutputInstruction::Emit),
        Instruction::EndDefinition,
    ];
    let expected_result = vec![WordData::Output(OutputInstruction::Emit)];

    let _ = word_manager.define_new_word(WordType::UserDefined("TO-ASCCI".to_string()), word);
    let result = word_manager.get_word_definition(&WordType::UserDefined("TO-ASCCI".to_string()));

    assert_eq!(result, Some(&expected_result));
}

#[test]
fn run_word_that_generates_output() {
    let mut word_manager = WordDefinitionManager::new();
    let output = Vec::new();
    let mut handler = ExecutionHandler::new(None, Some(output));
    let word: Vec<Instruction> = vec![
        Instruction::Output(OutputInstruction::DotQuote("Hello".to_string())),
        Instruction::EndDefinition,
    ];
    let expected_result = "Hello ".to_string();

    let _ = word_manager.define_new_word(WordType::UserDefined("GREETING".to_string()), word);
    let _ = word_manager.run_word(&mut handler, "GREETING");

    let result = String::from_utf8(handler.handle_get_writer().unwrap().to_vec()).unwrap();

    assert_eq!(result, expected_result);
}

#[test]
fn can_define_word_that_contains_conditionals() {
    let mut word_manger = WordDefinitionManager::new();
    let word = vec![
        Instruction::Number(0),
        Instruction::LogicalOperation(LogicalOperation::Equal),
        Instruction::DefinitionType(DefinitionType::If),
        Instruction::Output(OutputInstruction::DotQuote("Is Zero".to_string())),
        Instruction::DefinitionType(DefinitionType::Then),
        Instruction::EndDefinition,
    ];
    let expected_result = vec![
        WordData::Number(0),
        WordData::LogicalOperation(LogicalOperation::Equal),
        WordData::DefinitionType(DefinitionType::If),
        WordData::Output(OutputInstruction::DotQuote("Is Zero".to_string())),
        WordData::DefinitionType(DefinitionType::Then),
    ];

    let _ = word_manger.define_new_word(WordType::UserDefined("is-zero?".to_string()), word);
    let result = word_manger.get_word_definition(&WordType::UserDefined("is-zero?".to_string()));

    assert_eq!(result, Some(&expected_result));
}

#[test]
fn can_execute_word_that_contains_conditionals() {
    let mut word_manager = WordDefinitionManager::new();
    let output = Vec::new();
    let mut handler = ExecutionHandler::new(None, Some(output));
    let word: Vec<Instruction> = vec![
        Instruction::Number(0),
        Instruction::LogicalOperation(LogicalOperation::Equal),
        Instruction::DefinitionType(DefinitionType::If),
        Instruction::Output(OutputInstruction::DotQuote("Is Zero".to_string())),
        Instruction::DefinitionType(DefinitionType::Else),
        Instruction::Output(OutputInstruction::DotQuote("Is Not Zero".to_string())),
        Instruction::DefinitionType(DefinitionType::Then),
        Instruction::EndDefinition,
    ];
    let expected_result = "Is Not Zero ".to_string();

    let _ = word_manager.define_new_word(WordType::UserDefined("is-zero?".to_string()), word);
    let _ = handler.handle_push_element(4);
    let _ = word_manager.run_word(&mut handler, "is-zero?");
    let result = String::from_utf8(handler.handle_get_writer().unwrap().to_vec()).unwrap();

    assert_eq!(result, expected_result);
}

#[test]
fn test_non_transitive() {
    let mut word_manager = WordDefinitionManager::new();
    let mut handler = ExecutionHandler::new(None, None);
    let word_foo: Vec<Instruction> = vec![Instruction::Number(5), Instruction::EndDefinition];
    let word_bar: Vec<Instruction> = vec![
        Instruction::DefinitionType(DefinitionType::Name("foo".to_string())),
        Instruction::EndDefinition,
    ];
    let redefinition_foo: Vec<Instruction> =
        vec![Instruction::Number(6), Instruction::EndDefinition];
    let expected_result = vec![5, 6];

    let _ = word_manager.define_new_word(WordType::UserDefined("foo".to_string()), word_foo);
    let _ = word_manager.define_new_word(WordType::UserDefined("bar".to_string()), word_bar);
    let _ = word_manager.define_new_word(WordType::UserDefined("foo".to_string()), redefinition_foo);

    let _ = word_manager.run_word(&mut handler, "bar");
    let _ = word_manager.run_word(&mut handler, "foo");

    let result = handler.handle_get_stack_content();

    assert_eq!(result, &expected_result);
}

#[test]
fn test_if_simple() {
    let mut word_manager = WordDefinitionManager::new();
    let mut handler = ExecutionHandler::new(None, None);
    let word: Vec<Instruction> = vec![
        Instruction::DefinitionType(DefinitionType::If),
        Instruction::Number(2),
        Instruction::DefinitionType(DefinitionType::Then),
        Instruction::EndDefinition,
    ];
    let expected_result = vec![2];

    let _ = word_manager.define_new_word(WordType::UserDefined("f".to_string()), word);
    let _ = handler.handle_push_element(FORTH_TRUE);
    let _ = word_manager.run_word(&mut handler, "f");
    let result = handler.handle_get_stack_content();

    assert_eq!(result, &expected_result);
}

#[test]
fn names_that_read_as_numbers_or_hold_spaces_are_refused() {
    let mut word_manager = WordDefinitionManager::new();
    let body = vec![Instruction::Number(1), Instruction::EndDefinition];
    assert_eq!(
        word_manager.define_new_word(WordType::UserDefined("-12".to_string()), body),
        Err(Error::ForthError(ForthError::InvalidWord))
    );
    let body = vec![Instruction::Number(1), Instruction::EndDefinition];
    assert_eq!(
        word_manager.define_new_word(WordType::UserDefined("a b".to_string()), body),
        Err(Error::ForthError(ForthError::InvalidWord))
    );
    let body = vec![Instruction::Number(1), Instruction::EndDefinition];
    assert_eq!(
        word_manager.define_new_word(WordType::UserDefined("été".to_string()), body),
        Ok(())
    );
}

#[test]
fn a_body_without_end_or_with_a_nested_start_is_refused() {
    let mut word_manager = WordDefinitionManager::new();
    assert_eq!(
        word_manager.define_new_word(WordType::UserDefined("w".to_string()), vec![Instruction::Number(1)]),
        Err(Error::ForthError(ForthError::InvalidWord))
    );
    assert_eq!(
        word_manager.define_new_word(
            WordType::UserDefined("w".to_string()),
            vec![Instruction::StartDefinition, Instruction::EndDefinition]
        ),
        Err(Error::ForthError(ForthError::InvalidWord))
    );
    assert!(!word_manager.is_word_defined(&WordType::UserDefined("w".to_string())));
}

#[test]
fn an_if_without_then_is_invalid() {
    let mut word_manager = WordDefinitionManager::new();
    let mut handler = ExecutionHandler::new(None, None);
    let word = vec![
        Instruction::DefinitionType(DefinitionType::If),
        Instruction::Number(2),
        Instruction::EndDefinition,
    ];
    let _ = word_manager.define_new_word(WordType::UserDefined("g".to_string()), word);
    let _ = handler.handle_push_element(1);
    assert_eq!(
        word_manager.run_word(&mut handler, "g"),
        Err(Error::ForthError(ForthError::InvalidWord))
    );
}

#[test]
fn nested_conditionals_pick_the_right_branches() {
    let mut word_manager = WordDefinitionManager::new();
    let mut handler = ExecutionHandler::new(None, None);
    // if if 1 else 2 then else drop 3 then 9
    let word = vec![
        Instruction::DefinitionType(DefinitionType::If),
        Instruction::DefinitionType(DefinitionType::If),
        Instruction::Number(1),
        Instruction::DefinitionType(DefinitionType::Else),
        Instruction::Number(2),
        Instruction::DefinitionType(DefinitionType::Then),
        Instruction::DefinitionType(DefinitionType::Else),
        Instruction::Number(3),
        Instruction::DefinitionType(DefinitionType::Then),
        Instruction::Number(9),
        Instruction::EndDefinition,
    ];
    let _ = word_manager.define_new_word(WordType::UserDefined("f".to_string()), word);
    let _ = handler.handle_push_element(0);
    let _ = handler.handle_push_element(-1);
    assert_eq!(word_manager.run_word(&mut handler, "f"), Ok(()));
    assert_eq!(handler.handle_get_stack_content(), &vec![2, 9]);
    let _ = handler.handle_drop_element();
    let _ = handler.handle_drop_element();
    let _ = handler.handle_push_element(0);
    assert_eq!(word_manager.run_word(&mut handler, "f"), Ok(()));
    assert_eq!(handler.handle_get_stack_content(), &vec![3, 9]);
}
