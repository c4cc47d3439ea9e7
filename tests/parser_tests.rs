use rust_forth::errors::Error;
use rust_forth::forth::boolean_operations::{AND, LESS_THAN};
use rust_forth::forth::definition_type::{DefinitionType, ELSE, IF, THEN};
use rust_forth::forth::intruction::Instruction;
use rust_forth::forth::output_instructions::{OutputInstruction, CR, DOT, EMIT};
use rust_forth::forth::parser::Parser;
use rust_forth::forth::word::WordDefinitionManager;
use rust_forth::stack::stack_operations::{DROP, DUP, OVER, ROT, SWAP};

#[test]
fn can_parse_simple_instructions() {
    let parser = Parser::new();
    let word_manager = WordDefinitionManager::new();
    let input = String::from("1 2 +");
    let expected_result = vec![
        Instruction::number(1),
        Instruction::number(2),
        Instruction::operator("+".to_string()),
    ];

    let result = parser.parse_instructions(input, &word_manager);

    assert_eq!(result, expected_result);
}

#[test]
fn can_parse_logical_instructions() {
    let parser = Parser::new();
    let word_manager = WordDefinitionManager::new();
    let input = String::from("1 2 <");
    let expected_result = vec![
        Instruction::number(1),
        Instruction::number(2),
        Instruction::logical_operation(LESS_THAN),
    ];

    let result = parser.parse_instructions(input, &word_manager);

    assert_eq!(result, expected_result);
}

#[test]
fn can_parse_boolean_instructions() {
    let parser = Parser::new();
    let word_manager = WordDefinitionManager::new();
    let input = String::from("3 4 < 20 30 < AND");
    let expected_result = vec![
        Instruction::number(3),
        Instruction::number(4),
        Instruction::logical_operation(LESS_THAN),
        Instruction::number(20),
        Instruction::number(30),
        Instruction::logical_operation(LESS_THAN),
        Instruction::boolean_operation(AND),
    ];

    let result = parser.parse_instructions(input, &word_manager);

    assert_eq!(result, expected_result);
}

#[test]
fn can_parse_intruction_that_manipulate_the_stack() {
    let parser = Parser::new();
    let word_manager = WordDefinitionManager::new();
    let input = String::from("1 2 3 DROP DUP SWAP");
    let expected_result = vec![
        Instruction::number(1),
        Instruction::number(2),
        Instruction::number(3),
        Instruction::stack_word(DROP),
        Instruction::stack_word(DUP),
        Instruction::stack_word(SWAP),
    ];

    let result = parser.parse_instructions(input, &word_manager);

    assert_eq!(result, expected_result);
}

#[test]
fn can_parse_defined_words() {
    let parser = Parser::new();
    let word_manager = WordDefinitionManager::new();
    let input = String::from("AWORD *WORD*");
    let expected_result = vec![
        Instruction::definition_type(DefinitionType::name("aword".to_string())),
        Instruction::definition_type(DefinitionType::name("*word*".to_string())),
    ];

    let result = parser.parse_instructions(input, &word_manager);

    assert_eq!(result, expected_result);
}

#[test]
fn can_parse_definitions() {
    let parser = Parser::new();
    let word_manager = WordDefinitionManager::new();
    let input = String::from(": NEGATE -1 * ;");
    let expected_result = vec![
        Instruction::start_definition(),
        Instruction::definition_type(DefinitionType::name("negate".to_string())),
        Instruction::number(-1),
        Instruction::operator(String::from("*")),
        Instruction::end_definition(),
    ];

    let result = parser.parse_instructions(input, &word_manager);

    assert_eq!(result, expected_result);
}

#[test]
fn can_parse_mixed_case_instructions() {
    let parser = Parser::new();
    let word_manager = WordDefinitionManager::new();
    let input = String::from("1 2 and Dup DroP");
    let expected_result = vec![
        Instruction::number(1),
        Instruction::number(2),
        Instruction::boolean_operation(AND),
        Instruction::stack_word(DUP),
        Instruction::stack_word(DROP),
    ];

    let result = parser.parse_instructions(input, &word_manager);

    assert_eq!(result, expected_result);
}

#[test]
fn can_parse_ouput_generator_intruction() {
    let parser = Parser::new();
    let word_manager = WordDefinitionManager::new();
    let input = String::from(". emit CR .\" Hello, World!\"");
    let expected_result = vec![
        Instruction::output(DOT),
        Instruction::output(EMIT),
        Instruction::output(CR),
        Instruction::output(OutputInstruction::dot_quote("Hello, World!".to_string())),
    ];

    let result = parser.parse_instructions(input, &word_manager);

    assert_eq!(result, expected_result);
}

#[test]
fn can_parse_definition_with_conditionals() {
    let parser = Parser::new();
    let word_manager = WordDefinitionManager::new();
    let input =
        String::from(": is-negative? 0 < IF .\" Is negative\" ELSE .\" Is positive\" then ;");
    let expected_result = vec![
        Instruction::start_definition(),
        Instruction::definition_type(DefinitionType::name("is-negative?".to_string())),
        Instruction::number(0),
        Instruction::logical_operation(LESS_THAN),
        Instruction::definition_type(IF),
        Instruction::output(OutputInstruction::dot_quote("Is negative".to_string())),
        Instruction::definition_type(ELSE),
        Instruction::output(OutputInstruction::dot_quote("Is positive".to_string())),
        Instruction::definition_type(THEN),
        Instruction::end_definition(),
    ];

    let result = parser.parse_instructions(input, &word_manager);

    assert_eq!(result, expected_result);
}

#[test]
fn can_parse_stack_size() {
    let parser = Parser::new();
    let input = "stack-size=1024";
    let expected_result: usize = 1024;

    let result = parser.parse_stack_size(input);

    assert_eq!(result, Ok(expected_result));
}

#[test]
fn try_parse_invalid_stack_size_shoud_throw_error() {
    let parser = Parser::new();
    let input = "stack-size=1024a";

    let result = parser.parse_stack_size(input);

    assert!(result.is_err());
}

#[test]
fn try_parse_negative_stack_size_shoud_throw_error() {
    let parser = Parser::new();
    let input = "stack-size=-1024";

    let result = parser.parse_stack_size(input);

    assert_eq!(result, Err(Error::InvalidStackSize));
}

#[test]
fn test_case_insensitive_stack_operations() {
    let parser = Parser::new();
    let word_manager = WordDefinitionManager::new();
    let input = String::from("DUP drop swap OVER rOt");
    let expected_result = vec![
        Instruction::stack_word(DUP),
        Instruction::stack_word(DROP),
        Instruction::stack_word(SWAP),
        Instruction::stack_word(OVER),
        Instruction::stack_word(ROT),
    ];

    let result = parser.parse_instructions(input, &word_manager);

    assert_eq!(result, expected_result);
}

#[test]
fn can_parse_definition_with_reserved_words_correctly() {
    let parser = Parser::new();
    let word_manager = WordDefinitionManager::new();
    let input = String::from(": dup-twice dup dup ;");
    let expected_result = vec![
        Instruction::start_definition(),
        Instruction::definition_type(DefinitionType::name("dup-twice".to_string())),
        Instruction::stack_word(DUP),
        Instruction::stack_word(DUP),
        Instruction::end_definition(),
    ];

    let result = parser.parse_instructions(input, &word_manager);

    assert_eq!(result, expected_result);
}

#[test]
fn test_case_insensitive_words() {
    let parser = Parser::new();
    let word_manager = WordDefinitionManager::new();
    let input = String::from("aWord Aword aword");
    let expected_result = vec![
        Instruction::definition_type(DefinitionType::name("aword".to_string())),
        Instruction::definition_type(DefinitionType::name("aword".to_string())),
        Instruction::definition_type(DefinitionType::name("aword".to_string())),
    ];

    let result = parser.parse_instructions(input, &word_manager);

    assert_eq!(result, expected_result);
}

#[test]
fn stack_size_needs_a_positive_number_after_the_key() {
    let parser = Parser::new();
    assert_eq!(parser.parse_stack_size("stack-size=0"), Err(Error::InvalidStackSize));
    assert_eq!(parser.parse_stack_size("stack-size="), Err(Error::InvalidStackSize));
    assert_eq!(parser.parse_stack_size("size=10"), Err(Error::InvalidStackSize));
    assert_eq!(
        parser.parse_stack_size("stack-size=99999999999999999999999"),
        Err(Error::InvalidStackSize)
    );
    assert_eq!(parser.parse_stack_size("stack-size=7"), Ok(7));
}

#[test]
fn quoted_text_keeps_its_case_and_inner_spacing() {
    let parser = Parser::new();
    let word_manager = WordDefinitionManager::new();
    let result = parser.parse_instructions(String::from(".\" Mixed  Case: ok;\" DUP"), &word_manager);
    assert_eq!(
        result,
        vec![
            Instruction::output(OutputInstruction::dot_quote("Mixed  Case: ok;".to_string())),
            Instruction::stack_word(DUP),
        ]
    );
}

#[test]
fn non_ascii_words_are_lowercased() {
    let parser = Parser::new();
    let word_manager = WordDefinitionManager::new();
    let result = parser.parse_instructions(String::from("ÉCRIRE"), &word_manager);
    assert_eq!(
        result,
        vec![Instruction::definition_type(DefinitionType::name("écrire".to_string()))]
    );
}

#[test]
fn numbers_outside_the_value_range_are_words() {
    let parser = Parser::new();
    let word_manager = WordDefinitionManager::new();
    let result = parser.parse_instructions(String::from("-32768 32768"), &word_manager);
    assert_eq!(
        result,
        vec![
            Instruction::number(-32768),
            Instruction::definition_type(DefinitionType::name("32768".to_string())),
        ]
    );
}
