use rust_forth::forth::intruction::Instruction;
use rust_forth::handler::instructions_handler::ExecutionHandler;
use rust_forth::stack::stack_operations::{DROP, DUP, OVER, ROT, SWAP};

#[test]
fn test_handle_push_element() {
    let mut handler = ExecutionHandler::new(None, None);
    let element = Instruction::Number(5);
    let expected_result = vec![5];

    handler.handle_instruction(&element).unwrap();

    assert_eq!(handler.handle_get_stack_content(), &expected_result);
}

#[test]
fn test_handle_calculate() {
    let mut handler = ExecutionHandler::new(None, None);
    let expected_result = vec![8];

    handler.handle_push_element(5).unwrap();
    handler.handle_push_element(3).unwrap();

    handler.handle_calculate("+").unwrap();

    assert_eq!(handler.handle_get_stack_content(), &expected_result);
}

#[test]
fn test_handle_manipulate_stack() {
    let mut handler = ExecutionHandler::new(None, None);
    let instructions: Vec<Instruction> = vec![
        Instruction::number(2),
        Instruction::number(4),
        Instruction::stack_word(DUP),
        Instruction::stack_word(ROT),
        Instruction::stack_word(OVER),
        Instruction::stack_word(SWAP),
        Instruction::stack_word(DROP),
    ];
    let expected_result = vec![4, 4, 4];

    for instruction in instructions {
        handler.handle_instruction(&instruction).unwrap();
    }

    assert_eq!(handler.handle_get_stack_content(), &expected_result);
}
