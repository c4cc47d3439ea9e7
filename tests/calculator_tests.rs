use rust_forth::calculator::calculator::Calculator;
use rust_forth::calculator::calculator_errors::CalculatorError;
use rust_forth::errors::Error;

#[test]
fn a_calculator_can_add_correctly() {
    let calculator = Calculator::new();
    let n1 = 2;
    let n2 = 4;
    let expected_result = 6;

    let result = calculator.add(n1, n2);

    assert_eq!(result, expected_result);
}

#[test]
fn a_calculator_can_subtract_correctly() {
    let calculator = Calculator::new();
    let n1 = 4;
    let n2 = 2;
    let expected_result = 2;

    let result = calculator.subtract(n1, n2);

    assert_eq!(result, expected_result);
}

#[test]
fn a_calculator_can_multiply_correctly() {
    let calculator = Calculator::new();
    let n1 = 4;
    let n2 = 2;
    let expected_result = 8;

    let result = calculator.multiply(n1, n2);

    assert_eq!(result, expected_result);
}

#[test]
fn a_calculator_can_divide_correctly() {
    let calculator = Calculator::new();
    let n1 = 4;
    let n2 = 2;
    let expected_result = Ok(2);

    let result = calculator.divide(n1, n2);

    assert_eq!(result, expected_result);
}

#[test]
fn try_divide_by_zero_should_give_error() {
    let calculator = Calculator::new();
    let n1 = 4;
    let n2 = 0;
    let expected_result = Err(CalculatorError::DivisionByZero.into());

    let result = calculator.divide(n1, n2);

    assert_eq!(result, expected_result);
}

#[test]
fn a_calculator_sould_be_able_to_correctly_perform_the_request_operations() {
    let calculator = Calculator::new();
    let n1 = 4;
    let n2 = 2;
    let expected_addition_result = Ok(6);
    let expected_subtraction_result = Ok(2);
    let expected_multiplication_result = Ok(8);
    let expected_division_result = Ok(2);

    let addition_result = calculator.calculate(n1, n2, "+");
    let subtraction_result = calculator.calculate(n1, n2, "-");
    let multiplication_result = calculator.calculate(n1, n2, "*");
    let division_result = calculator.calculate(n1, n2, "/");

    assert_eq!(addition_result, expected_addition_result);
    assert_eq!(subtraction_result, expected_subtraction_result);
    assert_eq!(multiplication_result, expected_multiplication_result);
    assert_eq!(division_result, expected_division_result);
}

#[test]
fn division_truncates_toward_zero() {
    let calculator = Calculator::new();
    assert_eq!(calculator.calculate(-7, 2, "/"), Ok(-3));
    assert_eq!(calculator.calculate(7, -2, "/"), Ok(-3));
    assert_eq!(calculator.calculate(-7, -2, "/"), Ok(3));
}

#[test]
fn arithmetic_wraps_around_on_overflow() {
    let calculator = Calculator::new();
    assert_eq!(calculator.calculate(32767, 1, "+"), Ok(-32768));
    assert_eq!(calculator.calculate(-32768, 1, "-"), Ok(32767));
    assert_eq!(calculator.calculate(300, 300, "*"), Ok(24464));
    assert_eq!(calculator.calculate(-32768, -1, "/"), Ok(-32768));
}

#[test]
fn unknown_operator_is_undefined() {
    let calculator = Calculator::new();
    assert_eq!(
        calculator.calculate(1, 2, "%"),
        Err(Error::CalculatorError(CalculatorError::UndefinedOperation))
    );
    assert_eq!(
        calculator.calculate(1, 2, "++"),
        Err(Error::CalculatorError(CalculatorError::UndefinedOperation))
    );
}
