use rlox::common::InterpretResult;
use rlox::value::Value;
use rlox::vm::{init_vm, Interpreter};

fn number(source: &str, value: &Value) -> f64 {
    match value {
        Value::Zero => 0.0,
        Value::Literal { start, length } => source[*start..*start + *length].parse::<f64>().unwrap(),
        Value::Negate(a) => -number(source, a),
        Value::Add(a, b) => number(source, a) + number(source, b),
        Value::Subtract(a, b) => number(source, a) - number(source, b),
        Value::Multiply(a, b) => number(source, a) * number(source, b),
        Value::Divide(a, b) => number(source, a) / number(source, b),
    }
}

fn run(source: &str) -> (InterpretResult, Option<f64>) {
    let mut vm = init_vm();
    let result = vm.interpret(source.to_string(), false);
    let printed = vm.printed().as_ref().map(|value| number(source, value));
    (result, printed)
}

#[test]
fn interprets_a_single_number() {
    assert_eq!(run("1"), (InterpretResult::InterpretOk, Some(1.0)));
}

#[test]
fn grouping_binds_before_multiplication() {
    assert_eq!(run("(1 + 2) * 3"), (InterpretResult::InterpretOk, Some(9.0)));
}

#[test]
fn unary_binds_tighter_than_addition() {
    assert_eq!(run("-2 + 3"), (InterpretResult::InterpretOk, Some(1.0)));
}

#[test]
fn factor_binds_tighter_than_term() {
    assert_eq!(run("1 + 2 * 3"), (InterpretResult::InterpretOk, Some(7.0)));
}

#[test]
fn open_group_is_a_compile_error() {
    assert_eq!(run("("), (InterpretResult::InterpretCompilerError, None));
}

#[test]
fn missing_operand_is_a_compile_error() {
    assert_eq!(run("1 +"), (InterpretResult::InterpretCompilerError, None));
}

#[test]
fn empty_source_is_a_compile_error() {
    assert_eq!(run(""), (InterpretResult::InterpretCompilerError, None));
    assert_eq!(run("  // nothing\n"), (InterpretResult::InterpretCompilerError, None));
}

#[test]
fn error_token_after_the_expression_is_a_compile_error() {
    assert_eq!(run("1 @"), (InterpretResult::InterpretCompilerError, None));
    assert_eq!(run("1 \"open"), (InterpretResult::InterpretCompilerError, None));
}

#[test]
fn operators_of_one_level_group_to_the_left() {
    assert_eq!(run("2 - 3 - 4"), (InterpretResult::InterpretOk, Some(-5.0)));
    assert_eq!(run("8 / 4 / 2"), (InterpretResult::InterpretOk, Some(1.0)));
    assert_eq!(run("2 - (3 - 4)"), (InterpretResult::InterpretOk, Some(3.0)));
}

#[test]
fn fractions_are_read_as_decimals() {
    assert_eq!(run("1.5 * 2"), (InterpretResult::InterpretOk, Some(3.0)));
    assert_eq!(run("0.1 + 0.2"), (InterpretResult::InterpretOk, Some(0.1 + 0.2)));
    assert_eq!(run("007"), (InterpretResult::InterpretOk, Some(7.0)));
}

#[test]
fn nested_negations_and_groups() {
    assert_eq!(run("--3"), (InterpretResult::InterpretOk, Some(3.0)));
    assert_eq!(run("-(-(1 + 2)) * -((3))"), (InterpretResult::InterpretOk, Some(-9.0)));
    assert_eq!(run("1 - -1"), (InterpretResult::InterpretOk, Some(2.0)));
}

#[test]
fn division_by_zero_is_no_error() {
    assert_eq!(run("1 / 0"), (InterpretResult::InterpretOk, Some(f64::INFINITY)));
    assert_eq!(run("-1 / 0"), (InterpretResult::InterpretOk, Some(f64::NEG_INFINITY)));
    let (result, printed) = run("0 / 0");
    assert_eq!(result, InterpretResult::InterpretOk);
    assert!(printed.unwrap().is_nan());
}

#[test]
fn comments_and_lines_do_not_change_the_result() {
    assert_eq!(
        run("1 + // one\n 2 * // two\n\t3 // three"),
        (InterpretResult::InterpretOk, Some(7.0))
    );
}
