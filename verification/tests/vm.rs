use rlox::common::InterpretResult;
use rlox::value::Value;
use rlox::vm::{init_vm, Interpreter};

fn literal(start: usize, length: usize) -> Value {
    Value::Literal { start, length }
}

#[test]
fn machine_with_nothing_loaded_has_no_instruction_to_run() {
    let mut vm = init_vm();
    assert_eq!(vm.run(false), InterpretResult::InterpretRuntimeError);
    assert_eq!(*vm.printed(), None);
    assert!(vm.trace().is_empty());
    assert!(vm.chunk().code.is_empty());
}

#[test]
fn subtraction_pops_the_right_operand_first() {
    let mut vm = init_vm();
    assert_eq!(vm.interpret("7 - 2".to_string(), false), InterpretResult::InterpretOk);
    assert_eq!(
        *vm.printed(),
        Some(Value::Subtract(Box::new(literal(0, 1)), Box::new(literal(4, 1))))
    );
}

#[test]
fn division_pops_the_right_operand_first() {
    let mut vm = init_vm();
    assert_eq!(vm.interpret("1 / 0".to_string(), false), InterpretResult::InterpretOk);
    assert_eq!(
        *vm.printed(),
        Some(Value::Divide(Box::new(literal(0, 1)), Box::new(literal(4, 1))))
    );
}

#[test]
fn result_is_the_expression_by_precedence() {
    let mut vm = init_vm();
    assert_eq!(vm.interpret("-(1.5 + 2) * 3".to_string(), false), InterpretResult::InterpretOk);
    assert_eq!(
        *vm.printed(),
        Some(Value::Multiply(
            Box::new(Value::Negate(Box::new(Value::Add(
                Box::new(literal(2, 3)),
                Box::new(literal(8, 1)),
            )))),
            Box::new(literal(13, 1)),
        ))
    );
}

#[test]
fn return_on_an_empty_stack_hands_out_zero() {
    let mut vm = init_vm();
    assert_eq!(vm.interpret("4".to_string(), false), InterpretResult::InterpretOk);
    assert_eq!(*vm.printed(), Some(literal(0, 1)));
    assert_eq!(vm.run(false), InterpretResult::InterpretOk);
    assert_eq!(*vm.printed(), Some(Value::Zero));
}

#[test]
fn trace_lists_each_instruction_once() {
    let mut vm = init_vm();
    assert_eq!(vm.interpret("1 + -2".to_string(), true), InterpretResult::InterpretOk);
    assert_eq!(vm.chunk().code, vec![6, 0, 6, 1, 1, 2, 0]);
    assert_eq!(*vm.trace(), vec![0, 2, 4, 5, 6]);
}

#[test]
fn no_trace_unless_asked() {
    let mut vm = init_vm();
    assert_eq!(vm.interpret("1 + 2".to_string(), false), InterpretResult::InterpretOk);
    assert!(vm.trace().is_empty());
}

#[test]
fn failed_compile_is_not_run() {
    let mut vm = init_vm();
    assert_eq!(vm.interpret("1 +".to_string(), true), InterpretResult::InterpretCompilerError);
    assert_eq!(*vm.printed(), None);
    assert!(vm.trace().is_empty());
    assert_eq!(vm.diagnostics().len(), 1);
    assert_eq!(vm.diagnostics()[0].message, "Expect expression.");
}

#[test]
fn each_interpretation_starts_afresh() {
    let mut vm = init_vm();
    assert_eq!(vm.interpret("(".to_string(), false), InterpretResult::InterpretCompilerError);
    assert_eq!(vm.interpret("2 * 3".to_string(), true), InterpretResult::InterpretOk);
    assert!(vm.diagnostics().is_empty());
    assert_eq!(*vm.trace(), vec![0, 2, 4, 5]);
    assert_eq!(
        *vm.printed(),
        Some(Value::Multiply(Box::new(literal(0, 1)), Box::new(literal(4, 1))))
    );
    assert_eq!(vm.interpret("".to_string(), false), InterpretResult::InterpretCompilerError);
    assert_eq!(*vm.printed(), None);
}
