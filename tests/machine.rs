use rowdy::bytecode::{Bytecode, Instruction};
use rowdy::compiler::{compile, CompileError};
use rowdy::interpreter::{interpret_bytecode, Interpreter, ARITHMETIC_FAULT, STACK_UNDERFLOW, SUCCESS};

fn bytecode_of(instructions: &[Instruction]) -> Bytecode {
    let mut b = Bytecode::new();
    for i in instructions {
        b.push(*i);
    }
    b
}

fn decoded(b: &Bytecode) -> Vec<Instruction> {
    let mut it = b.iter();
    let mut out = Vec::new();
    while let Some(i) = it.next() {
        out.push(i);
    }
    out
}

fn run(instructions: &[Instruction]) -> (i32, Vec<i32>) {
    let mut m = Interpreter::new(bytecode_of(instructions));
    let status = m.run();
    (status, m.stack().clone())
}

#[test]
fn bytecode_round_trip() {
    let program = [Instruction::Push(7), Instruction::Push(3), Instruction::Add, Instruction::Pop];
    let b = bytecode_of(&program);
    assert_eq!(decoded(&b), program.to_vec());
    assert_eq!(b.len(), 12);
}

#[test]
fn negative_and_extreme_payloads_survive() {
    let program = [
        Instruction::Push(-1),
        Instruction::Push(i32::MIN),
        Instruction::Push(i32::MAX),
        Instruction::Mul,
        Instruction::Sub,
        Instruction::Div,
    ];
    assert_eq!(decoded(&bytecode_of(&program)), program.to_vec());
}

#[test]
fn empty_bytecode_has_no_instructions() {
    let b = Bytecode::new();
    assert_eq!(b.len(), 0);
    assert!(decoded(&b).is_empty());
}

#[test]
fn subtraction_takes_first_popped_minus_second() {
    assert_eq!(
        run(&[Instruction::Push(2), Instruction::Push(3), Instruction::Sub]),
        (SUCCESS, vec![1])
    );
}

#[test]
fn pop_on_empty_stack_is_underflow() {
    assert_eq!(run(&[Instruction::Pop]), (STACK_UNDERFLOW, vec![]));
    assert_eq!(interpret_bytecode(bytecode_of(&[Instruction::Pop])), STACK_UNDERFLOW);
}

#[test]
fn arithmetic_with_one_operand_is_underflow() {
    assert_eq!(run(&[Instruction::Push(1), Instruction::Add]), (STACK_UNDERFLOW, vec![1]));
}

#[test]
fn division_by_zero_and_overflow_fault() {
    assert_eq!(
        run(&[Instruction::Push(0), Instruction::Push(6), Instruction::Div]),
        (ARITHMETIC_FAULT, vec![0, 6])
    );
    assert_eq!(
        run(&[Instruction::Push(1), Instruction::Push(i32::MAX), Instruction::Add]),
        (ARITHMETIC_FAULT, vec![1, i32::MAX])
    );
}

#[test]
fn arithmetic_results() {
    assert_eq!(
        run(&[Instruction::Push(4), Instruction::Push(5), Instruction::Mul]),
        (SUCCESS, vec![20])
    );
    assert_eq!(
        run(&[Instruction::Push(2), Instruction::Push(7), Instruction::Div]),
        (SUCCESS, vec![3])
    );
    assert_eq!(
        run(&[Instruction::Push(2), Instruction::Push(-7), Instruction::Div]),
        (SUCCESS, vec![-3])
    );
    assert_eq!(
        run(&[Instruction::Push(2), Instruction::Push(3), Instruction::Add, Instruction::Pop]),
        (SUCCESS, vec![])
    );
}

#[test]
fn compiles_and_runs_a_program() {
    let b = compile("int main() { int x = 5; int y = 7; }").unwrap();
    assert_eq!(decoded(&b), vec![Instruction::Push(5), Instruction::Push(7)]);
    let mut m = Interpreter::new(b);
    assert_eq!(m.run(), SUCCESS);
    assert_eq!(m.stack().clone(), vec![5, 7]);
}

#[test]
fn type_errors_stop_compilation() {
    match compile("int main() { int x = 5.0; }") {
        Err(CompileError::TypeErrors(ds)) => assert_eq!(ds.len(), 1),
        other => panic!("unexpected {:?}", other.map(|_| ())),
    }
}

#[test]
fn each_stage_reports_its_error() {
    assert!(matches!(compile("int main() { # }"), Err(CompileError::Lex(_))));
    assert!(matches!(compile("int main("), Err(CompileError::Parse(_))));
    assert!(matches!(compile("int main() { int x = y; }"), Err(CompileError::Check(_))));
    assert!(matches!(compile(""), Err(CompileError::Codegen(_))));
    assert!(matches!(compile("int main() { int x; }"), Err(CompileError::Codegen(_))));
}
