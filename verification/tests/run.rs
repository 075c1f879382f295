//! Tests of the execution engine and of end-to-end interpretation.

use bfvm::compiler::compile;
use bfvm::interpreter::Interpreter;
use bfvm::lex::Lexer;
use bfvm::machine::{RunError, Status};
use bfvm::{interpret, InterpretError};

const PLENTY: u64 = 1 << 40;

fn engine_for(src: &str, input: &[u8]) -> Interpreter {
    let bc = compile(Lexer(src.as_bytes().to_vec())).unwrap();
    Interpreter(bc, input.to_vec())
}

#[test]
fn three_increments_output_three() {
    let out = interpret(b"+++.".to_vec(), vec![], PLENTY).unwrap();
    assert_eq!(out, vec![3]);
}

#[test]
fn decrement_from_zero_wraps_to_255() {
    let mut e = engine_for("-", &[]);
    assert_eq!(e.run(PLENTY), Status::Halted);
    assert_eq!(e.cell(0), 255);
}

#[test]
fn increment_256_times_wraps_back_to_zero() {
    let src = "+".repeat(256);
    let mut e = engine_for(&src, &[]);
    assert_eq!(e.run(PLENTY), Status::Halted);
    assert_eq!(e.cell(0), 0);
}

#[test]
fn echo_loop_outputs_input_then_faults_on_exhaustion() {
    let mut e = engine_for(",[.,]", b"AB");
    assert_eq!(e.run(PLENTY), Status::Failed(RunError::InputExhausted));
    assert_eq!(e.output(), b"AB");
}

#[test]
fn input_bytes_reach_the_tape() {
    let out = interpret(b",+.".to_vec(), vec![65], PLENTY).unwrap();
    assert_eq!(out, vec![66]);
}

#[test]
fn millions_of_iterations_complete() {
    // Three nested countdown loops of 100 iterations each: the innermost
    // body runs a million times, all within one flat dispatch loop.
    let hundred = "+".repeat(100);
    let src = format!("{hundred}[>{hundred}[>{hundred}[-]<-]<-].");
    let out = interpret(src.into_bytes(), vec![], PLENTY).unwrap();
    assert_eq!(out, vec![0]);
}

#[test]
fn pointer_underflow_is_a_fault() {
    let mut e = engine_for("<", &[]);
    assert_eq!(e.run(PLENTY), Status::Failed(RunError::PointerUnderflow));
}

#[test]
fn unknown_opcode_is_a_fault() {
    let mut e = Interpreter(vec![99], vec![]);
    assert_eq!(e.run(PLENTY), Status::Failed(RunError::InvalidInstruction));
}

#[test]
fn truncated_jump_is_a_fault() {
    // A jump-if-zero opcode with only two of its four address bytes.
    let mut e = Interpreter(vec![6, 0, 0], vec![]);
    assert_eq!(e.run(PLENTY), Status::Failed(RunError::InvalidInstruction));
}

#[test]
fn running_off_the_buffer_is_a_fault() {
    // No halt instruction at the end of this hand-made buffer.
    let mut e = Interpreter(vec![2, 2], vec![]);
    assert_eq!(e.run(PLENTY), Status::Failed(RunError::InvalidInstruction));
}

#[test]
fn empty_budget_leaves_the_machine_running() {
    let mut e = engine_for("+", &[]);
    assert_eq!(e.run(0), Status::Running);
    assert_eq!(e.run(PLENTY), Status::Halted);
    assert_eq!(e.cell(0), 1);
}

#[test]
fn nonterminating_program_runs_out_of_steps() {
    let r = interpret(b"+[]".to_vec(), vec![], 1000);
    assert_eq!(r, Err(InterpretError::OutOfSteps));
}

#[test]
fn loop_skipped_when_cell_is_zero() {
    let out = interpret(b"[+++].".to_vec(), vec![], PLENTY).unwrap();
    assert_eq!(out, vec![0]);
}

#[test]
fn moving_right_reaches_fresh_zero_cells() {
    let out = interpret(b"++>.".to_vec(), vec![], PLENTY).unwrap();
    assert_eq!(out, vec![0]);
}

#[test]
fn interpret_reports_compile_errors() {
    let r = interpret(b"][".to_vec(), vec![], PLENTY);
    assert_eq!(
        r,
        Err(InterpretError::Compile(
            bfvm::compiler::CompileError::UnmatchedLoopEnd
        ))
    );
    let r = interpret(b"[".to_vec(), vec![], PLENTY);
    assert_eq!(
        r,
        Err(InterpretError::Compile(
            bfvm::compiler::CompileError::UnmatchedLoopStart
        ))
    );
}

#[test]
fn interpret_reports_runtime_faults() {
    let r = interpret(b",".to_vec(), vec![], PLENTY);
    assert_eq!(r, Err(InterpretError::Run(RunError::InputExhausted)));
}
