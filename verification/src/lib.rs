//! A compiler and execution engine for a minimal eight-symbol stack-tape
//! language.
//!
//! The compiler turns a token stream into a compact linear bytecode with
//! resolved jump addresses; the engine executes that bytecode against a
//! growable, zero-initialized byte tape, consuming input bytes and producing
//! output bytes. Both are specified against a small-step abstract machine and
//! a functional model of compilation, and verified against those models.

use vstd::prelude::*;

pub mod bytecode;
pub mod bytes;
pub mod compiler;
pub mod interpreter;
pub mod laws;
pub mod lex;
pub mod machine;

use crate::compiler::{compilation_of, compile, CompileError};
use crate::interpreter::Interpreter;
use crate::lex::{token_of, Lexer};
use crate::machine::{init_state, steps, RunError, Status};

verus! {

/// Why an end-to-end interpretation did not return output.
#[derive(Debug, Copy, Clone, PartialEq, Eq, Structural)]
pub enum InterpretError {
    /// The source did not compile.
    Compile(CompileError),
    /// The program aborted while running.
    Run(RunError),
    /// The program had not halted after the given number of machine steps.
    OutOfSteps,
}

/// Compiles `source` and, when compilation succeeds, runs the bytecode with
/// `input` as the bytes the input capability yields, for at most `max_steps`
/// machine steps. Returns the program's whole output on a normal halt.
pub fn interpret(source: Vec<u8>, input: Vec<u8>, max_steps: u64) -> (r: Result<
    Vec<u8>,
    InterpretError,
>)
    ensures
        ({
            let c = compilation_of(source@.map_values(|b: u8| token_of(b)));
            match c {
                Ok(b) => ({
                    let fin = steps(b, init_state(input@), max_steps as nat);
                    match fin.status {
                        Status::Halted => r matches Ok(out) && out@ == fin.output,
                        Status::Failed(e) => r == Err::<Vec<u8>, InterpretError>(
                            InterpretError::Run(e),
                        ),
                        Status::Running => r == Err::<Vec<u8>, InterpretError>(
                            InterpretError::OutOfSteps,
                        ),
                    }
                }),
                Err(e) => r == Err::<Vec<u8>, InterpretError>(InterpretError::Compile(e)),
            }
        }),
        r != Err::<Vec<u8>, InterpretError>(InterpretError::Run(RunError::InvalidInstruction)),
{
    let lexer = Lexer(source);
    let bc = match compile(lexer) {
        Ok(bc) => bc,
        Err(e) => {
            return Err(InterpretError::Compile(e));
        },
    };
    proof {
        crate::bytecode::lemma_wf_bytecode_no_invalid(bc@, input@, max_steps as nat);
    }
    let mut engine = Interpreter(bc, input);
    let status = engine.run(max_steps);
    match status {
        Status::Halted => Ok(engine.out),
        Status::Failed(e) => Err(InterpretError::Run(e)),
        Status::Running => Err(InterpretError::OutOfSteps),
    }
}

} // verus!
