//! The small-step abstract machine that gives the bytecode its meaning.
//!
//! One [`step`] reads the instruction under the cursor and transforms the
//! whole machine state; [`steps`] iterates it. The execution engine is proved
//! to agree with this machine, step for step.

use vstd::prelude::*;

use crate::bytes::le4_val;
use crate::compiler::Inst;

verus! {

/// Why a run aborted.
#[derive(Debug, Copy, Clone, PartialEq, Eq, Structural)]
pub enum RunError {
    /// The data pointer would have moved below cell zero.
    PointerUnderflow,
    /// The data pointer would have moved beyond the machine's addressable
    /// range.
    PointerOverflow,
    /// One more input byte was demanded after the input was exhausted.
    InputExhausted,
    /// The cursor left the bytecode buffer, met a byte that encodes no
    /// instruction, or met a jump whose address field is truncated.
    InvalidInstruction,
}

/// Where a machine stands: still running, halted normally, or aborted.
#[derive(Debug, Copy, Clone, PartialEq, Eq, Structural)]
pub enum Status {
    Running,
    Halted,
    Failed(RunError),
}

/// The state of the abstract machine: a cursor into the bytecode, a data
/// pointer into the tape, the tape itself, the input not yet consumed, and
/// the output produced so far.
#[verifier::ext_equal]
pub struct MState {
    pub cursor: int,
    pub ptr: int,
    pub tape: Seq<u8>,
    pub input: Seq<u8>,
    pub output: Seq<u8>,
    pub status: Status,
}

/// `m` with its status replaced.
pub open spec fn with_status(m: MState, st: Status) -> MState {
    MState {
        cursor: m.cursor,
        ptr: m.ptr,
        tape: m.tape,
        input: m.input,
        output: m.output,
        status: st,
    }
}

/// `m` aborted with error `e`; everything else untouched.
pub open spec fn failed(m: MState, e: RunError) -> MState {
    with_status(m, Status::Failed(e))
}

/// The machine about to execute the first instruction: everything at zero,
/// the tape empty, `input` waiting.
pub open spec fn init_state(input: Seq<u8>) -> MState {
    MState {
        cursor: 0,
        ptr: 0,
        tape: Seq::empty(),
        input: input,
        output: Seq::empty(),
        status: Status::Running,
    }
}

/// The tape grown (lazily, zero-filled) so that cell `p` exists.
pub open spec fn grow(tape: Seq<u8>, p: int) -> Seq<u8> {
    if p < tape.len() {
        tape
    } else {
        tape + Seq::new((p + 1 - tape.len()) as nat, |i: int| 0u8)
    }
}

/// A cell value incremented, wrapping modulo 256.
pub open spec fn byte_inc(b: u8) -> u8 {
    if b == 255 {
        0
    } else {
        (b + 1) as u8
    }
}

/// A cell value decremented, wrapping modulo 256.
pub open spec fn byte_dec(b: u8) -> u8 {
    if b == 0 {
        255
    } else {
        (b - 1) as u8
    }
}

/// One step of the machine over bytecode `bc`: a terminal state is a fixed
/// point; otherwise the instruction under the cursor is decoded and executed.
pub open spec fn step(bc: Seq<u8>, s: MState) -> MState {
    if s.status != Status::Running {
        s
    } else if !(0 <= s.cursor < bc.len()) {
        failed(s, RunError::InvalidInstruction)
    } else {
        match Inst::of_opcode(bc[s.cursor]) {
            None => failed(s, RunError::InvalidInstruction),
            Some(i) => match i {
                Inst::IncPtr => {
                    if s.ptr == usize::MAX as int {
                        failed(s, RunError::PointerOverflow)
                    } else {
                        MState { cursor: s.cursor + 1, ptr: s.ptr + 1, ..s }
                    }
                },
                Inst::DecPtr => {
                    if s.ptr == 0 {
                        failed(s, RunError::PointerUnderflow)
                    } else {
                        MState { cursor: s.cursor + 1, ptr: s.ptr - 1, ..s }
                    }
                },
                Inst::Inc => {
                    let t = grow(s.tape, s.ptr);
                    MState { cursor: s.cursor + 1, tape: t.update(s.ptr, byte_inc(t[s.ptr])), ..s }
                },
                Inst::Dec => {
                    let t = grow(s.tape, s.ptr);
                    MState { cursor: s.cursor + 1, tape: t.update(s.ptr, byte_dec(t[s.ptr])), ..s }
                },
                Inst::Out => {
                    let t = grow(s.tape, s.ptr);
                    MState { cursor: s.cursor + 1, tape: t, output: s.output.push(t[s.ptr]), ..s }
                },
                Inst::Inp => {
                    if s.input.len() == 0 {
                        failed(s, RunError::InputExhausted)
                    } else {
                        let t = grow(s.tape, s.ptr);
                        MState {
                            cursor: s.cursor + 1,
                            tape: t.update(s.ptr, s.input[0]),
                            input: s.input.skip(1),
                            ..s
                        }
                    }
                },
                Inst::Jz => {
                    if s.cursor + 5 > bc.len() {
                        failed(s, RunError::InvalidInstruction)
                    } else {
                        let t = grow(s.tape, s.ptr);
                        let target = le4_val(
                            bc[s.cursor + 1],
                            bc[s.cursor + 2],
                            bc[s.cursor + 3],
                            bc[s.cursor + 4],
                        ) as int;
                        MState {
                            cursor: if t[s.ptr] == 0 {
                                target
                            } else {
                                s.cursor + 5
                            },
                            tape: t,
                            ..s
                        }
                    }
                },
                Inst::Jnz => {
                    if s.cursor + 5 > bc.len() {
                        failed(s, RunError::InvalidInstruction)
                    } else {
                        let t = grow(s.tape, s.ptr);
                        let target = le4_val(
                            bc[s.cursor + 1],
                            bc[s.cursor + 2],
                            bc[s.cursor + 3],
                            bc[s.cursor + 4],
                        ) as int;
                        MState {
                            cursor: if t[s.ptr] != 0 {
                                target
                            } else {
                                s.cursor + 5
                            },
                            tape: t,
                            ..s
                        }
                    }
                },
                Inst::Halt => with_status(s, Status::Halted),
            },
        }
    }
}

/// The machine after `n` steps.
pub open spec fn steps(bc: Seq<u8>, s: MState, n: nat) -> MState
    decreases n,
{
    if n == 0 {
        s
    } else {
        step(bc, steps(bc, s, (n - 1) as nat))
    }
}

/// A terminal state is a fixed point of stepping.
pub proof fn lemma_steps_terminal(bc: Seq<u8>, s: MState, n: nat)
    requires
        s.status != Status::Running,
    ensures
        steps(bc, s, n) == s,
    decreases n,
{
    if n > 0 {
        lemma_steps_terminal(bc, s, (n - 1) as nat);
    }
}

/// Stepping composes: `m` steps and then `n` more are `m + n` steps.
pub proof fn lemma_steps_add(bc: Seq<u8>, s: MState, m: nat, n: nat)
    ensures
        steps(bc, s, m + n) == steps(bc, steps(bc, s, m), n),
    decreases n,
{
    if n > 0 {
        lemma_steps_add(bc, s, m, (n - 1) as nat);
    }
}

/// The value of tape cell `i`, zero where the tape has not grown that far.
pub open spec fn cell_at(tape: Seq<u8>, i: int) -> u8 {
    if 0 <= i < tape.len() {
        tape[i]
    } else {
        0
    }
}

} // verus!
