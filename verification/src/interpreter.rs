//! The execution engine: a dispatch loop over the bytecode, proved to agree
//! with the abstract machine of [`crate::machine`] step for step.

use vstd::prelude::*;

use crate::bytes::read_le4;
use crate::compiler::Inst;
use crate::machine::{
    byte_dec, byte_inc, cell_at, failed, grow, init_state, step, steps, with_status,
    lemma_steps_add, lemma_steps_terminal, MState, RunError, Status,
};

verus! {

/// The execution engine: an immutable bytecode buffer, a cursor into it, a
/// growable zero-initialized data tape with a data pointer, the input bytes
/// not yet consumed, and the output bytes produced so far.
pub struct Interpreter {
    pub bc: Vec<u8>,
    pub cursor: usize,
    pub data: Vec<u8>,
    pub ptr: usize,
    pub input: Vec<u8>,
    pub in_pos: usize,
    pub out: Vec<u8>,
}

impl Interpreter {
    /// The consumed prefix of the input never outruns the input itself.
    pub open spec fn wf(self) -> bool {
        self.in_pos <= self.input@.len()
    }

    /// The abstract machine state this engine stands at, taken as running.
    pub open spec fn mstate(self) -> MState {
        MState {
            cursor: self.cursor as int,
            ptr: self.ptr as int,
            tape: self.data@,
            input: self.input@.skip(self.in_pos as int),
            output: self.out@,
            status: Status::Running,
        }
    }

    /// Grows the tape, zero-filled, until the cell at the data pointer
    /// exists. Touches nothing else.
    #[verifier::loop_isolation(false)]
    fn grow_tape(&mut self)
        ensures
            final(self).data@ == grow(old(self).data@, old(self).ptr as int),
            old(self).ptr < final(self).data@.len(),
            *final(self) == (Interpreter { data: final(self).data, ..*old(self) }),
    {
        let ghost d0 = self.data@;
        proof {
            assert(d0 =~= d0 + Seq::new(0, |i: int| 0u8));
        }
        while self.data.len() <= self.ptr
            invariant
                d0.len() <= self.data@.len(),
                self.data@ == d0 + Seq::new((self.data@.len() - d0.len()) as nat, |i: int| 0u8),
                self.data@.len() <= self.ptr + 1 || self.data@ == d0,
                *self == (Interpreter { data: self.data, ..*old(self) }),
            decreases self.ptr + 1 - self.data@.len(),
        {
            self.data.push(0);
            proof {
                assert(self.data@ =~= d0 + Seq::new((self.data@.len() - d0.len()) as nat, |i: int| 0u8));
            }
        }
        proof {
            assert(self.data@ =~= grow(d0, self.ptr as int));
        }
    }

    /// Moves the data pointer one cell right; the pointer must stay
    /// addressable.
    fn inc_ptr(&mut self) -> (r: Result<(), RunError>)
        requires
            old(self).wf(),
            old(self).cursor < old(self).bc@.len(),
            Inst::of_opcode(old(self).bc@[old(self).cursor as int]) == Some(Inst::IncPtr),
        ensures
            final(self).wf(),
            final(self).bc@ == old(self).bc@,
            final(self).input@ == old(self).input@,
            (match r {
                Ok(()) => final(self).mstate() == step(old(self).bc@, old(self).mstate()),
                Err(e) => *final(self) == *old(self) && step(old(self).bc@, old(self).mstate())
                    == failed(old(self).mstate(), e),
            }),
    {
        proof {
            // a vector's length fits in usize, so the cursor below it can advance
            assert(self.bc.len() == self.bc@.len());
        }
        if self.ptr == usize::MAX {
            return Err(RunError::PointerOverflow);
        }
        self.ptr = self.ptr + 1;
        self.cursor = self.cursor + 1;
        proof {
            assert(self.mstate() =~= step(old(self).bc@, old(self).mstate()));
        }
        Ok(())
    }

    /// Moves the data pointer one cell left; below cell zero is a fault.
    fn dec_ptr(&mut self) -> (r: Result<(), RunError>)
        requires
            old(self).wf(),
            old(self).cursor < old(self).bc@.len(),
            Inst::of_opcode(old(self).bc@[old(self).cursor as int]) == Some(Inst::DecPtr),
        ensures
            final(self).wf(),
            final(self).bc@ == old(self).bc@,
            final(self).input@ == old(self).input@,
            (match r {
                Ok(()) => final(self).mstate() == step(old(self).bc@, old(self).mstate()),
                Err(e) => *final(self) == *old(self) && step(old(self).bc@, old(self).mstate())
                    == failed(old(self).mstate(), e),
            }),
    {
        proof {
            // a vector's length fits in usize, so the cursor below it can advance
            assert(self.bc.len() == self.bc@.len());
        }
        if self.ptr == 0 {
            return Err(RunError::PointerUnderflow);
        }
        self.ptr = self.ptr - 1;
        self.cursor = self.cursor + 1;
        proof {
            assert(self.mstate() =~= step(old(self).bc@, old(self).mstate()));
        }
        Ok(())
    }

    /// Increments the cell at the data pointer, wrapping modulo 256.
    fn inc(&mut self)
        requires
            old(self).wf(),
            old(self).cursor < old(self).bc@.len(),
            Inst::of_opcode(old(self).bc@[old(self).cursor as int]) == Some(Inst::Inc),
        ensures
            final(self).wf(),
            final(self).bc@ == old(self).bc@,
            final(self).input@ == old(self).input@,
            final(self).mstate() == step(old(self).bc@, old(self).mstate()),
    {
        proof {
            // a vector's length fits in usize, so the cursor below it can advance
            assert(self.bc.len() == self.bc@.len());
        }
        self.grow_tape();
        let b = self.data[self.ptr];
        let nb = if b == 255 {
            0
        } else {
            b + 1
        };
        self.data[self.ptr] = nb;
        self.cursor = self.cursor + 1;
        proof {
            assert(nb == byte_inc(b));
            assert(self.mstate() =~= step(old(self).bc@, old(self).mstate()));
        }
    }

    /// Decrements the cell at the data pointer, wrapping modulo 256.
    fn dec(&mut self)
        requires
            old(self).wf(),
            old(self).cursor < old(self).bc@.len(),
            Inst::of_opcode(old(self).bc@[old(self).cursor as int]) == Some(Inst::Dec),
        ensures
            final(self).wf(),
            final(self).bc@ == old(self).bc@,
            final(self).input@ == old(self).input@,
            final(self).mstate() == step(old(self).bc@, old(self).mstate()),
    {
        proof {
            // a vector's length fits in usize, so the cursor below it can advance
            assert(self.bc.len() == self.bc@.len());
        }
        self.grow_tape();
        let b = self.data[self.ptr];
        let nb = if b == 0 {
            255
        } else {
            b - 1
        };
        self.data[self.ptr] = nb;
        self.cursor = self.cursor + 1;
        proof {
            assert(nb == byte_dec(b));
            assert(self.mstate() =~= step(old(self).bc@, old(self).mstate()));
        }
    }

    /// Appends the cell at the data pointer to the output.
    fn out(&mut self)
        requires
            old(self).wf(),
            old(self).cursor < old(self).bc@.len(),
            Inst::of_opcode(old(self).bc@[old(self).cursor as int]) == Some(Inst::Out),
        ensures
            final(self).wf(),
            final(self).bc@ == old(self).bc@,
            final(self).input@ == old(self).input@,
            final(self).mstate() == step(old(self).bc@, old(self).mstate()),
    {
        proof {
            // a vector's length fits in usize, so the cursor below it can advance
            assert(self.bc.len() == self.bc@.len());
        }
        self.grow_tape();
        let b = self.data[self.ptr];
        self.out.push(b);
        self.cursor = self.cursor + 1;
        proof {
            assert(self.mstate() =~= step(old(self).bc@, old(self).mstate()));
        }
    }

    /// Reads the next input byte into the cell at the data pointer; an
    /// exhausted input is a fault.
    fn inp(&mut self) -> (r: Result<(), RunError>)
        requires
            old(self).wf(),
            old(self).cursor < old(self).bc@.len(),
            Inst::of_opcode(old(self).bc@[old(self).cursor as int]) == Some(Inst::Inp),
        ensures
            final(self).wf(),
            final(self).bc@ == old(self).bc@,
            final(self).input@ == old(self).input@,
            (match r {
                Ok(()) => final(self).mstate() == step(old(self).bc@, old(self).mstate()),
                Err(e) => *final(self) == *old(self) && step(old(self).bc@, old(self).mstate())
                    == failed(old(self).mstate(), e),
            }),
    {
        proof {
            // a vector's length fits in usize, so the cursor below it can advance
            assert(self.bc.len() == self.bc@.len());
        }
        if self.in_pos >= self.input.len() {
            return Err(RunError::InputExhausted);
        }
        let b = self.input[self.in_pos];
        self.in_pos = self.in_pos + 1;
        self.grow_tape();
        self.data[self.ptr] = b;
        self.cursor = self.cursor + 1;
        proof {
            let pre = old(self).input@.skip(old(self).in_pos as int);
            assert(pre[0] == b);
            assert(self.input@.skip(self.in_pos as int) =~= pre.skip(1));
            assert(self.mstate() =~= step(old(self).bc@, old(self).mstate()));
        }
        Ok(())
    }

    /// Jump if the cell at the data pointer is zero; otherwise fall through
    /// past the address field.
    fn jz(&mut self) -> (r: Result<(), RunError>)
        requires
            old(self).wf(),
            old(self).cursor < old(self).bc@.len(),
            Inst::of_opcode(old(self).bc@[old(self).cursor as int]) == Some(Inst::Jz),
        ensures
            final(self).wf(),
            final(self).bc@ == old(self).bc@,
            final(self).input@ == old(self).input@,
            (match r {
                Ok(()) => final(self).mstate() == step(old(self).bc@, old(self).mstate()),
                Err(e) => *final(self) == *old(self) && step(old(self).bc@, old(self).mstate())
                    == failed(old(self).mstate(), e),
            }),
    {
        let n: usize = self.bc.len();
        if n - self.cursor < 5 {
            return Err(RunError::InvalidInstruction);
        }
        let addr = read_le4(&self.bc, self.cursor + 1);
        self.grow_tape();
        let b = self.data[self.ptr];
        if b == 0 {
            self.cursor = addr as usize;
        } else {
            self.cursor = self.cursor + 5;
        }
        proof {
            assert(self.mstate() =~= step(old(self).bc@, old(self).mstate()));
        }
        Ok(())
    }

    /// Jump if the cell at the data pointer is nonzero; otherwise fall
    /// through past the address field.
    fn jnz(&mut self) -> (r: Result<(), RunError>)
        requires
            old(self).wf(),
            old(self).cursor < old(self).bc@.len(),
            Inst::of_opcode(old(self).bc@[old(self).cursor as int]) == Some(Inst::Jnz),
        ensures
            final(self).wf(),
            final(self).bc@ == old(self).bc@,
            final(self).input@ == old(self).input@,
            (match r {
                Ok(()) => final(self).mstate() == step(old(self).bc@, old(self).mstate()),
                Err(e) => *final(self) == *old(self) && step(old(self).bc@, old(self).mstate())
                    == failed(old(self).mstate(), e),
            }),
    {
        let n: usize = self.bc.len();
        if n - self.cursor < 5 {
            return Err(RunError::InvalidInstruction);
        }
        let addr = read_le4(&self.bc, self.cursor + 1);
        self.grow_tape();
        let b = self.data[self.ptr];
        if b != 0 {
            self.cursor = addr as usize;
        } else {
            self.cursor = self.cursor + 5;
        }
        proof {
            assert(self.mstate() =~= step(old(self).bc@, old(self).mstate()));
        }
        Ok(())
    }

    /// Runs the machine until it halts, faults, or `max_steps` instructions
    /// have been dispatched, whichever comes first. A single iterative loop,
    /// so control-stack usage is constant however long the program runs.
    ///
    /// Returns exactly the status of the abstract machine after `max_steps`
    /// steps (terminal states being fixed points, that is the final status
    /// whenever the run ends early), and leaves the engine in that machine
    /// state.
    #[verifier::loop_isolation(false)]
    pub fn run(&mut self, max_steps: u64) -> (r: Status)
        requires
            old(self).wf(),
        ensures
            final(self).wf(),
            final(self).bc@ == old(self).bc@,
            final(self).input@ == old(self).input@,
            ({
                let fin = steps(old(self).bc@, old(self).mstate(), max_steps as nat);
                r == fin.status && with_status(fin, Status::Running) == final(self).mstate()
            }),
    {
        let ghost bc0 = self.bc@;
        let ghost s0 = self.mstate();
        let mut n: u64 = 0;
        while n < max_steps
            invariant
                self.wf(),
                self.bc@ == bc0,
                self.input@ == old(self).input@,
                n <= max_steps,
                steps(bc0, s0, n as nat) == self.mstate(),
            decreases max_steps - n,
        {
            let ghost pre = self.mstate();
            let len: usize = self.bc.len();
            let outcome: Status = if self.cursor >= len {
                Status::Failed(RunError::InvalidInstruction)
            } else {
                let op = self.bc[self.cursor];
                match Inst::from_bc(op) {
                    None => Status::Failed(RunError::InvalidInstruction),
                    Some(Inst::Halt) => Status::Halted,
                    Some(Inst::IncPtr) => match self.inc_ptr() {
                        Ok(()) => Status::Running,
                        Err(e) => Status::Failed(e),
                    },
                    Some(Inst::DecPtr) => match self.dec_ptr() {
                        Ok(()) => Status::Running,
                        Err(e) => Status::Failed(e),
                    },
                    Some(Inst::Inc) => {
                        self.inc();
                        Status::Running
                    },
                    Some(Inst::Dec) => {
                        self.dec();
                        Status::Running
                    },
                    Some(Inst::Out) => {
                        self.out();
                        Status::Running
                    },
                    Some(Inst::Inp) => match self.inp() {
                        Ok(()) => Status::Running,
                        Err(e) => Status::Failed(e),
                    },
                    Some(Inst::Jz) => match self.jz() {
                        Ok(()) => Status::Running,
                        Err(e) => Status::Failed(e),
                    },
                    Some(Inst::Jnz) => match self.jnz() {
                        Ok(()) => Status::Running,
                        Err(e) => Status::Failed(e),
                    },
                }
            };
            proof {
                assert(steps(bc0, s0, (n + 1) as nat) == step(bc0, pre));
            }
            match outcome {
                Status::Running => {
                    n = n + 1;
                },
                Status::Halted => {
                    proof {
                        let fin1 = step(bc0, pre);
                        assert(fin1 == with_status(pre, Status::Halted));
                        lemma_steps_add(bc0, s0, (n + 1) as nat, (max_steps - n - 1) as nat);
                        lemma_steps_terminal(bc0, fin1, (max_steps - n - 1) as nat);
                        assert(steps(bc0, s0, max_steps as nat) == fin1);
                        assert(with_status(fin1, Status::Running) =~= self.mstate());
                    }
                    return Status::Halted;
                },
                Status::Failed(e) => {
                    proof {
                        let fin1 = step(bc0, pre);
                        assert(fin1 == failed(pre, e));
                        lemma_steps_add(bc0, s0, (n + 1) as nat, (max_steps - n - 1) as nat);
                        lemma_steps_terminal(bc0, fin1, (max_steps - n - 1) as nat);
                        assert(steps(bc0, s0, max_steps as nat) == fin1);
                        assert(with_status(fin1, Status::Running) =~= self.mstate());
                    }
                    return Status::Failed(e);
                },
            }
        }
        proof {
            assert(with_status(steps(bc0, s0, max_steps as nat), Status::Running)
                =~= self.mstate());
        }
        Status::Running
    }

    /// The output produced so far.
    pub fn output(&self) -> (r: &Vec<u8>)
        ensures
            r@ == self.out@,
    {
        &self.out
    }

    /// The value of tape cell `i`: zero where the tape has not grown that
    /// far.
    pub fn cell(&self, i: usize) -> (b: u8)
        ensures
            b == cell_at(self.data@, i as int),
    {
        if i < self.data.len() {
            self.data[i]
        } else {
            0
        }
    }
}

/// Creates an engine over the bytecode buffer `bc`, with `input` as the
/// bytes its input capability will yield, in order.
#[allow(non_snake_case)]
pub fn Interpreter(bc: Vec<u8>, input: Vec<u8>) -> (r: Interpreter)
    ensures
        r.wf(),
        r.bc@ == bc@,
        r.input@ == input@,
        r.mstate() == init_state(input@),
{
    let r = Interpreter {
        bc: bc,
        cursor: 0,
        data: Vec::new(),
        ptr: 0,
        input: input,
        in_pos: 0,
        out: Vec::new(),
    };
    proof {
        assert(r.mstate() =~= init_state(r.input@));
    }
    r
}

} // verus!
