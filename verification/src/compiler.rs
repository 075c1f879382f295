//! The bytecode compiler: a single left-to-right pass over the token stream,
//! resolving loop jump targets through a pending-jump stack.

use vstd::prelude::*;
use vstd::seq_lib::*;

use crate::bytecode::{
    compiling_inv, enc, lemma_inv_close, lemma_inv_finish, lemma_inv_push_open,
    lemma_inv_push_plain, wf_bytecode, AbsInst,
};
use crate::bytes::{le4, push_le4, store_le4, write_le4_at};
use crate::lex::{token_of, Lexer, Token};

verus! {

/// One instruction of the bytecode.
///
/// The enum itself is data-less; the two jump instructions are encoded with a
/// 4-byte little-endian absolute target address right after the opcode byte.
/// The opcode assignment (see [`Inst::opcode`]) is part of the bytecode
/// contract, not an implementation detail.
#[derive(Debug, Copy, Clone, PartialEq, Eq, Structural)]
pub enum Inst {
    /// Move the data pointer one cell to the right.
    IncPtr,
    /// Move the data pointer one cell to the left.
    DecPtr,
    /// Increment the cell at the data pointer, wrapping modulo 256.
    Inc,
    /// Decrement the cell at the data pointer, wrapping modulo 256.
    Dec,
    /// Output the cell at the data pointer.
    Out,
    /// Read one input byte into the cell at the data pointer.
    Inp,
    /// Jump to the encoded address if the cell at the data pointer is zero.
    Jz,
    /// Jump to the encoded address if the cell at the data pointer is nonzero.
    Jnz,
    /// Stop execution. Appended by the compiler as the final instruction.
    Halt,
}

impl Inst {
    /// The fixed single-byte encoding of each instruction.
    pub open spec fn opcode(self) -> u8 {
        match self {
            Inst::IncPtr => 0,
            Inst::DecPtr => 1,
            Inst::Inc => 2,
            Inst::Dec => 3,
            Inst::Out => 4,
            Inst::Inp => 5,
            Inst::Jz => 6,
            Inst::Jnz => 7,
            Inst::Halt => 8,
        }
    }

    /// The instruction a byte encodes, if any: the inverse of [`Inst::opcode`].
    pub open spec fn of_opcode(b: u8) -> Option<Inst> {
        if b == 0 {
            Some(Inst::IncPtr)
        } else if b == 1 {
            Some(Inst::DecPtr)
        } else if b == 2 {
            Some(Inst::Inc)
        } else if b == 3 {
            Some(Inst::Dec)
        } else if b == 4 {
            Some(Inst::Out)
        } else if b == 5 {
            Some(Inst::Inp)
        } else if b == 6 {
            Some(Inst::Jz)
        } else if b == 7 {
            Some(Inst::Jnz)
        } else if b == 8 {
            Some(Inst::Halt)
        } else {
            None
        }
    }

    /// Converts this instruction to its byte-code representation.
    pub fn to_bc(self) -> (b: u8)
        ensures
            b == self.opcode(),
            Inst::of_opcode(b) == Some(self),
    {
        match self {
            Inst::IncPtr => 0,
            Inst::DecPtr => 1,
            Inst::Inc => 2,
            Inst::Dec => 3,
            Inst::Out => 4,
            Inst::Inp => 5,
            Inst::Jz => 6,
            Inst::Jnz => 7,
            Inst::Halt => 8,
        }
    }

    /// Decodes one byte-code byte; `None` if the byte encodes no instruction.
    pub fn from_bc(x: u8) -> (r: Option<Inst>)
        ensures
            r == Inst::of_opcode(x),
    {
        match x {
            0 => Some(Inst::IncPtr),
            1 => Some(Inst::DecPtr),
            2 => Some(Inst::Inc),
            3 => Some(Inst::Dec),
            4 => Some(Inst::Out),
            5 => Some(Inst::Inp),
            6 => Some(Inst::Jz),
            7 => Some(Inst::Jnz),
            8 => Some(Inst::Halt),
            _ => None,
        }
    }
}

/// Why a compilation failed.
#[derive(Debug, Copy, Clone, PartialEq, Eq, Structural)]
pub enum CompileError {
    /// A loop-end token was seen with no loop-start still open.
    UnmatchedLoopEnd,
    /// The input ended with at least one loop-start still open.
    UnmatchedLoopStart,
    /// A jump target does not fit in the 4-byte address field.
    AddressOverflow,
}

/// The garbage value written into a loop-start's address field until its
/// matching loop-end patches in the real target.
pub const PLACEHOLDER_ADDR: u32 = 0x2A2A_2A2A;

/// The functional model of one compilation pass: consuming `toks` after the
/// bytes `acc` have been emitted, with `stk` holding, for each open
/// loop-start, the offset just past its address placeholder.
pub open spec fn compile_spec(toks: Seq<Token>, acc: Seq<u8>, stk: Seq<int>) -> Result<
    Seq<u8>,
    CompileError,
>
    decreases toks.len(),
{
    if toks.len() == 0 {
        if stk.len() > 0 {
            Err(CompileError::UnmatchedLoopStart)
        } else {
            Ok(acc.push(Inst::Halt.opcode()))
        }
    } else {
        let rest = toks.skip(1);
        match toks[0] {
            Token::RAngle => compile_spec(rest, acc.push(Inst::IncPtr.opcode()), stk),
            Token::LAngle => compile_spec(rest, acc.push(Inst::DecPtr.opcode()), stk),
            Token::Plus => compile_spec(rest, acc.push(Inst::Inc.opcode()), stk),
            Token::Minus => compile_spec(rest, acc.push(Inst::Dec.opcode()), stk),
            Token::Dot => compile_spec(rest, acc.push(Inst::Out.opcode()), stk),
            Token::Comma => compile_spec(rest, acc.push(Inst::Inp.opcode()), stk),
            Token::LBrack => compile_spec(
                rest,
                acc.push(Inst::Jz.opcode()) + le4(PLACEHOLDER_ADDR),
                stk.push(acc.len() as int + 5),
            ),
            Token::RBrack => {
                if stk.len() == 0 {
                    Err(CompileError::UnmatchedLoopEnd)
                } else {
                    let e = stk.last();
                    if e > u32::MAX as int {
                        Err(CompileError::AddressOverflow)
                    } else {
                        let acc2 = acc.push(Inst::Jnz.opcode()) + le4(e as u32);
                        if acc2.len() > u32::MAX as int {
                            Err(CompileError::AddressOverflow)
                        } else {
                            compile_spec(
                                rest,
                                store_le4(acc2, e - 4, acc2.len() as u32),
                                stk.drop_last(),
                            )
                        }
                    }
                }
            },
            Token::Comment => compile_spec(rest, acc, stk),
            Token::Eof => {
                if stk.len() > 0 {
                    Err(CompileError::UnmatchedLoopStart)
                } else {
                    Ok(acc.push(Inst::Halt.opcode()))
                }
            },
        }
    }
}

/// The result of compiling a whole token stream from scratch.
pub open spec fn compilation_of(toks: Seq<Token>) -> Result<Seq<u8>, CompileError> {
    compile_spec(toks, Seq::empty(), Seq::empty())
}

/// Converts lexer output into byte-code: each simple token appends its one
/// opcode byte; a loop-start appends a jump-if-zero opcode and an address
/// placeholder; a loop-end appends a jump-if-nonzero opcode with its
/// back-jump target and patches the matching placeholder with the loop's
/// exit offset; end-of-input appends the halt opcode.
///
/// Returns `Err` if loop-starts and loop-ends are not matched properly, or if
/// a jump target does not fit in the 4-byte address field.
#[verifier::loop_isolation(false)]
pub fn compile(source: Lexer) -> (r: Result<Vec<u8>, CompileError>)
    requires
        source.wf(),
    ensures
        ({
            let s = compilation_of(source.tokens());
            match r {
                Ok(v) => s matches Ok(b) && v@ == b,
                Err(e) => s matches Err(e2) && e == e2,
            }
        }),
        r matches Ok(v) ==> v@.len() >= 1 && v@.last() == Inst::Halt.opcode(),
        r matches Ok(v) ==> wf_bytecode(v@),
{
    let mut source = source;
    let mut v: Vec<u8> = Vec::with_capacity(source.len_hint());
    let mut jump_stack: Vec<usize> = Vec::with_capacity(4);
    let ghost toks0 = source.tokens();
    let ghost mut stk: Seq<int> = Seq::empty();
    let ghost mut code: Seq<AbsInst> = Seq::empty();
    let ghost mut open_idx: Seq<int> = Seq::empty();
    proof {
        assert(v@ =~= Seq::<u8>::empty());
    }
    loop
        invariant
            source.wf(),
            stk.len() == jump_stack@.len(),
            forall|i: int| 0 <= i < stk.len() ==> stk[i] == jump_stack@[i] as int,
            forall|i: int| 0 <= i < stk.len() ==> 5 <= #[trigger] stk[i] <= v@.len(),
            v@ == enc(code),
            compiling_inv(code, open_idx, stk),
            compile_spec(toks0, Seq::empty(), Seq::empty()) == compile_spec(
                source.tokens(),
                v@,
                stk,
            ),
        decreases source.tokens().len(),
    {
        let ghost pre_lex = source;
        let ghost pre_toks = source.tokens();
        let ghost pre_v = v@;
        let ghost pre_stk = stk;
        let t = source.next();
        proof {
            if pre_toks.len() > 0 {
                assert(t == pre_toks[0]);
                assert(pre_toks[0] == token_of(pre_lex.src@.skip(pre_lex.pos as int)[0]));
                assert(t != Token::Eof);
            }
        }
        match t {
            Token::RAngle => {
                v.push(Inst::IncPtr.to_bc());
                proof {
                    lemma_inv_push_plain(code, open_idx, stk, AbsInst::IncPtr);
                    code = code.push(AbsInst::IncPtr);
                    assert(v@ =~= enc(code));
                    assert(compile_spec(pre_toks, pre_v, pre_stk) == compile_spec(
                        source.tokens(),
                        v@,
                        stk,
                    ));
                }
            },
            Token::LAngle => {
                v.push(Inst::DecPtr.to_bc());
                proof {
                    lemma_inv_push_plain(code, open_idx, stk, AbsInst::DecPtr);
                    code = code.push(AbsInst::DecPtr);
                    assert(v@ =~= enc(code));
                    assert(compile_spec(pre_toks, pre_v, pre_stk) == compile_spec(
                        source.tokens(),
                        v@,
                        stk,
                    ));
                }
            },
            Token::Plus => {
                v.push(Inst::Inc.to_bc());
                proof {
                    lemma_inv_push_plain(code, open_idx, stk, AbsInst::Inc);
                    code = code.push(AbsInst::Inc);
                    assert(v@ =~= enc(code));
                    assert(compile_spec(pre_toks, pre_v, pre_stk) == compile_spec(
                        source.tokens(),
                        v@,
                        stk,
                    ));
                }
            },
            Token::Minus => {
                v.push(Inst::Dec.to_bc());
                proof {
                    lemma_inv_push_plain(code, open_idx, stk, AbsInst::Dec);
                    code = code.push(AbsInst::Dec);
                    assert(v@ =~= enc(code));
                    assert(compile_spec(pre_toks, pre_v, pre_stk) == compile_spec(
                        source.tokens(),
                        v@,
                        stk,
                    ));
                }
            },
            Token::Dot => {
                v.push(Inst::Out.to_bc());
                proof {
                    lemma_inv_push_plain(code, open_idx, stk, AbsInst::Out);
                    code = code.push(AbsInst::Out);
                    assert(v@ =~= enc(code));
                    assert(compile_spec(pre_toks, pre_v, pre_stk) == compile_spec(
                        source.tokens(),
                        v@,
                        stk,
                    ));
                }
            },
            Token::Comma => {
                v.push(Inst::Inp.to_bc());
                proof {
                    lemma_inv_push_plain(code, open_idx, stk, AbsInst::Inp);
                    code = code.push(AbsInst::Inp);
                    assert(v@ =~= enc(code));
                    assert(compile_spec(pre_toks, pre_v, pre_stk) == compile_spec(
                        source.tokens(),
                        v@,
                        stk,
                    ));
                }
            },
            Token::LBrack => {
                v.push(Inst::Jz.to_bc());
                push_le4(&mut v, PLACEHOLDER_ADDR);
                jump_stack.push(v.len());
                proof {
                    lemma_inv_push_open(code, open_idx, stk, PLACEHOLDER_ADDR);
                    open_idx = open_idx.push(code.len() as int);
                    code = code.push(AbsInst::Jz(PLACEHOLDER_ADDR));
                    stk = stk.push(pre_v.len() as int + 5);
                    assert(v@ =~= pre_v.push(Inst::Jz.opcode()) + le4(PLACEHOLDER_ADDR));
                    assert(v@ =~= enc(code));
                    assert(compile_spec(pre_toks, pre_v, pre_stk) == compile_spec(
                        source.tokens(),
                        v@,
                        stk,
                    ));
                }
            },
            Token::RBrack => {
                v.push(Inst::Jnz.to_bc());
                let e = match jump_stack.pop() {
                    Some(e) => e,
                    None => {
                        proof {
                            assert(pre_stk.len() == 0);
                            assert(compile_spec(pre_toks, pre_v, pre_stk) == Err::<
                                Seq<u8>,
                                CompileError,
                            >(CompileError::UnmatchedLoopEnd));
                        }
                        return Err(CompileError::UnmatchedLoopEnd);
                    },
                };
                proof {
                    assert(e as int == pre_stk.last());
                }
                if e > u32::MAX as usize {
                    proof {
                        assert(compile_spec(pre_toks, pre_v, pre_stk) == Err::<
                            Seq<u8>,
                            CompileError,
                        >(CompileError::AddressOverflow));
                    }
                    return Err(CompileError::AddressOverflow);
                }
                push_le4(&mut v, e as u32);
                proof {
                    assert(v@ =~= pre_v.push(Inst::Jnz.opcode()) + le4(e as u32));
                }
                if v.len() > u32::MAX as usize {
                    proof {
                        assert(compile_spec(pre_toks, pre_v, pre_stk) == Err::<
                            Seq<u8>,
                            CompileError,
                        >(CompileError::AddressOverflow));
                    }
                    return Err(CompileError::AddressOverflow);
                }
                let here = v.len() as u32;
                write_le4_at(&mut v, e - 4, here);
                proof {
                    let acc2 = pre_v.push(Inst::Jnz.opcode()) + le4(e as u32);
                    assert(v@ == store_le4(acc2, pre_stk.last() - 4, acc2.len() as u32));
                    let jz = lemma_inv_close(code, open_idx, stk);
                    assert(acc2 =~= enc(code) + crate::bytecode::enc1(AbsInst::Jnz(e as u32)));
                    code = code.push(AbsInst::Jnz(e as u32)).update(jz, AbsInst::Jz(here));
                    open_idx = open_idx.drop_last();
                    assert(v@ =~= enc(code));
                    stk = stk.drop_last();
                    assert forall|i: int| 0 <= i < stk.len() implies stk[i]
                        == jump_stack@[i] as int by {
                        assert(pre_stk[i] == stk[i]);
                    }
                    assert(compile_spec(pre_toks, pre_v, pre_stk) == compile_spec(
                        source.tokens(),
                        v@,
                        stk,
                    ));
                }
            },
            Token::Comment => {
                proof {
                    assert(compile_spec(pre_toks, pre_v, pre_stk) == compile_spec(
                        source.tokens(),
                        v@,
                        stk,
                    ));
                }
            },
            Token::Eof => {
                proof {
                    assert(pre_toks.len() == 0);
                }
                if jump_stack.len() > 0 {
                    proof {
                        assert(compile_spec(pre_toks, pre_v, pre_stk) == Err::<
                            Seq<u8>,
                            CompileError,
                        >(CompileError::UnmatchedLoopStart));
                    }
                    return Err(CompileError::UnmatchedLoopStart);
                }
                v.push(Inst::Halt.to_bc());
                proof {
                    assert(compile_spec(pre_toks, pre_v, pre_stk) == Ok::<Seq<u8>, CompileError>(
                        v@,
                    ));
                    lemma_inv_finish(code, open_idx, stk);
                    assert(v@ =~= enc(code) + crate::bytecode::enc1(AbsInst::Halt));
                    assert(wf_bytecode(v@));
                }
                return Ok(v);
            },
        }
    }
}

} // verus!
