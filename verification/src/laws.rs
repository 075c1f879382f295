//! Bracket-matching laws of the compiler: which token streams fail, and with
//! which error.

use vstd::prelude::*;

use crate::compiler::{compilation_of, compile_spec, CompileError};
use crate::lex::Token;

verus! {

/// How many loop-start tokens a stream holds.
pub open spec fn count_opens(toks: Seq<Token>) -> int
    decreases toks.len(),
{
    if toks.len() == 0 {
        0
    } else {
        (if toks[0] is LBrack {
            1int
        } else {
            0int
        }) + count_opens(toks.skip(1))
    }
}

/// How many loop-end tokens a stream holds.
pub open spec fn count_closes(toks: Seq<Token>) -> int
    decreases toks.len(),
{
    if toks.len() == 0 {
        0
    } else {
        (if toks[0] is RBrack {
            1int
        } else {
            0int
        }) + count_closes(toks.skip(1))
    }
}

/// Splitting off the head token splits the counts of any nonempty prefix.
proof fn lemma_count_take_head(toks: Seq<Token>, k: int)
    requires
        1 <= k <= toks.len(),
    ensures
        count_opens(toks.take(k)) == (if toks[0] is LBrack {
            1int
        } else {
            0int
        }) + count_opens(toks.skip(1).take(k - 1)),
        count_closes(toks.take(k)) == (if toks[0] is RBrack {
            1int
        } else {
            0int
        }) + count_closes(toks.skip(1).take(k - 1)),
{
    assert(toks.take(k)[0] == toks[0]);
    assert(toks.take(k).skip(1) =~= toks.skip(1).take(k - 1));
}

/// Compilation from any intermediate state fails with `UnmatchedLoopEnd`
/// whenever some prefix of the remaining tokens closes more loops than it
/// opens on top of the loops already open.
proof fn lemma_excess_close_from(toks: Seq<Token>, acc: Seq<u8>, stk: Seq<int>, k: int)
    requires
        forall|i: int| 0 <= i < toks.len() ==> #[trigger] toks[i] != Token::Eof,
        forall|i: int| 0 <= i < stk.len() ==> 4 <= #[trigger] stk[i] <= acc.len(),
        acc.len() + 5 * toks.len() <= u32::MAX as int,
        0 <= k <= toks.len(),
        count_closes(toks.take(k)) > count_opens(toks.take(k)) + stk.len(),
    ensures
        compile_spec(toks, acc, stk) == Err::<Seq<u8>, CompileError>(
            CompileError::UnmatchedLoopEnd,
        ),
    decreases toks.len(),
{
    assert(k >= 1) by {
        if k == 0 {
            assert(toks.take(0) =~= Seq::<Token>::empty());
        }
    }
    let t = toks[0];
    let rest = toks.skip(1);
    lemma_count_take_head(toks, k);
    assert(forall|i: int| 0 <= i < rest.len() ==> #[trigger] rest[i] != Token::Eof);
    match t {
        Token::RBrack => {
            if stk.len() == 0 {
                assert(compile_spec(toks, acc, stk) == Err::<Seq<u8>, CompileError>(
                    CompileError::UnmatchedLoopEnd,
                ));
            } else {
                let e = stk.last();
                let acc2 = acc.push(crate::compiler::Inst::Jnz.opcode()) + crate::bytes::le4(
                    e as u32,
                );
                let acc3 = crate::bytes::store_le4(acc2, e - 4, acc2.len() as u32);
                assert(acc3.len() == acc.len() + 5);
                assert(forall|i: int|
                    0 <= i < stk.drop_last().len() ==> 4 <= #[trigger] stk.drop_last()[i]
                        <= acc3.len());
                lemma_excess_close_from(rest, acc3, stk.drop_last(), k - 1);
            }
        },
        Token::LBrack => {
            let acc2 = acc.push(crate::compiler::Inst::Jz.opcode()) + crate::bytes::le4(
                crate::compiler::PLACEHOLDER_ADDR,
            );
            let stk2 = stk.push(acc.len() as int + 5);
            assert(acc2.len() == acc.len() + 5);
            assert(forall|i: int| 0 <= i < stk2.len() ==> 4 <= #[trigger] stk2[i] <= acc2.len());
            lemma_excess_close_from(rest, acc2, stk2, k - 1);
        },
        Token::RAngle => {
            lemma_excess_close_from(rest, acc.push(crate::compiler::Inst::IncPtr.opcode()), stk, k - 1);
        },
        Token::LAngle => {
            lemma_excess_close_from(rest, acc.push(crate::compiler::Inst::DecPtr.opcode()), stk, k - 1);
        },
        Token::Plus => {
            lemma_excess_close_from(rest, acc.push(crate::compiler::Inst::Inc.opcode()), stk, k - 1);
        },
        Token::Minus => {
            lemma_excess_close_from(rest, acc.push(crate::compiler::Inst::Dec.opcode()), stk, k - 1);
        },
        Token::Dot => {
            lemma_excess_close_from(rest, acc.push(crate::compiler::Inst::Out.opcode()), stk, k - 1);
        },
        Token::Comma => {
            lemma_excess_close_from(rest, acc.push(crate::compiler::Inst::Inp.opcode()), stk, k - 1);
        },
        Token::Comment => {
            lemma_excess_close_from(rest, acc, stk, k - 1);
        },
        Token::Eof => {
            assert(false);
        },
    }
}

/// For every token stream that at some point has seen more loop-ends than
/// loop-starts, compilation fails with `UnmatchedLoopEnd`. The stream holds
/// no end-of-input marker (the lexer never produces one for a source byte),
/// and is small enough that no jump address overflows its 4-byte field
/// before the excess loop-end is reached.
pub proof fn lemma_unmatched_loop_end(toks: Seq<Token>)
    requires
        forall|i: int| 0 <= i < toks.len() ==> #[trigger] toks[i] != Token::Eof,
        5 * toks.len() <= u32::MAX as int,
        exists|k: int|
            0 <= k <= toks.len() && count_closes(#[trigger] toks.take(k)) > count_opens(
                toks.take(k),
            ),
    ensures
        compilation_of(toks) == Err::<Seq<u8>, CompileError>(CompileError::UnmatchedLoopEnd),
{
    let k = choose|k: int|
        0 <= k <= toks.len() && count_closes(#[trigger] toks.take(k)) > count_opens(toks.take(k));
    lemma_excess_close_from(toks, Seq::empty(), Seq::empty(), k);
}

/// Compilation from any intermediate state fails with `UnmatchedLoopStart`
/// whenever no prefix ever closes more loops than are open, and at the end
/// of input some loop is still open.
proof fn lemma_open_start_from(toks: Seq<Token>, acc: Seq<u8>, stk: Seq<int>)
    requires
        forall|i: int| 0 <= i < toks.len() ==> #[trigger] toks[i] != Token::Eof,
        forall|i: int| 0 <= i < stk.len() ==> 4 <= #[trigger] stk[i] <= acc.len(),
        acc.len() + 5 * toks.len() <= u32::MAX as int,
        forall|k: int|
            0 <= k <= toks.len() ==> count_closes(#[trigger] toks.take(k)) <= count_opens(
                toks.take(k),
            ) + stk.len(),
        count_closes(toks) < count_opens(toks) + stk.len(),
    ensures
        compile_spec(toks, acc, stk) == Err::<Seq<u8>, CompileError>(
            CompileError::UnmatchedLoopStart,
        ),
    decreases toks.len(),
{
    if toks.len() == 0 {
        assert(stk.len() > 0);
    } else {
        let t = toks[0];
        let rest = toks.skip(1);
        assert(forall|i: int| 0 <= i < rest.len() ==> #[trigger] rest[i] != Token::Eof);
        assert(count_closes(toks) == (if t is RBrack {
            1int
        } else {
            0int
        }) + count_closes(rest));
        assert(count_opens(toks) == (if t is LBrack {
            1int
        } else {
            0int
        }) + count_opens(rest));
        match t {
            Token::RBrack => {
                assert(stk.len() >= 1) by {
                    assert(count_closes(toks.take(1)) <= count_opens(toks.take(1)) + stk.len());
                    lemma_count_take_head(toks, 1);
                    assert(toks.skip(1).take(0) =~= Seq::<Token>::empty());
                }
                let e = stk.last();
                let acc2 = acc.push(crate::compiler::Inst::Jnz.opcode()) + crate::bytes::le4(
                    e as u32,
                );
                let acc3 = crate::bytes::store_le4(acc2, e - 4, acc2.len() as u32);
                assert(acc3.len() == acc.len() + 5);
                let stk2 = stk.drop_last();
                assert(forall|i: int| 0 <= i < stk2.len() ==> 4 <= #[trigger] stk2[i] <= acc3.len());
                assert(forall|k: int|
                    0 <= k <= rest.len() ==> count_closes(#[trigger] rest.take(k)) <= count_opens(
                        rest.take(k),
                    ) + stk2.len()) by {
                    assert forall|k: int| 0 <= k <= rest.len() implies count_closes(
                        #[trigger] rest.take(k),
                    ) <= count_opens(rest.take(k)) + stk2.len() by {
                        lemma_count_take_head(toks, k + 1);
                        assert(count_closes(toks.take(k + 1)) <= count_opens(toks.take(k + 1))
                            + stk.len());
                    }
                }
                lemma_open_start_from(rest, acc3, stk2);
            },
            Token::LBrack => {
                let acc2 = acc.push(crate::compiler::Inst::Jz.opcode()) + crate::bytes::le4(
                    crate::compiler::PLACEHOLDER_ADDR,
                );
                let stk2 = stk.push(acc.len() as int + 5);
                assert(acc2.len() == acc.len() + 5);
                assert(forall|i: int| 0 <= i < stk2.len() ==> 4 <= #[trigger] stk2[i] <= acc2.len());
                assert(forall|k: int|
                    0 <= k <= rest.len() ==> count_closes(#[trigger] rest.take(k)) <= count_opens(
                        rest.take(k),
                    ) + stk2.len()) by {
                    assert forall|k: int| 0 <= k <= rest.len() implies count_closes(
                        #[trigger] rest.take(k),
                    ) <= count_opens(rest.take(k)) + stk2.len() by {
                        lemma_count_take_head(toks, k + 1);
                        assert(count_closes(toks.take(k + 1)) <= count_opens(toks.take(k + 1))
                            + stk.len());
                    }
                }
                lemma_open_start_from(rest, acc2, stk2);
            },
            Token::Eof => {
                assert(false);
            },
            _ => {
                let acc2 = match t {
                    Token::RAngle => acc.push(crate::compiler::Inst::IncPtr.opcode()),
                    Token::LAngle => acc.push(crate::compiler::Inst::DecPtr.opcode()),
                    Token::Plus => acc.push(crate::compiler::Inst::Inc.opcode()),
                    Token::Minus => acc.push(crate::compiler::Inst::Dec.opcode()),
                    Token::Dot => acc.push(crate::compiler::Inst::Out.opcode()),
                    Token::Comma => acc.push(crate::compiler::Inst::Inp.opcode()),
                    _ => acc,
                };
                assert(forall|i: int| 0 <= i < stk.len() ==> 4 <= #[trigger] stk[i] <= acc2.len());
                assert(forall|k: int|
                    0 <= k <= rest.len() ==> count_closes(#[trigger] rest.take(k)) <= count_opens(
                        rest.take(k),
                    ) + stk.len()) by {
                    assert forall|k: int| 0 <= k <= rest.len() implies count_closes(
                        #[trigger] rest.take(k),
                    ) <= count_opens(rest.take(k)) + stk.len() by {
                        lemma_count_take_head(toks, k + 1);
                        assert(count_closes(toks.take(k + 1)) <= count_opens(toks.take(k + 1))
                            + stk.len());
                    }
                }
                lemma_open_start_from(rest, acc2, stk);
            },
        }
    }
}

/// For every token stream that never closes more loops than it has opened
/// but still has an open loop-start at end-of-input, compilation fails with
/// `UnmatchedLoopStart`. The stream holds no end-of-input marker, and is
/// small enough that no jump address overflows its 4-byte field.
pub proof fn lemma_unmatched_loop_start(toks: Seq<Token>)
    requires
        forall|i: int| 0 <= i < toks.len() ==> #[trigger] toks[i] != Token::Eof,
        5 * toks.len() <= u32::MAX as int,
        forall|k: int|
            0 <= k <= toks.len() ==> count_closes(#[trigger] toks.take(k)) <= count_opens(
                toks.take(k),
            ),
        count_closes(toks) < count_opens(toks),
    ensures
        compilation_of(toks) == Err::<Seq<u8>, CompileError>(CompileError::UnmatchedLoopStart),
{
    lemma_open_start_from(toks, Seq::empty(), Seq::empty());
}

} // verus!
