//! The bytecode contract between compiler and engine.
//!
//! A buffer is well formed when it is the encoding of an instruction list
//! whose jumps all target instruction boundaries and whose last instruction
//! is halt. The compiler emits only such buffers, and on them the machine of
//! [`crate::machine`] never faults on decoding.

use vstd::prelude::*;

use crate::bytes::{le4, le4_val, lemma_le4_roundtrip, store_le4};
use crate::compiler::Inst;
use crate::machine::{init_state, step, steps, MState, RunError, Status};

verus! {

/// One instruction together with the jump target encoded after it: the
/// shape of the bytecode, abstracted from its byte-level layout.
#[derive(Copy, Clone, PartialEq, Eq, Structural)]
pub enum AbsInst {
    IncPtr,
    DecPtr,
    Inc,
    Dec,
    Out,
    Inp,
    Jz(u32),
    Jnz(u32),
    Halt,
}

/// How many bytes an instruction occupies: the jumps carry a 4-byte address.
pub open spec fn width(a: AbsInst) -> int {
    match a {
        AbsInst::Jz(_) => 5,
        AbsInst::Jnz(_) => 5,
        _ => 1,
    }
}

/// The encoding of one instruction.
pub open spec fn enc1(a: AbsInst) -> Seq<u8> {
    match a {
        AbsInst::IncPtr => seq![Inst::IncPtr.opcode()],
        AbsInst::DecPtr => seq![Inst::DecPtr.opcode()],
        AbsInst::Inc => seq![Inst::Inc.opcode()],
        AbsInst::Dec => seq![Inst::Dec.opcode()],
        AbsInst::Out => seq![Inst::Out.opcode()],
        AbsInst::Inp => seq![Inst::Inp.opcode()],
        AbsInst::Jz(t) => seq![Inst::Jz.opcode()] + le4(t),
        AbsInst::Jnz(t) => seq![Inst::Jnz.opcode()] + le4(t),
        AbsInst::Halt => seq![Inst::Halt.opcode()],
    }
}

/// The encoding of an instruction list: the instructions' encodings, in
/// order.
pub open spec fn enc(code: Seq<AbsInst>) -> Seq<u8>
    decreases code.len(),
{
    if code.len() == 0 {
        Seq::empty()
    } else {
        enc(code.drop_last()) + enc1(code.last())
    }
}

/// The byte offset at which instruction `k` starts.
pub open spec fn off(code: Seq<AbsInst>, k: int) -> int
    decreases k,
{
    if k <= 0 {
        0
    } else {
        off(code, k - 1) + width(code[k - 1])
    }
}

/// Offsets read only the instructions before them: lists that agree there
/// give the same offset.
pub proof fn lemma_off_agree(c1: Seq<AbsInst>, c2: Seq<AbsInst>, k: int)
    requires
        0 <= k <= c1.len(),
        k <= c2.len(),
        forall|i: int| 0 <= i < k ==> c1[i] == #[trigger] c2[i],
    ensures
        off(c1, k) == off(c2, k),
    decreases k,
{
    if k > 0 {
        lemma_off_agree(c1, c2, k - 1);
    }
}

/// Offsets grow strictly along the instruction list.
pub proof fn lemma_off_mono(code: Seq<AbsInst>, k1: int, k2: int)
    requires
        0 <= k1 <= k2,
    ensures
        off(code, k1) <= off(code, k2),
        k1 < k2 <= code.len() ==> off(code, k1) < off(code, k2),
    decreases k2,
{
    if k1 < k2 {
        lemma_off_mono(code, k1, k2 - 1);
        assert(width(code[k2 - 1]) >= 1);
    }
}

/// The encoding is as long as the offset one past the last instruction.
pub proof fn lemma_enc_len(code: Seq<AbsInst>)
    ensures
        enc(code).len() == off(code, code.len() as int),
    decreases code.len(),
{
    if code.len() > 0 {
        lemma_enc_len(code.drop_last());
        lemma_off_agree(code.drop_last(), code, code.len() - 1);
    }
}

/// An instruction's encoding is as wide as the instruction.
pub proof fn lemma_enc1_len(a: AbsInst)
    ensures
        enc1(a).len() == width(a),
{
}

/// What each byte of a 4-byte store holds.
pub proof fn lemma_store_le4_index(s: Seq<u8>, pos: int, x: u32)
    requires
        0 <= pos,
        pos + 4 <= s.len(),
    ensures
        store_le4(s, pos, x).len() == s.len(),
        forall|p: int|
            0 <= p < s.len() ==> #[trigger] store_le4(s, pos, x)[p] == if pos <= p < pos + 4 {
                le4(x)[p - pos]
            } else {
                s[p]
            },
{
}

/// Instruction `k`'s encoding sits at its offset inside the whole encoding.
pub proof fn lemma_enc_at(code: Seq<AbsInst>, k: int)
    requires
        0 <= k < code.len(),
    ensures
        off(code, k + 1) <= enc(code).len(),
        enc(code).subrange(off(code, k), off(code, k + 1)) == enc1(code[k]),
    decreases code.len(),
{
    lemma_enc_len(code);
    lemma_off_mono(code, 0, k);
    lemma_off_mono(code, k + 1, code.len() as int);
    lemma_enc1_len(code[k]);
    if k == code.len() - 1 {
        lemma_enc_len(code.drop_last());
        lemma_off_agree(code.drop_last(), code, k);
        assert(enc(code).subrange(off(code, k), off(code, k + 1)) =~= enc1(code[k]));
    } else {
        let dl = code.drop_last();
        lemma_enc_at(dl, k);
        lemma_off_agree(dl, code, k);
        lemma_off_agree(dl, code, k + 1);
        lemma_enc_len(dl);
        lemma_off_mono(dl, k + 1, dl.len() as int);
        assert forall|p: int| 0 <= p < off(code, k + 1) - off(code, k) implies enc(code).subrange(
            off(code, k),
            off(code, k + 1),
        )[p] == enc1(code[k])[p] by {
            assert(enc(code)[off(code, k) + p] == enc(dl)[off(code, k) + p]);
            assert(enc(dl).subrange(off(dl, k), off(dl, k + 1))[p] == enc1(dl[k])[p]);
        }
        assert(enc(code).subrange(off(code, k), off(code, k + 1)) =~= enc1(code[k]));
    }
}

/// Replacing one jump's target re-encodes as a 4-byte store into the old
/// encoding, at the address field of that jump.
pub proof fn lemma_enc_update_jz(code: Seq<AbsInst>, j: int, t: u32)
    requires
        0 <= j < code.len(),
        code[j] is Jz,
    ensures
        enc(code.update(j, AbsInst::Jz(t))) == store_le4(enc(code), off(code, j) + 1, t),
    decreases code.len(),
{
    let code2 = code.update(j, AbsInst::Jz(t));
    let pos = off(code, j) + 1;
    lemma_enc_len(code);
    lemma_off_mono(code, 0, j);
    lemma_off_mono(code, j + 1, code.len() as int);
    lemma_store_le4_index(enc(code), pos, t);
    if j == code.len() - 1 {
        let dl = code.drop_last();
        assert(code2.drop_last() =~= dl);
        lemma_enc_len(dl);
        lemma_off_agree(dl, code, j);
        assert(enc(code2) == enc(dl) + enc1(AbsInst::Jz(t)));
        assert(enc(code) == enc(dl) + enc1(code[j]));
        assert forall|p: int| 0 <= p < enc(code2).len() implies enc(code2)[p] == store_le4(
            enc(code),
            pos,
            t,
        )[p] by {
            if p < pos {
                assert(enc(code2)[p] == enc(code)[p]);
            } else {
                assert(enc(code2)[p] == le4(t)[p - pos]);
            }
        }
        assert(enc(code2) =~= store_le4(enc(code), pos, t));
    } else {
        let dl = code.drop_last();
        let dl2 = code2.drop_last();
        lemma_enc_update_jz(dl, j, t);
        assert(dl2 =~= dl.update(j, AbsInst::Jz(t)));
        lemma_off_agree(dl, code, j);
        lemma_enc_len(dl);
        lemma_off_mono(dl, j + 1, dl.len() as int);
        lemma_store_le4_index(enc(dl), pos, t);
        assert(enc(code2) == enc(dl2) + enc1(code.last()));
        assert(enc(code) == enc(dl) + enc1(code.last()));
        assert forall|p: int| 0 <= p < enc(code2).len() implies enc(code2)[p] == store_le4(
            enc(code),
            pos,
            t,
        )[p] by {
            if p < enc(dl).len() {
                assert(enc(code2)[p] == enc(dl2)[p]);
                assert(enc(dl2)[p] == store_le4(enc(dl), pos, t)[p]);
                assert(enc(code)[p] == enc(dl)[p]);
            } else {
                assert(enc(code2)[p] == enc1(code.last())[p - enc(dl).len()]);
                assert(enc(code)[p] == enc1(code.last())[p - enc(dl).len()]);
            }
        }
        assert(enc(code2) =~= store_le4(enc(code), pos, t));
    }
}

/// A well-formed instruction list: nonempty, ending in halt, every jump
/// targeting the start offset of some instruction.
pub open spec fn target_ok(code: Seq<AbsInst>, a: AbsInst) -> bool {
    match a {
        AbsInst::Jz(t) => exists|m: int| 0 <= m < code.len() && t == off(code, m),
        AbsInst::Jnz(t) => exists|m: int| 0 <= m < code.len() && t == off(code, m),
        _ => true,
    }
}

pub open spec fn wf_code(code: Seq<AbsInst>) -> bool {
    &&& code.len() >= 1
    &&& code.last() is Halt
    &&& forall|j: int| 0 <= j < code.len() ==> target_ok(code, #[trigger] code[j])
}

/// A well-formed bytecode buffer: the encoding of some well-formed
/// instruction list.
pub open spec fn wf_bytecode(bc: Seq<u8>) -> bool {
    exists|code: Seq<AbsInst>| bc == #[trigger] enc(code) && wf_code(code)
}

/// Offsets ignore a replacement that keeps an instruction's width.
pub proof fn lemma_off_update_same_width(code: Seq<AbsInst>, j: int, a: AbsInst, k: int)
    requires
        0 <= j < code.len(),
        width(a) == width(code[j]),
        0 <= k <= code.len(),
    ensures
        off(code.update(j, a), k) == off(code, k),
    decreases k,
{
    if k > 0 {
        lemma_off_update_same_width(code, j, a, k - 1);
    }
}

/// Whether instruction `j` is one of the still-open loop-starts.
pub open spec fn is_open(open_idx: Seq<int>, j: int) -> bool {
    exists|i: int| 0 <= i < open_idx.len() && open_idx[i] == j
}

/// A jump's target mid-compilation: the start offset of an instruction, or
/// the offset just past the code emitted so far (an instruction still to
/// come).
pub open spec fn target_ok_mid(code: Seq<AbsInst>, t: u32) -> bool {
    exists|m: int| 0 <= m <= code.len() && t == off(code, m)
}

/// What holds of instruction `j` mid-compilation: a loop-start is either
/// still open (its placeholder unpatched) or already patched to a valid
/// target; a loop-end always carries a valid back-jump target.
pub open spec fn jump_ok(code: Seq<AbsInst>, open_idx: Seq<int>, j: int) -> bool {
    match code[j] {
        AbsInst::Jz(t) => is_open(open_idx, j) || target_ok_mid(code, t),
        AbsInst::Jnz(t) => target_ok_mid(code, t),
        _ => true,
    }
}

/// The compiler's invariant over its ghost instruction list: `open_idx`
/// lists the open loop-starts innermost-last, `stk` the matching offsets
/// just past each one's address placeholder.
pub open spec fn compiling_inv(code: Seq<AbsInst>, open_idx: Seq<int>, stk: Seq<int>) -> bool {
    &&& open_idx.len() == stk.len()
    &&& forall|i: int| 0 <= i < open_idx.len() ==> 0 <= #[trigger] open_idx[i] < code.len()
    &&& forall|i: int| 0 <= i < open_idx.len() ==> code[#[trigger] open_idx[i]] is Jz
    &&& forall|i: int|
        0 <= i < open_idx.len() ==> #[trigger] stk[i] == off(code, open_idx[i]) + 5
    &&& forall|i1: int, i2: int|
        0 <= i1 < i2 < open_idx.len() ==> #[trigger] open_idx[i1] < #[trigger] open_idx[i2]
    &&& forall|j: int| 0 <= j < code.len() ==> #[trigger] jump_ok(code, open_idx, j)
}

/// Appending an instruction that is no jump keeps the invariant.
pub proof fn lemma_inv_push_plain(code: Seq<AbsInst>, open_idx: Seq<int>, stk: Seq<int>, a: AbsInst)
    requires
        compiling_inv(code, open_idx, stk),
        !(a is Jz),
        !(a is Jnz),
    ensures
        compiling_inv(code.push(a), open_idx, stk),
        enc(code.push(a)) == enc(code) + enc1(a),
{
    let code2 = code.push(a);
    assert(code2.drop_last() =~= code);
    assert forall|i: int| 0 <= i < open_idx.len() implies #[trigger] stk[i] == off(
        code2,
        open_idx[i],
    ) + 5 by {
        lemma_off_agree(code, code2, open_idx[i]);
    }
    assert forall|j: int| 0 <= j < code2.len() implies #[trigger] jump_ok(code2, open_idx, j) by {
        if j < code.len() {
            assert(jump_ok(code, open_idx, j));
            match code[j] {
                AbsInst::Jz(t) => {
                    if !is_open(open_idx, j) {
                        let m = choose|m: int| 0 <= m <= code.len() && t == off(code, m);
                        lemma_off_agree(code, code2, m);
                        assert(target_ok_mid(code2, t));
                    }
                },
                AbsInst::Jnz(t) => {
                    let m = choose|m: int| 0 <= m <= code.len() && t == off(code, m);
                    lemma_off_agree(code, code2, m);
                    assert(target_ok_mid(code2, t));
                },
                _ => {},
            }
        }
    }
}

/// Opening a loop: appending a loop-start with a placeholder target and
/// recording it as open keeps the invariant.
pub proof fn lemma_inv_push_open(code: Seq<AbsInst>, open_idx: Seq<int>, stk: Seq<int>, t: u32)
    requires
        compiling_inv(code, open_idx, stk),
    ensures
        compiling_inv(
            code.push(AbsInst::Jz(t)),
            open_idx.push(code.len() as int),
            stk.push(enc(code).len() as int + 5),
        ),
        enc(code.push(AbsInst::Jz(t))) == enc(code) + enc1(AbsInst::Jz(t)),
{
    let code2 = code.push(AbsInst::Jz(t));
    let open2 = open_idx.push(code.len() as int);
    let stk2 = stk.push(enc(code).len() as int + 5);
    assert(code2.drop_last() =~= code);
    lemma_enc_len(code);
    assert forall|i: int| 0 <= i < open2.len() implies #[trigger] stk2[i] == off(
        code2,
        open2[i],
    ) + 5 by {
        lemma_off_agree(code, code2, open2[i]);
    }
    assert forall|j: int| 0 <= j < code2.len() implies #[trigger] jump_ok(code2, open2, j) by {
        if j < code.len() {
            assert(jump_ok(code, open_idx, j));
            match code[j] {
                AbsInst::Jz(t0) => {
                    if is_open(open_idx, j) {
                        let i = choose|i: int| 0 <= i < open_idx.len() && open_idx[i] == j;
                        assert(open2[i] == j);
                        assert(is_open(open2, j));
                    } else {
                        let m = choose|m: int| 0 <= m <= code.len() && t0 == off(code, m);
                        lemma_off_agree(code, code2, m);
                        assert(target_ok_mid(code2, t0));
                    }
                },
                AbsInst::Jnz(t0) => {
                    let m = choose|m: int| 0 <= m <= code.len() && t0 == off(code, m);
                    lemma_off_agree(code, code2, m);
                    assert(target_ok_mid(code2, t0));
                },
                _ => {},
            }
        } else {
            assert(open2[open2.len() - 1] == j);
            assert(is_open(open2, j));
        }
    }
}

/// Closing a loop: appending the loop-end with its back-jump target and
/// patching the matching loop-start's placeholder keeps the invariant, and
/// re-encodes as exactly the bytes the compiler writes.
pub proof fn lemma_inv_close(code: Seq<AbsInst>, open_idx: Seq<int>, stk: Seq<int>) -> (jz: int)
    requires
        compiling_inv(code, open_idx, stk),
        open_idx.len() > 0,
        stk.last() <= u32::MAX as int,
        enc(code).len() + 5 <= u32::MAX as int,
    ensures
        ({
            let tb = stk.last() as u32;
            let te = (enc(code).len() + 5) as u32;
            let code3 = code.push(AbsInst::Jnz(tb)).update(jz, AbsInst::Jz(te));
            &&& jz == open_idx.last()
            &&& compiling_inv(code3, open_idx.drop_last(), stk.drop_last())
            &&& enc(code3) == store_le4(
                enc(code) + enc1(AbsInst::Jnz(tb)),
                stk.last() - 4,
                te,
            )
            &&& enc(code3).len() == enc(code).len() + 5
        }),
{
    let jz = open_idx.last();
    assert(open_idx[open_idx.len() - 1] == jz);
    assert(stk[stk.len() - 1] == off(code, jz) + 5);
    lemma_off_mono(code, 0, jz);
    assert(stk.last() >= 5);
    let tb = stk.last() as u32;
    let te = (enc(code).len() + 5) as u32;
    let code2 = code.push(AbsInst::Jnz(tb));
    let code3 = code2.update(jz, AbsInst::Jz(te));
    let open2 = open_idx.drop_last();
    let stk2 = stk.drop_last();
    assert(code2.drop_last() =~= code);
    lemma_enc_len(code);
    lemma_enc_len(code2);
    lemma_off_agree(code, code2, code.len() as int);
    assert(code[jz] is Jz);
    lemma_off_agree(code, code2, jz + 1);
    assert(off(code2, jz + 1) == off(code, jz) + 5);
    lemma_off_mono(code2, jz + 1, code2.len() as int);
    assert(stk.last() <= enc(code2).len());
    lemma_enc_update_jz(code2, jz, te);
    lemma_off_agree(code, code2, jz);
    assert(off(code2, jz) + 1 == stk.last() - 4);
    assert(enc(code3) == store_le4(enc(code2), stk.last() - 4, te));
    assert(enc(code2) == enc(code) + enc1(AbsInst::Jnz(tb)));
    lemma_store_le4_index(enc(code2), stk.last() - 4, te);
    lemma_enc_len(code3);
    lemma_off_update_same_width(code2, jz, AbsInst::Jz(te), code2.len() as int);
    // the patched loop-start targets the offset just past the new loop-end
    assert(te == off(code3, code3.len() as int));
    // the loop-end jumps back to the loop body's first instruction
    assert(tb == off(code, jz) + 5);
    lemma_off_agree(code, code2, jz + 1);
    lemma_off_update_same_width(code2, jz, AbsInst::Jz(te), jz + 1);
    assert(off(code3, jz + 1) == off(code, jz) + 5);
    // every untouched instruction keeps its offset
    assert forall|k: int| 0 <= k <= code.len() implies off(code3, k) == off(code, k) by {
        lemma_off_update_same_width(code2, jz, AbsInst::Jz(te), k);
        lemma_off_agree(code, code2, k);
    }
    assert forall|i: int| 0 <= i < open2.len() implies #[trigger] stk2[i] == off(
        code3,
        open2[i],
    ) + 5 by {
        assert(stk[i] == off(code, open_idx[i]) + 5);
    }
    assert forall|i: int| 0 <= i < open2.len() implies code3[#[trigger] open2[i]] is Jz by {
        assert(open_idx[i] < open_idx[open_idx.len() - 1]);
    }
    assert forall|j: int| 0 <= j < code3.len() implies #[trigger] jump_ok(code3, open2, j) by {
        if j == jz {
            assert(code3[j] == AbsInst::Jz(te));
            assert(target_ok_mid(code3, te));
        } else if j == code3.len() - 1 {
            assert(code3[j] == AbsInst::Jnz(tb));
            assert(off(code3, jz + 1) == tb);
            assert(target_ok_mid(code3, tb));
        } else {
            assert(code3[j] == code[j]);
            assert(jump_ok(code, open_idx, j));
            match code[j] {
                AbsInst::Jz(t0) => {
                    if is_open(open_idx, j) {
                        let i = choose|i: int| 0 <= i < open_idx.len() && open_idx[i] == j;
                        assert(i < open_idx.len() - 1) by {
                            if i == open_idx.len() - 1 {
                                assert(open_idx[i] == jz);
                            }
                        }
                        assert(open2[i] == j);
                        assert(is_open(open2, j));
                    } else {
                        let m = choose|m: int| 0 <= m <= code.len() && t0 == off(code, m);
                        assert(target_ok_mid(code3, t0));
                    }
                },
                AbsInst::Jnz(t0) => {
                    let m = choose|m: int| 0 <= m <= code.len() && t0 == off(code, m);
                    assert(target_ok_mid(code3, t0));
                },
                _ => {},
            }
        }
    }
    jz
}

/// Sealing the program: with no loop left open, appending the halt
/// instruction yields well-formed code.
pub proof fn lemma_inv_finish(code: Seq<AbsInst>, open_idx: Seq<int>, stk: Seq<int>)
    requires
        compiling_inv(code, open_idx, stk),
        open_idx.len() == 0,
    ensures
        wf_code(code.push(AbsInst::Halt)),
        enc(code.push(AbsInst::Halt)) == enc(code) + enc1(AbsInst::Halt),
        wf_bytecode(enc(code) + enc1(AbsInst::Halt)),
{
    let code2 = code.push(AbsInst::Halt);
    assert(code2.drop_last() =~= code);
    assert forall|j: int| 0 <= j < code2.len() implies target_ok(code2, #[trigger] code2[j]) by {
        if j < code.len() {
            assert(jump_ok(code, open_idx, j));
            match code[j] {
                AbsInst::Jz(t0) => {
                    assert(!is_open(open_idx, j));
                    let m = choose|m: int| 0 <= m <= code.len() && t0 == off(code, m);
                    lemma_off_agree(code, code2, m);
                    assert(0 <= m < code2.len() && t0 == off(code2, m));
                },
                AbsInst::Jnz(t0) => {
                    let m = choose|m: int| 0 <= m <= code.len() && t0 == off(code, m);
                    lemma_off_agree(code, code2, m);
                    assert(0 <= m < code2.len() && t0 == off(code2, m));
                },
                _ => {},
            }
        }
    }
    assert(wf_code(code2));
    assert(enc(code2) == enc(code) + enc1(AbsInst::Halt));
}

/// A running machine whose cursor stands on an instruction boundary.
pub open spec fn at_boundary(code: Seq<AbsInst>, s: MState) -> bool {
    s.status is Running ==> exists|k: int| 0 <= k < code.len() && s.cursor == off(code, k)
}

/// One step of a machine on well-formed bytecode keeps the cursor on an
/// instruction boundary and never faults on decoding.
pub proof fn lemma_step_no_invalid(code: Seq<AbsInst>, s: MState)
    requires
        wf_code(code),
        at_boundary(code, s),
        s.status != Status::Failed(RunError::InvalidInstruction),
    ensures
        at_boundary(code, step(enc(code), s)),
        step(enc(code), s).status != Status::Failed(RunError::InvalidInstruction),
{
    let bc = enc(code);
    if s.status is Running {
        let k = choose|k: int| 0 <= k < code.len() && s.cursor == off(code, k);
        lemma_enc_len(code);
        lemma_off_mono(code, 0, k);
        lemma_off_mono(code, k + 1, code.len() as int);
        lemma_enc_at(code, k);
        lemma_enc1_len(code[k]);
        assert(bc[s.cursor] == enc1(code[k])[0]) by {
            assert(bc.subrange(off(code, k), off(code, k + 1))[0] == bc[off(code, k)]);
        }
        if !(code[k] is Halt) {
            assert(k < code.len() - 1);
            lemma_off_mono(code, k + 1, code.len() - 1);
        }
        match code[k] {
            AbsInst::Jz(t) => {
                assert(forall|q: int|
                    0 <= q < 4 ==> bc[s.cursor + 1 + q] == #[trigger] le4(t)[q]) by {
                    assert(forall|q: int|
                        0 <= q < 4 ==> bc.subrange(off(code, k), off(code, k + 1))[1 + q]
                            == bc[#[trigger] (s.cursor + 1 + q)]);
                }
                lemma_le4_roundtrip(t);
                assert(le4_val(bc[s.cursor + 1], bc[s.cursor + 2], bc[s.cursor + 3], bc[s.cursor
                    + 4]) == t);
                let m = choose|m: int| 0 <= m < code.len() && t == off(code, m);
                assert(at_boundary(code, step(bc, s)));
            },
            AbsInst::Jnz(t) => {
                assert(forall|q: int|
                    0 <= q < 4 ==> bc[s.cursor + 1 + q] == #[trigger] le4(t)[q]) by {
                    assert(forall|q: int|
                        0 <= q < 4 ==> bc.subrange(off(code, k), off(code, k + 1))[1 + q]
                            == bc[#[trigger] (s.cursor + 1 + q)]);
                }
                lemma_le4_roundtrip(t);
                assert(le4_val(bc[s.cursor + 1], bc[s.cursor + 2], bc[s.cursor + 3], bc[s.cursor
                    + 4]) == t);
                let m = choose|m: int| 0 <= m < code.len() && t == off(code, m);
                assert(at_boundary(code, step(bc, s)));
            },
            _ => {},
        }
    }
}

/// From a boundary state, any number of steps on well-formed bytecode never
/// faults on decoding.
proof fn lemma_steps_no_invalid_from(code: Seq<AbsInst>, s: MState, n: nat)
    requires
        wf_code(code),
        at_boundary(code, s),
        s.status != Status::Failed(RunError::InvalidInstruction),
    ensures
        at_boundary(code, steps(enc(code), s, n)),
        steps(enc(code), s, n).status != Status::Failed(RunError::InvalidInstruction),
    decreases n,
{
    if n > 0 {
        lemma_steps_no_invalid_from(code, s, (n - 1) as nat);
        lemma_step_no_invalid(code, steps(enc(code), s, (n - 1) as nat));
    }
}

/// On a well-formed bytecode buffer the machine never faults on decoding,
/// however long it runs and whatever its input: the engine may trust a
/// conforming compiler's output.
pub proof fn lemma_wf_bytecode_no_invalid(bc: Seq<u8>, input: Seq<u8>, n: nat)
    requires
        wf_bytecode(bc),
    ensures
        steps(bc, init_state(input), n).status != Status::Failed(RunError::InvalidInstruction),
{
    let code = choose|code: Seq<AbsInst>| bc == #[trigger] enc(code) && wf_code(code);
    assert(init_state(input).cursor == off(code, 0));
    lemma_steps_no_invalid_from(code, init_state(input), n);
}

} // verus!
