//! Tests of the compiler: bytecode layout, jump resolution, and the
//! bracket-mismatch errors.

use bfvm::compiler::{compile, CompileError, Inst};
use bfvm::lex::{Lexer, Token};

fn compile_str(s: &str) -> Result<Vec<u8>, CompileError> {
    compile(Lexer(s.as_bytes().to_vec()))
}

fn addr_at(bc: &[u8], pos: usize) -> u32 {
    u32::from_le_bytes([bc[pos], bc[pos + 1], bc[pos + 2], bc[pos + 3]])
}

#[test]
fn empty_source_compiles_to_one_halt() {
    let bc = compile_str("").unwrap();
    assert_eq!(bc.len(), 1);
    assert_eq!(bc[0], Inst::Halt.to_bc());
}

#[test]
fn simple_tokens_emit_one_opcode_each() {
    let bc = compile_str("><+-.,").unwrap();
    assert_eq!(
        bc,
        vec![
            Inst::IncPtr.to_bc(),
            Inst::DecPtr.to_bc(),
            Inst::Inc.to_bc(),
            Inst::Dec.to_bc(),
            Inst::Out.to_bc(),
            Inst::Inp.to_bc(),
            Inst::Halt.to_bc(),
        ]
    );
}

#[test]
fn comments_are_skipped() {
    let bc = compile_str("a + b\n! %").unwrap();
    assert_eq!(bc, vec![Inst::Inc.to_bc(), Inst::Halt.to_bc()]);
}

#[test]
fn nested_loops_resolve_jump_targets() {
    // Layout of "[[]]":
    //   0: Jz  outer  (address at 1..5)
    //   5: Jz  inner  (address at 6..10)
    //  10: Jnz inner  (address at 11..15)
    //  15: Jnz outer  (address at 16..20)
    //  20: Halt
    let bc = compile_str("[[]]").unwrap();
    assert_eq!(bc.len(), 21);
    assert_eq!(bc[0], Inst::Jz.to_bc());
    assert_eq!(bc[5], Inst::Jz.to_bc());
    assert_eq!(bc[10], Inst::Jnz.to_bc());
    assert_eq!(bc[15], Inst::Jnz.to_bc());
    assert_eq!(bc[20], Inst::Halt.to_bc());
    // Each jump-if-zero targets the offset just past its matching
    // jump-if-nonzero's address field: the loop's exit point.
    assert_eq!(addr_at(&bc, 1), 20);
    assert_eq!(addr_at(&bc, 6), 15);
    // Each jump-if-nonzero targets the first instruction of its loop body.
    assert_eq!(addr_at(&bc, 11), 10);
    assert_eq!(addr_at(&bc, 16), 5);
}

#[test]
fn loop_end_without_start_is_an_error() {
    assert_eq!(compile_str("]"), Err(CompileError::UnmatchedLoopEnd));
    assert_eq!(compile_str("+]"), Err(CompileError::UnmatchedLoopEnd));
    assert_eq!(compile_str("[]]["), Err(CompileError::UnmatchedLoopEnd));
}

#[test]
fn open_loop_start_at_end_is_an_error() {
    assert_eq!(compile_str("["), Err(CompileError::UnmatchedLoopStart));
    assert_eq!(compile_str("[[]"), Err(CompileError::UnmatchedLoopStart));
    assert_eq!(compile_str("[+["), Err(CompileError::UnmatchedLoopStart));
}

#[test]
fn excess_loop_end_wins_over_open_start() {
    // The excess `]` is met before end-of-input, so it is reported even
    // though a `[` is also left open afterwards.
    assert_eq!(compile_str("]["), Err(CompileError::UnmatchedLoopEnd));
}

#[test]
fn opcode_round_trip() {
    let all = [
        Inst::IncPtr,
        Inst::DecPtr,
        Inst::Inc,
        Inst::Dec,
        Inst::Out,
        Inst::Inp,
        Inst::Jz,
        Inst::Jnz,
        Inst::Halt,
    ];
    for (i, inst) in all.iter().enumerate() {
        assert_eq!(inst.to_bc() as usize, i);
        assert_eq!(Inst::from_bc(inst.to_bc()), Some(*inst));
    }
    assert_eq!(Inst::from_bc(9), None);
    assert_eq!(Inst::from_bc(255), None);
}

#[test]
fn lexer_classifies_bytes() {
    let mut l = Lexer(b"><+-.,[]x".to_vec());
    assert_eq!(l.len_hint(), 9);
    assert!(matches!(l.next(), Token::RAngle));
    assert!(matches!(l.next(), Token::LAngle));
    assert!(matches!(l.next(), Token::Plus));
    assert!(matches!(l.next(), Token::Minus));
    assert!(matches!(l.next(), Token::Dot));
    assert!(matches!(l.next(), Token::Comma));
    assert!(matches!(l.next(), Token::LBrack));
    assert!(matches!(l.next(), Token::RBrack));
    assert!(matches!(l.next(), Token::Comment));
    assert_eq!(l.len_hint(), 0);
    assert!(matches!(l.next(), Token::Eof));
    assert!(matches!(l.next(), Token::Eof));
}
