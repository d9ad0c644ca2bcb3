//! Names for values.
use droidsaw_dex::decode::{Instruction, PoolIndex, RegList};
use droidsaw_dex::ids::{FieldIdx, MethodIdx, TypeIdx};
use droidsaw_dex::opcodes::Opcode;
use droidsaw_dex::ssa::body::VarId;
use droidsaw_dex::ssa::registers::classify_reg_use;

#[test]
fn varid_display_valid_java_identifier() {
    let v = VarId::new(3, 7);
    let s = v.to_text();
    assert_eq!(s, "v3_7");
    assert!(s.starts_with(|c: char| c.is_ascii_alphabetic() || c == '_' || c == '$'));
    assert!(s
        .chars()
        .all(|c| c.is_ascii_alphanumeric() || c == '_' || c == '$'));
}

#[test]
fn varid_ordering() {
    let a = VarId::new(0, 0);
    let b = VarId::new(0, 1);
    let c = VarId::new(1, 0);
    assert!(a < b);
    assert!(b < c);
}

#[test]
fn classify_iget_defines_dst() {
    let insn = Instruction {
        addr: 0,
        op: Opcode::Iget,
        size: 2,
        dst: Some(0),
        src: RegList::one(1),
        literal: 0,
        target: None,
        pool_idx: Some(PoolIndex::Field(FieldIdx(0))),
    };
    let ru = classify_reg_use(&insn);
    assert_eq!(ru.def, Some(0));
    assert_eq!(ru.reads, vec![1]);
    assert!(!ru.def_wide);
}

#[test]
fn classify_iput_no_def() {
    let insn = Instruction {
        addr: 0,
        op: Opcode::Iput,
        size: 2,
        dst: Some(1),
        src: RegList::one(0),
        literal: 0,
        target: None,
        pool_idx: Some(PoolIndex::Field(FieldIdx(0))),
    };
    let ru = classify_reg_use(&insn);
    assert_eq!(ru.def, None);
    assert_eq!(ru.reads, vec![1, 0]);
}

#[test]
fn classify_invoke_no_def_reads_src() {
    let insn = Instruction {
        addr: 0,
        op: Opcode::InvokeDirect,
        size: 3,
        dst: None,
        src: RegList::one(0),
        literal: 0,
        target: None,
        pool_idx: Some(PoolIndex::Method(MethodIdx(3))),
    };
    let ru = classify_reg_use(&insn);
    assert_eq!(ru.def, None);
    assert_eq!(ru.reads, vec![0]);
}

#[test]
fn classify_return_reads_dst() {
    let insn = Instruction {
        addr: 0,
        op: Opcode::Return,
        size: 1,
        dst: Some(0),
        src: RegList::empty(),
        literal: 0,
        target: None,
        pool_idx: None,
    };
    let ru = classify_reg_use(&insn);
    assert_eq!(ru.def, None);
    assert_eq!(ru.reads, vec![0]);
}

#[test]
fn classify_add_int_2addr() {
    let insn = Instruction {
        addr: 0,
        op: Opcode::AddInt2Addr,
        size: 1,
        dst: Some(0),
        src: RegList::one(1),
        literal: 0,
        target: None,
        pool_idx: None,
    };
    let ru = classify_reg_use(&insn);
    assert_eq!(ru.def, Some(0));
    assert_eq!(ru.reads, vec![0, 1]);
}

#[test]
fn classify_move_result_object_defines() {
    let insn = Instruction {
        addr: 0,
        op: Opcode::MoveResultObject,
        size: 1,
        dst: Some(2),
        src: RegList::empty(),
        literal: 0,
        target: None,
        pool_idx: None,
    };
    let ru = classify_reg_use(&insn);
    assert_eq!(ru.def, Some(2));
    assert!(ru.reads.is_empty());
}

#[test]
fn classify_nop_no_regs() {
    let insn = Instruction {
        addr: 0,
        op: Opcode::Nop,
        size: 1,
        dst: None,
        src: RegList::empty(),
        literal: 0,
        target: None,
        pool_idx: None,
    };
    let ru = classify_reg_use(&insn);
    assert_eq!(ru.def, None);
    assert!(ru.reads.is_empty());
}

#[test]
fn classify_check_cast_reads_and_writes_dst() {
    let insn = Instruction {
        addr: 0,
        op: Opcode::CheckCast,
        size: 2,
        dst: Some(0),
        src: RegList::empty(),
        literal: 0,
        target: None,
        pool_idx: Some(PoolIndex::Type(TypeIdx(1))),
    };
    let ru = classify_reg_use(&insn);
    assert_eq!(ru.def, Some(0));
    assert_eq!(ru.reads, vec![0]);
}
