//! Execution of single methods.
use droidsaw_dex::decode::{Instruction, PoolIndex, RegList};
use droidsaw_dex::emulator::{make_code_item, EmulatorCore, EmulatorError, Value};
use droidsaw_dex::ids::StringIdx;
use droidsaw_dex::opcodes::Opcode;

fn insn_base(addr: u32, op: Opcode) -> Instruction {
    Instruction {
        addr,
        op,
        size: 1,
        dst: None,
        src: RegList::empty(),
        literal: 0,
        target: None,
        pool_idx: None,
    }
}

fn insn_dst(addr: u32, op: Opcode, dst: u16) -> Instruction {
    let mut i = insn_base(addr, op);
    i.dst = Some(dst);
    i
}

fn insn_dst_lit(addr: u32, op: Opcode, dst: u16, literal: i64) -> Instruction {
    let mut i = insn_dst(addr, op, dst);
    i.literal = literal;
    i
}

fn insn_dst_src2(addr: u32, op: Opcode, dst: u16, src0: u16, src1: u16) -> Instruction {
    let mut i = insn_dst(addr, op, dst);
    i.src = RegList::two(src0, src1);
    i
}

fn insn_dst_src1(addr: u32, op: Opcode, dst: u16, src0: u16) -> Instruction {
    let mut i = insn_dst(addr, op, dst);
    i.src = RegList::one(src0);
    i
}

fn emu() -> EmulatorCore<'static> {
    EmulatorCore::without_dex()
}

#[test]
fn test_return_void() {
    let ci = make_code_item(1, 0, vec![insn_base(0, Opcode::ReturnVoid)]);
    assert_eq!(emu().execute(&ci, &[], 100).unwrap(), Value::Void);
}

#[test]
fn test_const4_return() {
    let load = insn_dst_lit(0, Opcode::Const4, 0, 7);
    let ret = insn_dst(1, Opcode::Return, 0);
    let ci = make_code_item(1, 0, vec![load, ret]);
    assert_eq!(emu().execute(&ci, &[], 100).unwrap(), Value::Int(7));
}

#[test]
fn test_const_wide() {
    let load = insn_dst_lit(0, Opcode::ConstWide, 0, i64::MAX);
    let ret = insn_dst(5, Opcode::ReturnWide, 0);
    let ci = make_code_item(2, 0, vec![load, ret]);
    assert_eq!(emu().execute(&ci, &[], 100).unwrap(), Value::Wide(i64::MAX));
}

#[test]
fn test_const_high16() {
    let load = insn_dst_lit(0, Opcode::ConstHigh16, 0, i64::from(0x0001_0000_i32));
    let ret = insn_dst(2, Opcode::Return, 0);
    let ci = make_code_item(1, 0, vec![load, ret]);
    assert_eq!(emu().execute(&ci, &[], 100).unwrap(), Value::Int(0x0001_0000));
}

#[test]
fn test_add_int() {
    let c0 = insn_dst_lit(0, Opcode::Const16, 0, 10);
    let c1 = insn_dst_lit(2, Opcode::Const16, 1, 20);
    let add = insn_dst_src2(4, Opcode::AddInt, 2, 0, 1);
    let ret = insn_dst(6, Opcode::Return, 2);
    let ci = make_code_item(3, 0, vec![c0, c1, add, ret]);
    assert_eq!(emu().execute(&ci, &[], 100).unwrap(), Value::Int(30));
}

#[test]
fn test_xor_int() {
    let c0 = insn_dst_lit(0, Opcode::Const16, 0, 0xFF);
    let c1 = insn_dst_lit(2, Opcode::Const16, 1, 0x0F);
    let xor = insn_dst_src2(4, Opcode::XorInt, 2, 0, 1);
    let ret = insn_dst(6, Opcode::Return, 2);
    let ci = make_code_item(3, 0, vec![c0, c1, xor, ret]);
    assert_eq!(emu().execute(&ci, &[], 100).unwrap(), Value::Int(0xF0));
}

#[test]
fn test_div_by_zero() {
    let c0 = insn_dst_lit(0, Opcode::Const16, 0, 5);
    let c1 = insn_dst_lit(2, Opcode::Const16, 1, 0);
    let div = insn_dst_src2(4, Opcode::DivInt, 2, 0, 1);
    let ret = insn_dst(6, Opcode::Return, 2);
    let ci = make_code_item(3, 0, vec![c0, c1, div, ret]);
    assert!(matches!(
        emu().execute(&ci, &[], 100),
        Err(EmulatorError::DivisionByZero)
    ));
}

#[test]
fn test_lit8_add() {
    let add = {
        let mut i = insn_dst(0, Opcode::AddIntLit8, 1);
        i.src = RegList::one(1);
        i.literal = 5;
        i
    };
    let ret = insn_dst(2, Opcode::Return, 1);
    let ci = make_code_item(2, 1, vec![add, ret]);
    assert_eq!(emu().execute(&ci, &[Value::Int(3)], 100).unwrap(), Value::Int(8));
}

#[test]
fn test_rsub_int() {
    let c0 = insn_dst_lit(0, Opcode::Const16, 0, 30);
    let rsub = {
        let mut i = insn_dst(2, Opcode::RsubInt, 1);
        i.src = RegList::one(0);
        i.literal = 100;
        i
    };
    let ret = insn_dst(4, Opcode::Return, 1);
    let ci = make_code_item(2, 0, vec![c0, rsub, ret]);
    assert_eq!(emu().execute(&ci, &[], 100).unwrap(), Value::Int(70));
}

#[test]
fn test_2addr_xor() {
    let c0 = insn_dst_lit(0, Opcode::Const16, 0, 0xAA);
    let c1 = insn_dst_lit(2, Opcode::Const16, 1, 0x55);
    let xor = {
        let mut i = insn_dst(4, Opcode::XorInt2Addr, 0);
        i.src = RegList::one(1);
        i
    };
    let ret = insn_dst(5, Opcode::Return, 0);
    let ci = make_code_item(2, 0, vec![c0, c1, xor, ret]);
    assert_eq!(emu().execute(&ci, &[], 100).unwrap(), Value::Int(0xFF));
}

#[test]
fn test_budget_exceeded() {
    let mut goto = insn_base(0, Opcode::Goto);
    goto.target = Some(0);
    goto.size = 1;
    let ci = make_code_item(1, 0, vec![goto]);
    assert!(matches!(
        emu().execute(&ci, &[], 100),
        Err(EmulatorError::BudgetExceeded { budget: 100 })
    ));
}

#[test]
fn test_register_oob() {
    let ret = insn_dst(0, Opcode::Return, 5);
    let ci = make_code_item(2, 0, vec![ret]);
    assert!(matches!(
        emu().execute(&ci, &[], 100),
        Err(EmulatorError::RegisterOutOfRange { reg: 5, size: 2 })
    ));
}

#[test]
fn test_unsupported_invoke_no_pool_idx() {
    let invoke = insn_base(0, Opcode::InvokeStatic);
    let ci = make_code_item(1, 0, vec![invoke]);
    assert!(matches!(
        emu().execute(&ci, &[], 100),
        Err(EmulatorError::InvokeResolutionError { .. })
    ));
}

#[test]
fn test_unsupported_invoke_super() {
    let invoke = insn_base(0, Opcode::InvokeSuper);
    let ci = make_code_item(1, 0, vec![invoke]);
    assert!(matches!(
        emu().execute(&ci, &[], 100),
        Err(EmulatorError::Unsupported { .. })
    ));
}

#[test]
fn test_unsupported_const_string_no_dex() {
    let cs = {
        let mut i = insn_dst(0, Opcode::ConstString, 0);
        i.pool_idx = Some(PoolIndex::String(StringIdx(0)));
        i
    };
    let ci = make_code_item(1, 0, vec![cs]);
    assert!(matches!(
        emu().execute(&ci, &[], 100),
        Err(EmulatorError::Unsupported { .. })
    ));
}

#[test]
fn test_if_eq_taken() {
    let c0 = insn_dst_lit(0, Opcode::Const16, 0, 5);
    let c1 = insn_dst_lit(2, Opcode::Const16, 1, 5);
    let mut branch = insn_base(4, Opcode::IfEq);
    branch.src = RegList::two(0, 1);
    branch.target = Some(8);
    branch.size = 2;
    let fall_const = insn_dst_lit(6, Opcode::Const16, 2, 1);
    let taken_const = insn_dst_lit(8, Opcode::Const16, 2, 2);
    let ret = insn_dst(10, Opcode::Return, 2);
    let ci = make_code_item(3, 0, vec![c0, c1, branch, fall_const, taken_const, ret]);
    assert_eq!(emu().execute(&ci, &[], 100).unwrap(), Value::Int(2));
}

#[test]
fn test_if_eq_not_taken() {
    let c0 = insn_dst_lit(0, Opcode::Const16, 0, 3);
    let c1 = insn_dst_lit(2, Opcode::Const16, 1, 5);
    let mut branch = insn_base(4, Opcode::IfEq);
    branch.src = RegList::two(0, 1);
    branch.target = Some(10);
    branch.size = 2;
    let fall_const = insn_dst_lit(6, Opcode::Const16, 2, 1);
    let ret = insn_dst(8, Opcode::Return, 2);
    let taken_const = insn_dst_lit(10, Opcode::Const16, 2, 2);
    let ret2 = insn_dst(12, Opcode::Return, 2);
    let ci = make_code_item(3, 0, vec![c0, c1, branch, fall_const, ret, taken_const, ret2]);
    assert_eq!(emu().execute(&ci, &[], 100).unwrap(), Value::Int(1));
}

#[test]
fn test_if_eqz() {
    let c0 = insn_dst_lit(0, Opcode::Const16, 0, 0);
    let mut branch = insn_dst(2, Opcode::IfEqz, 0);
    branch.target = Some(6);
    branch.size = 2;
    let fall = insn_dst_lit(4, Opcode::Const16, 1, 10);
    let taken = insn_dst_lit(6, Opcode::Const16, 1, 99);
    let ret = insn_dst(8, Opcode::Return, 1);
    let ci = make_code_item(2, 0, vec![c0, branch, fall, taken, ret]);
    assert_eq!(emu().execute(&ci, &[], 100).unwrap(), Value::Int(99));
}

#[test]
fn test_array_put_get() {
    let len_reg = insn_dst_lit(0, Opcode::Const16, 0, 3);
    let mut new_arr = insn_dst(2, Opcode::NewArray, 1);
    new_arr.src = RegList::one(0);
    new_arr.size = 2;
    let c_val = insn_dst_lit(4, Opcode::Const16, 2, 99);
    let c_idx = insn_dst_lit(6, Opcode::Const16, 3, 1);
    let mut aput = insn_dst(8, Opcode::Aput, 2);
    aput.src = RegList::two(1, 3);
    aput.size = 2;
    let mut aget = insn_dst(10, Opcode::Aget, 4);
    aget.src = RegList::two(1, 3);
    aget.size = 2;
    let ret = insn_dst(12, Opcode::Return, 4);
    let ci =
        make_code_item(5, 0, vec![len_reg, new_arr, c_val, c_idx, aput, aget, ret]);
    assert_eq!(emu().execute(&ci, &[], 200).unwrap(), Value::Int(99));
}

#[test]
fn test_array_oob() {
    let c_len = insn_dst_lit(0, Opcode::Const16, 0, 2);
    let mut new_arr = insn_dst(2, Opcode::NewArray, 1);
    new_arr.src = RegList::one(0);
    new_arr.size = 2;
    let c_idx = insn_dst_lit(4, Opcode::Const16, 2, 5);
    let mut aget = insn_dst(6, Opcode::Aget, 3);
    aget.src = RegList::two(1, 2);
    aget.size = 2;
    let ret = insn_dst(8, Opcode::Return, 3);
    let ci = make_code_item(4, 0, vec![c_len, new_arr, c_idx, aget, ret]);
    assert!(matches!(
        emu().execute(&ci, &[], 100),
        Err(EmulatorError::ArrayOutOfBounds { .. })
    ));
}

#[test]
fn test_negative_array_length() {
    let c_len = insn_dst_lit(0, Opcode::Const16, 0, i64::from(-1_i32));
    let mut new_arr = insn_dst(2, Opcode::NewArray, 1);
    new_arr.src = RegList::one(0);
    new_arr.size = 2;
    let ret = insn_dst(4, Opcode::Return, 1);
    let ci = make_code_item(2, 0, vec![c_len, new_arr, ret]);
    assert!(matches!(
        emu().execute(&ci, &[], 100),
        Err(EmulatorError::NegativeArrayLength { length: -1 })
    ));
}

#[test]
fn test_aput_byte_masks() {
    let c_len = insn_dst_lit(0, Opcode::Const16, 0, 1);
    let mut new_arr = insn_dst(2, Opcode::NewArray, 1);
    new_arr.src = RegList::one(0);
    new_arr.size = 2;
    let c_val = insn_dst_lit(4, Opcode::Const16, 2, 0x1FF);
    let c_idx = insn_dst_lit(6, Opcode::Const16, 3, 0);
    let mut aput = insn_dst(8, Opcode::AputByte, 2);
    aput.src = RegList::two(1, 3);
    aput.size = 2;
    let mut aget = insn_dst(10, Opcode::AgetByte, 4);
    aget.src = RegList::two(1, 3);
    aget.size = 2;
    let ret = insn_dst(12, Opcode::Return, 4);
    let ci =
        make_code_item(5, 0, vec![c_len, new_arr, c_val, c_idx, aput, aget, ret]);
    assert_eq!(emu().execute(&ci, &[], 200).unwrap(), Value::Int(-1));
}

#[test]
fn test_move() {
    let c0 = insn_dst_lit(0, Opcode::Const16, 0, 42);
    let mv = insn_dst_src1(2, Opcode::Move, 1, 0);
    let ret = insn_dst(4, Opcode::Return, 1);
    let ci = make_code_item(2, 0, vec![c0, mv, ret]);
    assert_eq!(emu().execute(&ci, &[], 100).unwrap(), Value::Int(42));
}

#[test]
fn test_argument_passing() {
    let add = {
        let mut i = insn_dst(0, Opcode::AddIntLit8, 0);
        i.src = RegList::one(1);
        i.literal = 10;
        i
    };
    let ret = insn_dst(2, Opcode::Return, 0);
    let ci = make_code_item(2, 1, vec![add, ret]);
    assert_eq!(
        emu().execute(&ci, &[Value::Int(5)], 100).unwrap(),
        Value::Int(15)
    );
}

#[test]
fn test_ushr_int() {
    let c0 = insn_dst_lit(0, Opcode::Const, 0, i64::from(-4_i32));
    let c1 = insn_dst_lit(3, Opcode::Const16, 1, 1);
    let ushr = insn_dst_src2(5, Opcode::UshrInt, 2, 0, 1);
    let ret = insn_dst(7, Opcode::Return, 2);
    let ci = make_code_item(3, 0, vec![c0, c1, ushr, ret]);
    assert_eq!(
        emu().execute(&ci, &[], 100).unwrap(),
        Value::Int(0x7FFF_FFFE_u32 as i32)
    );
}

#[test]
fn test_wrapping_add() {
    let c0 = insn_dst_lit(0, Opcode::Const, 0, i64::from(i32::MAX));
    let c1 = insn_dst_lit(3, Opcode::Const16, 1, 1);
    let add = insn_dst_src2(5, Opcode::AddInt, 2, 0, 1);
    let ret = insn_dst(7, Opcode::Return, 2);
    let ci = make_code_item(3, 0, vec![c0, c1, add, ret]);
    assert_eq!(
        emu().execute(&ci, &[], 100).unwrap(),
        Value::Int(i32::MIN)
    );
}
