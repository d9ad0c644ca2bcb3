//! Instructions read back from their code units.
use vstd::prelude::*;

use crate::bytes::{le16, read_le16, twos64};
use crate::decode::{Instruction, PoolIndex, RegList};
use crate::emit_dex::instruction::{
    arg4, dst4, dst8, insn_units, literal4, literal8, pool_value, src4, src8, unit_bytes, units_as,
};
use crate::opcodes::{InsnFormat, Opcode};

verus! {

/// The operands that a format carries.
#[verifier::ext_equal]
pub struct Operands {
    pub dst: Option<int>,
    pub src: Seq<int>,
    pub literal: Option<int>,
    pub target: Option<int>,
    pub pool: Option<int>,
    pub proto: Option<int>,
}

pub open spec fn operands(
    dst: Option<int>,
    src: Seq<int>,
    literal: Option<int>,
    target: Option<int>,
    pool: Option<int>,
    proto: Option<int>,
) -> Operands {
    Operands { dst, src, literal, target, pool, proto }
}

/// The signed number that an unsigned one below `n` stands for.
pub open spec fn signed_bits(x: int, n: int) -> int {
    if 2 * x >= n {
        x - n
    } else {
        x
    }
}

/// The argument registers of a call with at most five: the number of them and the
/// fifth are in the first unit, the other four in the third.
pub open spec fn packed(u0: int, u2: int) -> Seq<int> {
    seq![u2 % 16, u2 / 16 % 16, u2 / 256 % 16, u2 / 4096, u0 / 256 % 16].take(u0 / 4096)
}

/// The operands in the code units of an instruction of format `fmt` at `pc`; `wide`
/// tells the two operations apart that carry the high bits of a constant.
pub open spec fn operands_read(fmt: InsnFormat, wide: bool, units: Seq<u16>, pc: int) -> Operands {
    let u0 = units[0] as int;
    let u1 = units[1] as int;
    let u2 = units[2] as int;
    let u3 = units[3] as int;
    let u4 = units[4] as int;
    match fmt {
        InsnFormat::F10x => operands(
            None,
            Seq::empty(),
            None,
            None,
            None,
            None,
        ),
        InsnFormat::F12x => operands(
            Some(u0 / 256 % 16),
            seq![u0 / 4096],
            None,
            None,
            None,
            None,
        ),
        InsnFormat::F11n => operands(
            Some(u0 / 256 % 16),
            Seq::empty(),
            Some(signed_bits(u0 / 4096, 16)),
            None,
            None,
            None,
        ),
        InsnFormat::F11x => operands(
            Some(u0 / 256),
            Seq::empty(),
            None,
            None,
            None,
            None,
        ),
        InsnFormat::F10t => operands(
            None,
            Seq::empty(),
            None,
            Some(pc + signed_bits(u0 / 256, 0x100)),
            None,
            None,
        ),
        InsnFormat::F20t => operands(
            None,
            Seq::empty(),
            None,
            Some(pc + signed_bits(u1, 0x1_0000)),
            None,
            None,
        ),
        InsnFormat::F22x => operands(
            Some(u0 / 256),
            seq![u1],
            None,
            None,
            None,
            None,
        ),
        InsnFormat::F21t => operands(
            Some(u0 / 256),
            Seq::empty(),
            None,
            Some(pc + signed_bits(u1, 0x1_0000)),
            None,
            None,
        ),
        InsnFormat::F21s => operands(
            Some(u0 / 256),
            Seq::empty(),
            Some(signed_bits(u1, 0x1_0000)),
            None,
            None,
            None,
        ),
        InsnFormat::F21h => operands(
            Some(u0 / 256),
            Seq::empty(),
            Some(if wide {
                signed_bits(u1 * 0x1_0000_0000_0000, 0x1_0000_0000_0000_0000)
            } else {
                signed_bits(u1 * 0x1_0000, 0x1_0000_0000)
            }),
            None,
            None,
            None,
        ),
        InsnFormat::F21c => operands(
            Some(u0 / 256),
            Seq::empty(),
            None,
            None,
            Some(u1),
            None,
        ),
        InsnFormat::F23x => operands(
            Some(u0 / 256),
            seq![u1 % 256, u1 / 256],
            None,
            None,
            None,
            None,
        ),
        InsnFormat::F22t => operands(
            None,
            seq![u0 / 256 % 16, u0 / 4096],
            None,
            Some(pc + signed_bits(u1, 0x1_0000)),
            None,
            None,
        ),
        InsnFormat::F22s => operands(
            Some(u0 / 256 % 16),
            seq![u0 / 4096],
            Some(signed_bits(u1, 0x1_0000)),
            None,
            None,
            None,
        ),
        InsnFormat::F22c => operands(
            Some(u0 / 256 % 16),
            seq![u0 / 4096],
            None,
            None,
            Some(u1),
            None,
        ),
        InsnFormat::F22b => operands(
            Some(u0 / 256),
            seq![u1 % 256],
            Some(signed_bits(u1 / 256, 0x100)),
            None,
            None,
            None,
        ),
        InsnFormat::F30t => operands(
            None,
            Seq::empty(),
            None,
            Some(pc + signed_bits(u1 + u2 * 0x1_0000, 0x1_0000_0000)),
            None,
            None,
        ),
        InsnFormat::F32x => operands(
            Some(u1),
            seq![u2],
            None,
            None,
            None,
            None,
        ),
        InsnFormat::F31i => operands(
            Some(u0 / 256),
            Seq::empty(),
            Some(signed_bits(u1 + u2 * 0x1_0000, 0x1_0000_0000)),
            None,
            None,
            None,
        ),
        InsnFormat::F31t => operands(
            Some(u0 / 256),
            Seq::empty(),
            None,
            Some(pc + signed_bits(u1 + u2 * 0x1_0000, 0x1_0000_0000)),
            None,
            None,
        ),
        InsnFormat::F31c => operands(
            Some(u0 / 256),
            Seq::empty(),
            None,
            None,
            Some(u1 + u2 * 0x1_0000),
            None,
        ),
        InsnFormat::F35c => operands(
            None,
            packed(u0, u2),
            None,
            None,
            Some(u1),
            None,
        ),
        InsnFormat::F3rc => operands(
            None,
            seq![u2],
            Some(u0 / 256),
            None,
            Some(u1),
            None,
        ),
        InsnFormat::F45cc => operands(
            None,
            packed(u0, u2),
            None,
            None,
            Some(u1),
            Some(u3),
        ),
        InsnFormat::F4rcc => operands(
            None,
            seq![u2],
            Some(u0 / 256),
            None,
            Some(u1),
            Some(u3),
        ),
        InsnFormat::F51l => operands(
            Some(u0 / 256),
            Seq::empty(),
            Some(signed_bits(
                u1 + u2 * 0x1_0000 + u3 * 0x1_0000_0000 + u4 * 0x1_0000_0000_0000,
                0x1_0000_0000_0000_0000,
            )),
            None,
            None,
            None,
        ),
    }
}

pub open spec fn register(r: Option<u16>) -> Option<int> {
    match r {
        Some(x) => Some(x as int),
        None => None,
    }
}

pub open spec fn address(t: Option<u32>) -> Option<int> {
    match t {
        Some(x) => Some(x as int),
        None => None,
    }
}

pub open spec fn index(p: Option<PoolIndex>) -> Option<int> {
    match p {
        Some(x) => Some(pool_value(x)),
        None => None,
    }
}

pub open spec fn prototype(p: Option<PoolIndex>) -> Option<int> {
    match p {
        Some(PoolIndex::MethodAndProto(_, x)) => Some(x.0 as int),
        _ => None,
    }
}

pub open spec fn held(l: RegList) -> Seq<int> {
    Seq::new(l.held().len(), |i: int| l.held()[i] as int)
}

/// The operands of an instruction that its format carries.
pub open spec fn operands_carried(fmt: InsnFormat, insn: Instruction) -> Operands {
    match fmt {
        InsnFormat::F10x => operands(
            None,
            Seq::empty(),
            None,
            None,
            None,
            None,
        ),
        InsnFormat::F12x => operands(
            register(insn.dst),
            seq![insn.src.held()[0] as int],
            None,
            None,
            None,
            None,
        ),
        InsnFormat::F11n => operands(
            register(insn.dst),
            Seq::empty(),
            Some(insn.literal as int),
            None,
            None,
            None,
        ),
        InsnFormat::F11x => operands(
            register(insn.dst),
            Seq::empty(),
            None,
            None,
            None,
            None,
        ),
        InsnFormat::F10t => operands(
            None,
            Seq::empty(),
            None,
            address(insn.target),
            None,
            None,
        ),
        InsnFormat::F20t => operands(
            None,
            Seq::empty(),
            None,
            address(insn.target),
            None,
            None,
        ),
        InsnFormat::F22x => operands(
            register(insn.dst),
            seq![insn.src.held()[0] as int],
            None,
            None,
            None,
            None,
        ),
        InsnFormat::F21t => operands(
            register(insn.dst),
            Seq::empty(),
            None,
            address(insn.target),
            None,
            None,
        ),
        InsnFormat::F21s => operands(
            register(insn.dst),
            Seq::empty(),
            Some(insn.literal as int),
            None,
            None,
            None,
        ),
        InsnFormat::F21h => operands(
            register(insn.dst),
            Seq::empty(),
            Some(insn.literal as int),
            None,
            None,
            None,
        ),
        InsnFormat::F21c => operands(
            register(insn.dst),
            Seq::empty(),
            None,
            None,
            index(insn.pool_idx),
            None,
        ),
        InsnFormat::F23x => operands(
            register(insn.dst),
            seq![insn.src.held()[0] as int, insn.src.held()[1] as int],
            None,
            None,
            None,
            None,
        ),
        InsnFormat::F22t => operands(
            None,
            seq![insn.src.held()[0] as int, insn.src.held()[1] as int],
            None,
            address(insn.target),
            None,
            None,
        ),
        InsnFormat::F22s => operands(
            register(insn.dst),
            seq![insn.src.held()[0] as int],
            Some(insn.literal as int),
            None,
            None,
            None,
        ),
        InsnFormat::F22c => operands(
            register(insn.dst),
            seq![insn.src.held()[0] as int],
            None,
            None,
            index(insn.pool_idx),
            None,
        ),
        InsnFormat::F22b => operands(
            register(insn.dst),
            seq![insn.src.held()[0] as int],
            Some(insn.literal as int),
            None,
            None,
            None,
        ),
        InsnFormat::F30t => operands(
            None,
            Seq::empty(),
            None,
            address(insn.target),
            None,
            None,
        ),
        InsnFormat::F32x => operands(
            register(insn.dst),
            seq![insn.src.held()[0] as int],
            None,
            None,
            None,
            None,
        ),
        InsnFormat::F31i => operands(
            register(insn.dst),
            Seq::empty(),
            Some(insn.literal as int),
            None,
            None,
            None,
        ),
        InsnFormat::F31t => operands(
            register(insn.dst),
            Seq::empty(),
            None,
            address(insn.target),
            None,
            None,
        ),
        InsnFormat::F31c => operands(
            register(insn.dst),
            Seq::empty(),
            None,
            None,
            index(insn.pool_idx),
            None,
        ),
        InsnFormat::F35c => operands(
            None,
            held(insn.src),
            None,
            None,
            index(insn.pool_idx),
            None,
        ),
        InsnFormat::F3rc => operands(
            None,
            seq![insn.src.regs@[0] as int],
            Some(insn.literal as int),
            None,
            index(insn.pool_idx),
            None,
        ),
        InsnFormat::F45cc => operands(
            None,
            held(insn.src),
            None,
            None,
            index(insn.pool_idx),
            prototype(insn.pool_idx),
        ),
        InsnFormat::F4rcc => operands(
            None,
            seq![if insn.src.count == 0 {
                0
            } else {
                insn.src.held()[0] as int
            }],
            Some(insn.literal as int),
            None,
            index(insn.pool_idx),
            prototype(insn.pool_idx),
        ),
        InsnFormat::F51l => operands(
            register(insn.dst),
            Seq::empty(),
            Some(insn.literal as int),
            None,
            None,
            None,
        ),
    }
}

/// The operation that carries the high bits of a 64-bit constant.
pub open spec fn is_wide(op: Opcode) -> bool {
    op == Opcode::ConstWideHigh16
}

/// What an instruction with the opcode `op` in the format `fmt` owes its readers.
spec fn reads(fmt: InsnFormat, op: int, insn: Instruction) -> bool {
    let units = units_as(fmt, op, insn)->Ok_0;
    &&& units.len() == fmt.units()
    &&& units[0] as int % 256 == op
    &&& operands_read(fmt, is_wide(insn.op), units, insn.addr as int) == operands_carried(fmt, insn)
}

proof fn lemma_nibbles(op: int, a: int, b: int)
    requires
        0 <= op < 256,
        0 <= a < 16,
        0 <= b < 16,
    ensures
        ({
            let u = (op + a * 256 + b * 4096) as u16 as int;
            &&& u == op + a * 256 + b * 4096
            &&& u % 256 == op
            &&& u / 256 % 16 == a
            &&& u / 4096 == b
        }),
{
}

proof fn lemma_four(c: int, d: int, e: int, f: int)
    requires
        0 <= c < 16,
        0 <= d < 16,
        0 <= e < 16,
        0 <= f < 16,
    ensures
        ({
            let u = (c + d * 16 + e * 256 + f * 4096) as u16 as int;
            &&& u % 16 == c
            &&& u / 16 % 16 == d
            &&& u / 256 % 16 == e
            &&& u / 4096 == f
        }),
{
}

proof fn lemma_quarters(x: int)
    requires
        0 <= x < 0x1_0000_0000_0000_0000,
    ensures
        x % 0x1_0000 + (x / 0x1_0000 % 0x1_0000) * 0x1_0000 + (x / 0x1_0000_0000 % 0x1_0000)
            * 0x1_0000_0000 + (x / 0x1_0000_0000_0000) * 0x1_0000_0000_0000 == x,
        0 <= x / 0x1_0000_0000_0000 < 0x1_0000,
{
}

#[verifier::rlimit(60)]
proof fn lemma_bytes(fmt: InsnFormat, op: int, insn: Instruction)
    requires
        0 <= op < 256,
        units_as(fmt, op, insn) is Ok,
        fmt is F10x || fmt is F11x || fmt is F10t,
    ensures
        reads(fmt, op, insn),
{
    let units = units_as(fmt, op, insn)->Ok_0;
    let read = operands_read(fmt, is_wide(insn.op), units, insn.addr as int);
    let want = operands_carried(fmt, insn);
    assert(read.src =~= want.src);
    assert(read =~= want);
}

#[verifier::rlimit(60)]
proof fn lemma_pair(fmt: InsnFormat, op: int, insn: Instruction)
    requires
        0 <= op < 256,
        units_as(fmt, op, insn) is Ok,
        fmt is F12x,
    ensures
        reads(fmt, op, insn),
{
    let units = units_as(fmt, op, insn)->Ok_0;
    let read = operands_read(fmt, is_wide(insn.op), units, insn.addr as int);
    let want = operands_carried(fmt, insn);
    lemma_nibbles(op, dst4(insn)->Ok_0, src4(insn, 0)->Ok_0);
    assert(read.src =~= want.src);
    assert(read =~= want);
}

#[verifier::rlimit(60)]
proof fn lemma_small_literal(fmt: InsnFormat, op: int, insn: Instruction)
    requires
        0 <= op < 256,
        units_as(fmt, op, insn) is Ok,
        fmt is F11n,
    ensures
        reads(fmt, op, insn),
{
    let units = units_as(fmt, op, insn)->Ok_0;
    let read = operands_read(fmt, is_wide(insn.op), units, insn.addr as int);
    let want = operands_carried(fmt, insn);
    lemma_nibbles(op, dst4(insn)->Ok_0, literal4(insn)->Ok_0);
    assert(read.src =~= want.src);
    assert(read =~= want);
}

#[verifier::rlimit(60)]
proof fn lemma_two_units(fmt: InsnFormat, op: int, insn: Instruction)
    requires
        0 <= op < 256,
        units_as(fmt, op, insn) is Ok,
        fmt is F20t || fmt is F22x || fmt is F21t || fmt is F21s,
    ensures
        reads(fmt, op, insn),
{
    let units = units_as(fmt, op, insn)->Ok_0;
    let read = operands_read(fmt, is_wide(insn.op), units, insn.addr as int);
    let want = operands_carried(fmt, insn);
    assert(read.src =~= want.src);
    assert(read =~= want);
}

#[verifier::rlimit(60)]
proof fn lemma_high_bits(fmt: InsnFormat, op: int, insn: Instruction)
    requires
        0 <= op < 256,
        units_as(fmt, op, insn) is Ok,
        fmt is F21h,
    ensures
        reads(fmt, op, insn),
{
    let units = units_as(fmt, op, insn)->Ok_0;
    let read = operands_read(fmt, is_wide(insn.op), units, insn.addr as int);
    let want = operands_carried(fmt, insn);
    assert(read.src =~= want.src);
    assert(read =~= want);
}

proof fn lemma_halves(a: int, b: int)
    requires
        0 <= a < 256,
        0 <= b < 256,
    ensures
        (a + b * 256) as u16 as int % 256 == a,
        (a + b * 256) as u16 as int / 256 == b,
{
}

#[verifier::rlimit(60)]
proof fn lemma_register_and_index(fmt: InsnFormat, op: int, insn: Instruction)
    requires
        0 <= op < 256,
        units_as(fmt, op, insn) is Ok,
        fmt is F21c,
    ensures
        reads(fmt, op, insn),
{
    let units = units_as(fmt, op, insn)->Ok_0;
    let read = operands_read(fmt, is_wide(insn.op), units, insn.addr as int);
    let want = operands_carried(fmt, insn);
    lemma_halves(op, dst8(insn)->Ok_0);
    assert(read.src =~= want.src);
    assert(read =~= want);
}

#[verifier::rlimit(60)]
proof fn lemma_registers(fmt: InsnFormat, op: int, insn: Instruction)
    requires
        0 <= op < 256,
        units_as(fmt, op, insn) is Ok,
        fmt is F23x,
    ensures
        reads(fmt, op, insn),
{
    let units = units_as(fmt, op, insn)->Ok_0;
    let read = operands_read(fmt, is_wide(insn.op), units, insn.addr as int);
    let want = operands_carried(fmt, insn);
    lemma_halves(op, dst8(insn)->Ok_0);
    lemma_halves(src8(insn, 0)->Ok_0, src8(insn, 1)->Ok_0);
    assert(units.len() == 2);
    assert(read.dst == want.dst);
    assert(read.src.len() == 2 && want.src.len() == 2);
    assert(read.src[0] == want.src[0] && read.src[1] == want.src[1]);
    assert(read.src =~= want.src);
    assert(read =~= want);
}

#[verifier::rlimit(60)]
proof fn lemma_comparison(fmt: InsnFormat, op: int, insn: Instruction)
    requires
        0 <= op < 256,
        units_as(fmt, op, insn) is Ok,
        fmt is F22t,
    ensures
        reads(fmt, op, insn),
{
    let units = units_as(fmt, op, insn)->Ok_0;
    let read = operands_read(fmt, is_wide(insn.op), units, insn.addr as int);
    let want = operands_carried(fmt, insn);
    lemma_nibbles(op, src4(insn, 0)->Ok_0, src4(insn, 1)->Ok_0);
    assert(read.src =~= want.src);
    assert(read =~= want);
}

#[verifier::rlimit(60)]
proof fn lemma_literal_pair(fmt: InsnFormat, op: int, insn: Instruction)
    requires
        0 <= op < 256,
        units_as(fmt, op, insn) is Ok,
        fmt is F22s,
    ensures
        reads(fmt, op, insn),
{
    let units = units_as(fmt, op, insn)->Ok_0;
    let read = operands_read(fmt, is_wide(insn.op), units, insn.addr as int);
    let want = operands_carried(fmt, insn);
    lemma_nibbles(op, dst4(insn)->Ok_0, src4(insn, 0)->Ok_0);
    assert(read.src =~= want.src);
    assert(read =~= want);
}

#[verifier::rlimit(60)]
proof fn lemma_index_pair(fmt: InsnFormat, op: int, insn: Instruction)
    requires
        0 <= op < 256,
        units_as(fmt, op, insn) is Ok,
        fmt is F22c,
    ensures
        reads(fmt, op, insn),
{
    let units = units_as(fmt, op, insn)->Ok_0;
    let read = operands_read(fmt, is_wide(insn.op), units, insn.addr as int);
    let want = operands_carried(fmt, insn);
    lemma_nibbles(op, dst4(insn)->Ok_0, src4(insn, 0)->Ok_0);
    assert(read.src =~= want.src);
    assert(read =~= want);
}

#[verifier::rlimit(60)]
proof fn lemma_byte_literal(fmt: InsnFormat, op: int, insn: Instruction)
    requires
        0 <= op < 256,
        units_as(fmt, op, insn) is Ok,
        fmt is F22b,
    ensures
        reads(fmt, op, insn),
{
    let units = units_as(fmt, op, insn)->Ok_0;
    let read = operands_read(fmt, is_wide(insn.op), units, insn.addr as int);
    let want = operands_carried(fmt, insn);
    lemma_halves(op, dst8(insn)->Ok_0);
    lemma_halves(src8(insn, 0)->Ok_0, literal8(insn)->Ok_0);
    assert(units.len() == 2);
    assert(read.dst == want.dst);
    assert(read.literal == want.literal);
    assert(read.src =~= want.src);
    assert(read =~= want);
}

#[verifier::rlimit(60)]
proof fn lemma_long_jump(fmt: InsnFormat, op: int, insn: Instruction)
    requires
        0 <= op < 256,
        units_as(fmt, op, insn) is Ok,
        fmt is F30t || fmt is F32x,
    ensures
        reads(fmt, op, insn),
{
    let units = units_as(fmt, op, insn)->Ok_0;
    let read = operands_read(fmt, is_wide(insn.op), units, insn.addr as int);
    let want = operands_carried(fmt, insn);
    assert(read.src =~= want.src);
    assert(read =~= want);
}

#[verifier::rlimit(60)]
proof fn lemma_long_operands(fmt: InsnFormat, op: int, insn: Instruction)
    requires
        0 <= op < 256,
        units_as(fmt, op, insn) is Ok,
        fmt is F31i || fmt is F31t || fmt is F31c,
    ensures
        reads(fmt, op, insn),
{
    let units = units_as(fmt, op, insn)->Ok_0;
    let read = operands_read(fmt, is_wide(insn.op), units, insn.addr as int);
    let want = operands_carried(fmt, insn);
    assert(read.src =~= want.src);
    assert(read =~= want);
}

#[verifier::rlimit(60)]
proof fn lemma_calls(fmt: InsnFormat, op: int, insn: Instruction)
    requires
        0 <= op < 256,
        units_as(fmt, op, insn) is Ok,
        fmt is F35c,
    ensures
        reads(fmt, op, insn),
{
    let units = units_as(fmt, op, insn)->Ok_0;
    let read = operands_read(fmt, is_wide(insn.op), units, insn.addr as int);
    let want = operands_carried(fmt, insn);
    let g = arg4(insn, 4)->Ok_0;
    lemma_nibbles(op, g, insn.src.count as int);
    lemma_four(
        arg4(insn, 0)->Ok_0,
        arg4(insn, 1)->Ok_0,
        arg4(insn, 2)->Ok_0,
        arg4(insn, 3)->Ok_0,
    );
    assert(read.src =~= want.src);
    assert(read =~= want);
}

#[verifier::rlimit(60)]
proof fn lemma_ranges(fmt: InsnFormat, op: int, insn: Instruction)
    requires
        0 <= op < 256,
        units_as(fmt, op, insn) is Ok,
        fmt is F3rc || fmt is F4rcc,
    ensures
        reads(fmt, op, insn),
{
    let units = units_as(fmt, op, insn)->Ok_0;
    let read = operands_read(fmt, is_wide(insn.op), units, insn.addr as int);
    let want = operands_carried(fmt, insn);
    assert(read.src =~= want.src);
    assert(read =~= want);
}

#[verifier::rlimit(60)]
proof fn lemma_polymorphic_calls(fmt: InsnFormat, op: int, insn: Instruction)
    requires
        0 <= op < 256,
        units_as(fmt, op, insn) is Ok,
        fmt is F45cc,
    ensures
        reads(fmt, op, insn),
{
    let units = units_as(fmt, op, insn)->Ok_0;
    let read = operands_read(fmt, is_wide(insn.op), units, insn.addr as int);
    let want = operands_carried(fmt, insn);
    let g = arg4(insn, 4)->Ok_0;
    lemma_nibbles(op, g, insn.src.count as int);
    lemma_four(
        arg4(insn, 0)->Ok_0,
        arg4(insn, 1)->Ok_0,
        arg4(insn, 2)->Ok_0,
        arg4(insn, 3)->Ok_0,
    );
    assert(read.src =~= want.src);
    assert(read =~= want);
}

#[verifier::rlimit(60)]
proof fn lemma_long_constants(fmt: InsnFormat, op: int, insn: Instruction)
    requires
        0 <= op < 256,
        units_as(fmt, op, insn) is Ok,
        fmt is F51l,
    ensures
        reads(fmt, op, insn),
{
    let units = units_as(fmt, op, insn)->Ok_0;
    let read = operands_read(fmt, is_wide(insn.op), units, insn.addr as int);
    let want = operands_carried(fmt, insn);
    lemma_quarters(twos64(insn.literal as int) as int);
    assert(read.src =~= want.src);
    assert(read =~= want);
}

/// The units of an instruction are as many as its format takes, the low byte of the
/// first one is its opcode, and every operand that the format carries reads back.
pub proof fn instructions_read_back(insn: Instruction)
    requires
        insn_units(insn) is Ok,
    ensures
        ({
            let units = insn_units(insn)->Ok_0;
            &&& units.len() == insn.op.layout().units()
            &&& units[0] % 256 == insn.op.byte()
            &&& operands_read(insn.op.layout(), is_wide(insn.op), units, insn.addr as int)
                == operands_carried(insn.op.layout(), insn)
        }),
{
    let fmt = insn.op.layout();
    let op = insn.op.byte() as int;
    match fmt {
        InsnFormat::F10x | InsnFormat::F11x | InsnFormat::F10t => lemma_bytes(fmt, op, insn),
        InsnFormat::F12x => lemma_pair(fmt, op, insn),
        InsnFormat::F11n => lemma_small_literal(fmt, op, insn),
        InsnFormat::F20t | InsnFormat::F22x | InsnFormat::F21t | InsnFormat::F21s => lemma_two_units(fmt, op, insn),
        InsnFormat::F21h => lemma_high_bits(fmt, op, insn),
        InsnFormat::F21c => lemma_register_and_index(fmt, op, insn),
        InsnFormat::F23x => lemma_registers(fmt, op, insn),
        InsnFormat::F22t => lemma_comparison(fmt, op, insn),
        InsnFormat::F22s => lemma_literal_pair(fmt, op, insn),
        InsnFormat::F22c => lemma_index_pair(fmt, op, insn),
        InsnFormat::F22b => lemma_byte_literal(fmt, op, insn),
        InsnFormat::F30t | InsnFormat::F32x => lemma_long_jump(fmt, op, insn),
        InsnFormat::F31i | InsnFormat::F31t | InsnFormat::F31c => lemma_long_operands(fmt, op, insn),
        InsnFormat::F35c => lemma_calls(fmt, op, insn),
        InsnFormat::F3rc | InsnFormat::F4rcc => lemma_ranges(fmt, op, insn),
        InsnFormat::F45cc => lemma_polymorphic_calls(fmt, op, insn),
        InsnFormat::F51l => lemma_long_constants(fmt, op, insn),
    }
}

/// Code units read back from their bytes, two for each.
pub proof fn units_read_back(units: Seq<u16>, i: int)
    requires
        0 <= i < units.len(),
    ensures
        unit_bytes(units).len() == 2 * units.len(),
        read_le16(unit_bytes(units), 2 * i) == units[i],
    decreases units.len(),
{
    let before = units.drop_last();
    let b = unit_bytes(units);
    unit_bytes_len(units);
    unit_bytes_len(before);
    if i < before.len() {
        units_read_back(before, i);
        assert(b[2 * i] == unit_bytes(before)[2 * i]);
        assert(b[2 * i + 1] == unit_bytes(before)[2 * i + 1]);
    } else {
        assert(b[2 * i] == le16(units[i])[0]);
        assert(b[2 * i + 1] == le16(units[i])[1]);
    }
}

/// Code units take two bytes each.
pub proof fn unit_bytes_len(units: Seq<u16>)
    ensures
        unit_bytes(units).len() == 2 * units.len(),
    decreases units.len(),
{
    if units.len() > 0 {
        unit_bytes_len(units.drop_last());
    }
}

} // verus!
