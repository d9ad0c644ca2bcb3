//! Instructions as 16-bit code units.
use vstd::prelude::*;

use crate::bytes::{i32_bits, i64_bits, le16, push_u16, twos16, twos32, twos64, twos8};
use crate::decode::{Instruction, PoolIndex};
use crate::emit_dex::error::DexEmitError;
use crate::opcodes::{insn_format, InsnFormat, Opcode};

verus! {

/// Code units as bytes.
pub open spec fn unit_bytes(units: Seq<u16>) -> Seq<u8>
    decreases units.len(),
{
    if units.len() == 0 {
        Seq::empty()
    } else {
        unit_bytes(units.drop_last()) + le16(units.last())
    }
}

/// An error about something that the format cannot express.
pub open spec fn bad(why: &'static str) -> Result<int, DexEmitError> {
    Err(DexEmitError::UnrepresentableIR { why })
}

/// The destination register where it is at most `most`.
pub open spec fn dst_upto(insn: Instruction, most: int, why: &'static str) -> Result<
    int,
    DexEmitError,
> {
    match insn.dst {
        None => bad("instruction format requires dst register but IR has none"),
        Some(d) => if d > most {
            bad(why)
        } else {
            Ok(d as int)
        },
    }
}

/// The destination register in four bits.
pub open spec fn dst4(insn: Instruction) -> Result<int, DexEmitError> {
    dst_upto(
        insn,
        0x0F,
        "4-bit register field overflow: dst > 0x0F (instruction format violation)",
    )
}

/// The destination register in eight bits.
pub open spec fn dst8(insn: Instruction) -> Result<int, DexEmitError> {
    dst_upto(insn, 0xFF, "8-bit register field overflow: dst > 0xFF")
}

/// The source register at `slot`.
pub open spec fn src16(insn: Instruction, slot: int) -> Result<int, DexEmitError> {
    if slot < insn.src.held().len() {
        Ok(insn.src.held()[slot] as int)
    } else {
        bad("instruction format requires src register that IR RegList does not provide")
    }
}

/// The source register at `slot` in four bits.
pub open spec fn src4(insn: Instruction, slot: int) -> Result<int, DexEmitError> {
    match src16(insn, slot) {
        Ok(s) => if s > 0x0F {
            bad("4-bit register field overflow: src > 0x0F")
        } else {
            Ok(s)
        },
        Err(e) => Err(e),
    }
}

/// The source register at `slot` in eight bits.
pub open spec fn src8(insn: Instruction, slot: int) -> Result<int, DexEmitError> {
    match src16(insn, slot) {
        Ok(s) => if s > 0xFF {
            bad("8-bit register field overflow: src > 0xFF")
        } else {
            Ok(s)
        },
        Err(e) => Err(e),
    }
}

/// The literal in four bits.
pub open spec fn literal4(insn: Instruction) -> Result<int, DexEmitError> {
    if insn.literal < -8 || insn.literal > 7 {
        bad("const/4: literal out of 4-bit signed range (-8..=7)")
    } else if insn.literal < 0 {
        Ok(insn.literal + 16)
    } else {
        Ok(insn.literal as int)
    }
}

/// The literal in eight bits.
pub open spec fn literal8(insn: Instruction) -> Result<int, DexEmitError> {
    if insn.literal < -0x80 || insn.literal > 0x7F {
        bad("8-bit signed literal out of range (i8::MIN..=i8::MAX)")
    } else {
        Ok(twos8(insn.literal as int) as int)
    }
}

/// The literal in sixteen bits.
pub open spec fn literal16(insn: Instruction) -> Result<int, DexEmitError> {
    if insn.literal < -0x8000 || insn.literal > 0x7FFF {
        bad("16-bit signed literal out of range (i16::MIN..=i16::MAX)")
    } else {
        Ok(twos16(insn.literal as int) as int)
    }
}

/// The literal in thirty-two bits.
pub open spec fn literal32(insn: Instruction) -> Result<int, DexEmitError> {
    if insn.literal < -0x8000_0000 || insn.literal > 0x7FFF_FFFF {
        bad("32-bit signed literal out of range (i32::MIN..=i32::MAX)")
    } else {
        Ok(twos32(insn.literal as int) as int)
    }
}

/// The top sixteen bits of a literal of which the others are zero.
pub open spec fn literal_high(insn: Instruction) -> Result<int, DexEmitError> {
    if insn.op == Opcode::ConstHigh16 {
        if insn.literal as int % 0x1_0000 != 0 {
            bad("const/high16: low 16 bits must be zero")
        } else if insn.literal < -0x8000_0000 || insn.literal > 0x7FFF_FFFF {
            bad("const/high16: literal out of i32 range")
        } else {
            Ok(twos32(insn.literal as int) as int / 0x1_0000)
        }
    } else if insn.op == Opcode::ConstWideHigh16 {
        if insn.literal as int % 0x1_0000_0000_0000 != 0 {
            bad("const-wide/high16: low 48 bits must be zero")
        } else {
            Ok(twos64(insn.literal as int) as int / 0x1_0000_0000_0000)
        }
    } else {
        bad(
            "F21h format reached for opcode that isn't const/high16 or const-wide/high16",
        )
    }
}

/// The pool index, whichever pool it is for.
pub open spec fn pool_value(p: PoolIndex) -> int {
    match p {
        PoolIndex::String(x) => x.0 as int,
        PoolIndex::Type(x) => x.0 as int,
        PoolIndex::Field(x) => x.0 as int,
        PoolIndex::Method(x) => x.0 as int,
        PoolIndex::MethodAndProto(x, _) => x.0 as int,
        PoolIndex::CallSite(x) => x.0 as int,
    }
}

/// The pool index in thirty-two bits.
pub open spec fn pool32(insn: Instruction) -> Result<int, DexEmitError> {
    match insn.pool_idx {
        None => bad("instruction format requires pool index but IR has none"),
        Some(p) => Ok(pool_value(p)),
    }
}

/// The pool index in sixteen bits.
pub open spec fn pool16(insn: Instruction) -> Result<int, DexEmitError> {
    match pool32(insn) {
        Ok(x) => if x > 0xFFFF {
            bad("pool index exceeds u16 but instruction format is 16-bit (use jumbo form?)")
        } else {
            Ok(x)
        },
        Err(e) => Err(e),
    }
}

/// The prototype of a polymorphic call in sixteen bits.
pub open spec fn proto16(insn: Instruction) -> Result<int, DexEmitError> {
    match insn.pool_idx {
        None => bad("F45cc/F4rcc instruction missing pool index"),
        Some(PoolIndex::MethodAndProto(_, proto)) => if proto.0 > 0xFFFF {
            bad("call-site proto_idx exceeds u16")
        } else {
            Ok(proto.0 as int)
        },
        Some(_) => bad("F45cc/F4rcc instruction must carry MethodAndProto pool index"),
    }
}

/// A branch offset that leaves its field.
pub open spec fn branch_overflow(context: &'static str) -> Result<int, DexEmitError> {
    Err(DexEmitError::OffsetOverflow { section: "instruction_branch", context })
}

/// The distance from `pc` to `target` in eight bits.
pub open spec fn branch8(target: u32, pc: u32) -> Result<int, DexEmitError> {
    let d = target - pc;
    if d < -0x80 || d > 0x7F {
        branch_overflow("8-bit branch offset out of range (use goto/16 or goto/32)")
    } else {
        Ok(twos8(d) as int)
    }
}

/// The distance from `pc` to `target` in sixteen bits.
pub open spec fn branch16(target: u32, pc: u32) -> Result<int, DexEmitError> {
    let d = target - pc;
    if d < -0x8000 || d > 0x7FFF {
        branch_overflow("16-bit branch offset out of range (use goto/32)")
    } else {
        Ok(twos16(d) as int)
    }
}

/// The distance from `pc` to `target` in thirty-two bits.
pub open spec fn branch32(target: u32, pc: u32) -> Result<int, DexEmitError> {
    let d = target - pc;
    if d < -0x8000_0000 || d > 0x7FFF_FFFF {
        branch_overflow(
            "32-bit branch offset overflow (target and pc more than 2^31 code units apart)",
        )
    } else {
        Ok(twos32(d) as int)
    }
}

/// Both operands, or the error of the first that has one.
pub open spec fn both(a: Result<int, DexEmitError>, b: Result<int, DexEmitError>) -> Result<
    (int, int),
    DexEmitError,
> {
    match a {
        Err(e) => Err(e),
        Ok(x) => match b {
            Err(e) => Err(e),
            Ok(y) => Ok((x, y)),
        },
    }
}

/// The three operands, or the error of the first that has one.
pub open spec fn three(
    a: Result<int, DexEmitError>,
    b: Result<int, DexEmitError>,
    c: Result<int, DexEmitError>,
) -> Result<(int, int, int), DexEmitError> {
    match both(a, b) {
        Err(e) => Err(e),
        Ok((x, y)) => match c {
            Err(e) => Err(e),
            Ok(z) => Ok((x, y, z)),
        },
    }
}

/// Units in the ranges of their operands.
pub open spec fn one_unit(a: int) -> Result<Seq<u16>, DexEmitError> {
    Ok(seq![a as u16])
}

pub open spec fn two_units(a: int, b: int) -> Result<Seq<u16>, DexEmitError> {
    Ok(seq![a as u16, b as u16])
}

pub open spec fn three_units(a: int, b: int, c: int) -> Result<Seq<u16>, DexEmitError> {
    Ok(seq![a as u16, b as u16, c as u16])
}

/// The register of an argument list at `slot`, 0 past its end.
pub open spec fn arg4(insn: Instruction, slot: int) -> Result<int, DexEmitError> {
    if insn.src.count > slot {
        src4(insn, slot)
    } else {
        Ok(0)
    }
}

/// The argument registers of a call with at most five: the fifth one, and the unit
/// that packs the first four.
pub open spec fn args_packed(insn: Instruction) -> Result<int, DexEmitError> {
    match three(arg4(insn, 0), arg4(insn, 1), arg4(insn, 2)) {
        Err(e) => Err(e),
        Ok((c, d, e)) => match arg4(insn, 3) {
            Err(x) => Err(x),
            Ok(f) => Ok(c + d * 16 + e * 256 + f * 4096),
        },
    }
}

/// The code units of an instruction, or why it has none.
pub open spec fn insn_units(insn: Instruction) -> Result<Seq<u16>, DexEmitError> {
    units_as(insn.op.layout(), insn.op.byte() as int, insn)
}

/// The code units of an instruction with the opcode `op` in the format `fmt`.
pub open spec fn units_as(fmt: InsnFormat, op: int, insn: Instruction) -> Result<
    Seq<u16>,
    DexEmitError,
> {
    let pc = insn.addr;
    match fmt {
        InsnFormat::F10x => one_unit(op),
        InsnFormat::F12x => match both(dst4(insn), src4(insn, 0)) {
            Err(e) => Err(e),
            Ok((a, b)) => one_unit(op + a * 256 + b * 4096),
        },
        InsnFormat::F11n => match both(dst4(insn), literal4(insn)) {
            Err(e) => Err(e),
            Ok((a, b)) => one_unit(op + a * 256 + b * 4096),
        },
        InsnFormat::F11x => match dst8(insn) {
            Err(e) => Err(e),
            Ok(aa) => one_unit(op + aa * 256),
        },
        InsnFormat::F10t => match insn.target {
            None => Err(DexEmitError::UnrepresentableIR { why: "goto: missing branch target" }),
            Some(t) => match branch8(t, pc) {
                Err(e) => Err(e),
                Ok(off) => one_unit(op + off * 256),
            },
        },
        InsnFormat::F20t => match insn.target {
            None => Err(DexEmitError::UnrepresentableIR { why: "goto/16: missing branch target" }),
            Some(t) => match branch16(t, pc) {
                Err(e) => Err(e),
                Ok(off) => two_units(op, off),
            },
        },
        InsnFormat::F22x => match both(dst8(insn), src16(insn, 0)) {
            Err(e) => Err(e),
            Ok((aa, b)) => two_units(op + aa * 256, b),
        },
        InsnFormat::F21t => match dst8(insn) {
            Err(e) => Err(e),
            Ok(aa) => match insn.target {
                None => Err(DexEmitError::UnrepresentableIR { why: "21t: missing branch target" }),
                Some(t) => match branch16(t, pc) {
                    Err(e) => Err(e),
                    Ok(off) => two_units(op + aa * 256, off),
                },
            },
        },
        InsnFormat::F21s => match both(dst8(insn), literal16(insn)) {
            Err(e) => Err(e),
            Ok((aa, lit)) => two_units(op + aa * 256, lit),
        },
        InsnFormat::F21h => match both(dst8(insn), literal_high(insn)) {
            Err(e) => Err(e),
            Ok((aa, high)) => two_units(op + aa * 256, high),
        },
        InsnFormat::F21c => match both(dst8(insn), pool16(insn)) {
            Err(e) => Err(e),
            Ok((aa, idx)) => two_units(op + aa * 256, idx),
        },
        InsnFormat::F23x => match three(dst8(insn), src8(insn, 0), src8(insn, 1)) {
            Err(e) => Err(e),
            Ok((aa, bb, cc)) => two_units(op + aa * 256, bb + cc * 256),
        },
        InsnFormat::F22t => match both(src4(insn, 0), src4(insn, 1)) {
            Err(e) => Err(e),
            Ok((a, b)) => match insn.target {
                None => Err(DexEmitError::UnrepresentableIR { why: "22t: missing branch target" }),
                Some(t) => match branch16(t, pc) {
                    Err(e) => Err(e),
                    Ok(off) => two_units(op + a * 256 + b * 4096, off),
                },
            },
        },
        InsnFormat::F22s => match three(dst4(insn), src4(insn, 0), literal16(insn)) {
            Err(e) => Err(e),
            Ok((a, b, lit)) => two_units(op + a * 256 + b * 4096, lit),
        },
        InsnFormat::F22c => match three(dst4(insn), src4(insn, 0), pool16(insn)) {
            Err(e) => Err(e),
            Ok((a, b, idx)) => two_units(op + a * 256 + b * 4096, idx),
        },
        InsnFormat::F22b => match three(dst8(insn), src8(insn, 0), literal8(insn)) {
            Err(e) => Err(e),
            Ok((aa, bb, cc)) => two_units(op + aa * 256, bb + cc * 256),
        },
        InsnFormat::F30t => match insn.target {
            None => Err(DexEmitError::UnrepresentableIR { why: "goto/32: missing branch target" }),
            Some(t) => match branch32(t, pc) {
                Err(e) => Err(e),
                Ok(off) => three_units(op, off % 0x1_0000, off / 0x1_0000),
            },
        },
        InsnFormat::F32x => match insn.dst {
            None => Err(DexEmitError::UnrepresentableIR { why: "F32x: missing dst register" }),
            Some(d) => match src16(insn, 0) {
                Err(e) => Err(e),
                Ok(s) => three_units(op, d as int, s),
            },
        },
        InsnFormat::F31i => match both(dst8(insn), literal32(insn)) {
            Err(e) => Err(e),
            Ok((aa, lit)) => three_units(op + aa * 256, lit % 0x1_0000, lit / 0x1_0000),
        },
        InsnFormat::F31t => match dst8(insn) {
            Err(e) => Err(e),
            Ok(aa) => match insn.target {
                None => Err(DexEmitError::UnrepresentableIR { why: "31t: missing payload target" }),
                Some(t) => match branch32(t, pc) {
                    Err(e) => Err(e),
                    Ok(off) => three_units(op + aa * 256, off % 0x1_0000, off / 0x1_0000),
                },
            },
        },
        InsnFormat::F31c => match both(dst8(insn), pool32(insn)) {
            Err(e) => Err(e),
            Ok((aa, idx)) => three_units(op + aa * 256, idx % 0x1_0000, idx / 0x1_0000),
        },
        InsnFormat::F35c => if insn.src.count > 5 {
            Err(
                DexEmitError::UnrepresentableIR {
                    why: "F35c: arg_count > 5 (use invoke/range for > 5 args)",
                },
            )
        } else {
            match three(arg4(insn, 4), pool16(insn), args_packed(insn)) {
                Err(e) => Err(e),
                Ok((g, idx, args)) => three_units(
                    op + g * 256 + insn.src.count as int * 4096,
                    idx,
                    args,
                ),
            }
        },
        InsnFormat::F3rc => if insn.literal < 0 || insn.literal > 255 {
            Err(
                DexEmitError::UnrepresentableIR {
                    why: "F3rc: arg_count out of u8 range (stored in insn.literal)",
                },
            )
        } else {
            match pool16(insn) {
                Err(e) => Err(e),
                Ok(idx) => three_units(
                    op + insn.literal as int * 256,
                    idx,
                    insn.src.regs@[0] as int,
                ),
            }
        },
        InsnFormat::F45cc => if insn.src.count > 5 {
            Err(
                DexEmitError::UnrepresentableIR {
                    why: "F45cc: arg_count > 5 (use invoke-polymorphic/range for > 5 args)",
                },
            )
        } else {
            match three(arg4(insn, 4), pool16(insn), proto16(insn)) {
                Err(e) => Err(e),
                Ok((g, method, proto)) => match args_packed(insn) {
                    Err(e) => Err(e),
                    Ok(args) => Ok(
                        seq![
                            (op + g * 256 + insn.src.count as int * 4096) as u16,
                            method as u16,
                            args as u16,
                            proto as u16,
                        ],
                    ),
                },
            }
        },
        InsnFormat::F4rcc => if insn.literal < 0 || insn.literal > 255 {
            Err(
                DexEmitError::UnrepresentableIR {
                    why: "F4rcc: arg_count out of u8 range (stored in insn.literal)",
                },
            )
        } else {
            match three(
                pool16(insn),
                proto16(insn),
                if insn.src.count == 0 {
                    Ok(0)
                } else {
                    src16(insn, 0)
                },
            ) {
                Err(e) => Err(e),
                Ok((method, proto, start)) => Ok(
                    seq![
                        (op + insn.literal as int * 256) as u16,
                        method as u16,
                        start as u16,
                        proto as u16,
                    ],
                ),
            }
        },
        InsnFormat::F51l => match dst8(insn) {
            Err(e) => Err(e),
            Ok(aa) => {
                let lit = twos64(insn.literal as int) as int;
                Ok(
                    seq![
                        (op + aa * 256) as u16,
                        (lit % 0x1_0000) as u16,
                        (lit / 0x1_0000 % 0x1_0000) as u16,
                        (lit / 0x1_0000_0000 % 0x1_0000) as u16,
                        (lit / 0x1_0000_0000_0000) as u16,
                    ],
                )
            },
        },
    }
}

/// A function that returns an operand returns that of `expected`, or its error.
pub open spec fn gives16(r: Result<u16, DexEmitError>, expected: Result<int, DexEmitError>) -> bool {
    match expected {
        Ok(x) => r matches Ok(v) && v == x,
        Err(e) => r == Err::<u16, DexEmitError>(e),
    }
}

/// A function that returns an operand returns that of `expected`, or its error.
pub open spec fn gives32(r: Result<u32, DexEmitError>, expected: Result<int, DexEmitError>) -> bool {
    match expected {
        Ok(x) => r matches Ok(v) && v == x,
        Err(e) => r == Err::<u32, DexEmitError>(e),
    }
}

fn dst_u4(insn: &Instruction) -> (r: Result<u16, DexEmitError>)
    ensures
        gives16(r, dst4(*insn)),
{
    match insn.dst {
        None => Err(
            DexEmitError::UnrepresentableIR {
                why: "instruction format requires dst register but IR has none",
            },
        ),
        Some(d) => {
            if d > 0x0F {
                return Err(
                    DexEmitError::UnrepresentableIR {
                        why: "4-bit register field overflow: dst > 0x0F (instruction format violation)",
                    },
                );
            }
            Ok(d)
        },
    }
}

fn dst_u8(insn: &Instruction) -> (r: Result<u16, DexEmitError>)
    ensures
        gives16(r, dst8(*insn)),
{
    match insn.dst {
        None => Err(
            DexEmitError::UnrepresentableIR {
                why: "instruction format requires dst register but IR has none",
            },
        ),
        Some(d) => {
            if d > 0xFF {
                return Err(
                    DexEmitError::UnrepresentableIR {
                        why: "8-bit register field overflow: dst > 0xFF",
                    },
                );
            }
            Ok(d)
        },
    }
}

fn src_u16(insn: &Instruction, slot: usize) -> (r: Result<u16, DexEmitError>)
    ensures
        gives16(r, src16(*insn, slot as int)),
{
    let regs: &[u16] = insn.src.as_slice();
    if slot < regs.len() {
        Ok(regs[slot])
    } else {
        Err(
            DexEmitError::UnrepresentableIR {
                why: "instruction format requires src register that IR RegList does not provide",
            },
        )
    }
}

fn src_u4(insn: &Instruction, slot: usize) -> (r: Result<u16, DexEmitError>)
    ensures
        gives16(r, src4(*insn, slot as int)),
{
    let s: u16 = src_u16(insn, slot)?;
    if s > 0x0F {
        return Err(
            DexEmitError::UnrepresentableIR { why: "4-bit register field overflow: src > 0x0F" },
        );
    }
    Ok(s)
}

fn src_u8(insn: &Instruction, slot: usize) -> (r: Result<u16, DexEmitError>)
    ensures
        gives16(r, src8(*insn, slot as int)),
{
    let s: u16 = src_u16(insn, slot)?;
    if s > 0xFF {
        return Err(
            DexEmitError::UnrepresentableIR { why: "8-bit register field overflow: src > 0xFF" },
        );
    }
    Ok(s)
}

fn literal_i4(insn: &Instruction) -> (r: Result<u16, DexEmitError>)
    ensures
        gives16(r, literal4(*insn)),
{
    if insn.literal < -8 || insn.literal > 7 {
        return Err(
            DexEmitError::UnrepresentableIR {
                why: "const/4: literal out of 4-bit signed range (-8..=7)",
            },
        );
    }
    if insn.literal < 0 {
        Ok((insn.literal + 16) as u16)
    } else {
        Ok(insn.literal as u16)
    }
}

fn literal_i8_as_u8(insn: &Instruction) -> (r: Result<u16, DexEmitError>)
    ensures
        gives16(r, literal8(*insn)),
{
    if insn.literal < -0x80 || insn.literal > 0x7F {
        return Err(
            DexEmitError::UnrepresentableIR {
                why: "8-bit signed literal out of range (i8::MIN..=i8::MAX)",
            },
        );
    }
    if insn.literal < 0 {
        Ok((insn.literal + 0x100) as u16)
    } else {
        Ok(insn.literal as u16)
    }
}

fn literal_i16_as_u16(insn: &Instruction) -> (r: Result<u16, DexEmitError>)
    ensures
        gives16(r, literal16(*insn)),
{
    if insn.literal < -0x8000 || insn.literal > 0x7FFF {
        return Err(
            DexEmitError::UnrepresentableIR {
                why: "16-bit signed literal out of range (i16::MIN..=i16::MAX)",
            },
        );
    }
    if insn.literal < 0 {
        Ok((insn.literal + 0x1_0000) as u16)
    } else {
        Ok(insn.literal as u16)
    }
}

fn literal_i32(insn: &Instruction) -> (r: Result<u32, DexEmitError>)
    ensures
        gives32(r, literal32(*insn)),
{
    if insn.literal < -0x8000_0000 || insn.literal > 0x7FFF_FFFF {
        return Err(
            DexEmitError::UnrepresentableIR {
                why: "32-bit signed literal out of range (i32::MIN..=i32::MAX)",
            },
        );
    }
    Ok(i32_bits(insn.literal as i32))
}

fn literal_high16(insn: &Instruction) -> (r: Result<u16, DexEmitError>)
    ensures
        gives16(r, literal_high(*insn)),
{
    let bits: u64 = i64_bits(insn.literal);
    if insn.op == Opcode::ConstHigh16 {
        if bits % 0x1_0000 != 0 {
            return Err(
                DexEmitError::UnrepresentableIR { why: "const/high16: low 16 bits must be zero" },
            );
        }
        if insn.literal < -0x8000_0000 || insn.literal > 0x7FFF_FFFF {
            return Err(
                DexEmitError::UnrepresentableIR { why: "const/high16: literal out of i32 range" },
            );
        }
        Ok((i32_bits(insn.literal as i32) / 0x1_0000) as u16)
    } else if insn.op == Opcode::ConstWideHigh16 {
        if bits % 0x1_0000_0000_0000 != 0 {
            return Err(
                DexEmitError::UnrepresentableIR {
                    why: "const-wide/high16: low 48 bits must be zero",
                },
            );
        }
        Ok((bits / 0x1_0000_0000_0000) as u16)
    } else {
        Err(
            DexEmitError::UnrepresentableIR {
                why: "F21h format reached for opcode that isn't const/high16 or const-wide/high16",
            },
        )
    }
}

fn pool_u32(insn: &Instruction) -> (r: Result<u32, DexEmitError>)
    ensures
        gives32(r, pool32(*insn)),
{
    match insn.pool_idx {
        None => Err(
            DexEmitError::UnrepresentableIR {
                why: "instruction format requires pool index but IR has none",
            },
        ),
        Some(p) => Ok(
            match p {
                PoolIndex::String(x) => x.0,
                PoolIndex::Type(x) => x.0,
                PoolIndex::Field(x) => x.0,
                PoolIndex::Method(x) => x.0,
                PoolIndex::MethodAndProto(x, _) => x.0,
                PoolIndex::CallSite(x) => x.0,
            },
        ),
    }
}

fn pool_u16(insn: &Instruction) -> (r: Result<u16, DexEmitError>)
    ensures
        gives16(r, pool16(*insn)),
{
    let idx: u32 = pool_u32(insn)?;
    if idx > 0xFFFF {
        return Err(
            DexEmitError::UnrepresentableIR {
                why: "pool index exceeds u16 but instruction format is 16-bit (use jumbo form?)",
            },
        );
    }
    Ok(idx as u16)
}

fn pool_proto_u16(insn: &Instruction) -> (r: Result<u16, DexEmitError>)
    ensures
        gives16(r, proto16(*insn)),
{
    match insn.pool_idx {
        None => Err(
            DexEmitError::UnrepresentableIR { why: "F45cc/F4rcc instruction missing pool index" },
        ),
        Some(PoolIndex::MethodAndProto(_, proto)) => {
            if proto.0 > 0xFFFF {
                return Err(
                    DexEmitError::UnrepresentableIR { why: "call-site proto_idx exceeds u16" },
                );
            }
            Ok(proto.0 as u16)
        },
        Some(_) => Err(
            DexEmitError::UnrepresentableIR {
                why: "F45cc/F4rcc instruction must carry MethodAndProto pool index",
            },
        ),
    }
}

/// The distance from `pc` to `target` in code units.
pub fn branch_offset(target: u32, pc: u32) -> (r: i64)
    ensures
        r == target - pc,
{
    target as i64 - pc as i64
}

fn branch_i8_as_u8(target: u32, pc: u32) -> (r: Result<u16, DexEmitError>)
    ensures
        gives16(r, branch8(target, pc)),
{
    let diff: i64 = branch_offset(target, pc);
    if diff < -0x80 || diff > 0x7F {
        return Err(
            DexEmitError::OffsetOverflow {
                section: "instruction_branch",
                context: "8-bit branch offset out of range (use goto/16 or goto/32)",
            },
        );
    }
    if diff < 0 {
        Ok((diff + 0x100) as u16)
    } else {
        Ok(diff as u16)
    }
}

fn branch_i16_as_u16(target: u32, pc: u32) -> (r: Result<u16, DexEmitError>)
    ensures
        gives16(r, branch16(target, pc)),
{
    let diff: i64 = branch_offset(target, pc);
    if diff < -0x8000 || diff > 0x7FFF {
        return Err(
            DexEmitError::OffsetOverflow {
                section: "instruction_branch",
                context: "16-bit branch offset out of range (use goto/32)",
            },
        );
    }
    if diff < 0 {
        Ok((diff + 0x1_0000) as u16)
    } else {
        Ok(diff as u16)
    }
}

fn branch_i32(target: u32, pc: u32) -> (r: Result<u32, DexEmitError>)
    ensures
        gives32(r, branch32(target, pc)),
{
    let diff: i64 = branch_offset(target, pc);
    if diff < -0x8000_0000 || diff > 0x7FFF_FFFF {
        return Err(
            DexEmitError::OffsetOverflow {
                section: "instruction_branch",
                context: "32-bit branch offset overflow (target and pc more than 2^31 code units apart)",
            },
        );
    }
    Ok(i32_bits(diff as i32))
}

fn arg_u4(insn: &Instruction, slot: usize) -> (r: Result<u16, DexEmitError>)
    ensures
        gives16(r, arg4(*insn, slot as int)),
{
    if insn.src.len() > slot {
        src_u4(insn, slot)
    } else {
        Ok(0)
    }
}

fn packed_args(insn: &Instruction) -> (r: Result<u16, DexEmitError>)
    ensures
        gives16(r, args_packed(*insn)),
{
    let c: u16 = arg_u4(insn, 0)?;
    let d: u16 = arg_u4(insn, 1)?;
    let e: u16 = arg_u4(insn, 2)?;
    let f: u16 = arg_u4(insn, 3)?;
    Ok(c + d * 16 + e * 256 + f * 4096)
}

fn target_or(insn: &Instruction, why: &'static str) -> (r: Result<u32, DexEmitError>)
    ensures
        match insn.target {
            Some(t) => r == Ok::<u32, DexEmitError>(t),
            None => r == Err::<u32, DexEmitError>(DexEmitError::UnrepresentableIR { why }),
        },
{
    match insn.target {
        Some(t) => Ok(t),
        None => Err(DexEmitError::UnrepresentableIR { why }),
    }
}

fn push_one(out: &mut Vec<u8>, a: u16)
    ensures
        final(out)@ == old(out)@ + unit_bytes(seq![a]),
{
    push_u16(out, a);
    reveal_with_fuel(unit_bytes, 2);
    assert(seq![a].drop_last() =~= Seq::empty());
    assert(out@ =~= old(out)@ + unit_bytes(seq![a]));
}

fn push_two(out: &mut Vec<u8>, a: u16, b: u16)
    ensures
        final(out)@ == old(out)@ + unit_bytes(seq![a, b]),
{
    push_one(out, a);
    push_u16(out, b);
    assert(seq![a, b].drop_last() =~= seq![a]);
    assert(out@ =~= old(out)@ + unit_bytes(seq![a, b]));
}

fn push_three(out: &mut Vec<u8>, a: u16, b: u16, c: u16)
    ensures
        final(out)@ == old(out)@ + unit_bytes(seq![a, b, c]),
{
    push_two(out, a, b);
    push_u16(out, c);
    assert(seq![a, b, c].drop_last() =~= seq![a, b]);
    assert(out@ =~= old(out)@ + unit_bytes(seq![a, b, c]));
}

fn push_four(out: &mut Vec<u8>, a: u16, b: u16, c: u16, d: u16)
    ensures
        final(out)@ == old(out)@ + unit_bytes(seq![a, b, c, d]),
{
    push_three(out, a, b, c);
    push_u16(out, d);
    assert(seq![a, b, c, d].drop_last() =~= seq![a, b, c]);
    assert(out@ =~= old(out)@ + unit_bytes(seq![a, b, c, d]));
}

/// An instruction whose units are `expected` was appended, or its error returned
/// and nothing appended.
pub open spec fn appends_units(
    before: Seq<u8>,
    after: Seq<u8>,
    r: Result<(), DexEmitError>,
    expected: Result<Seq<u16>, DexEmitError>,
) -> bool {
    match expected {
        Ok(units) => r is Ok && after == before + unit_bytes(units),
        Err(e) => r == Err::<(), DexEmitError>(e) && after == before,
    }
}

/// Appends an instruction. Branch distances are measured from its own address. The
/// data block of a switch or fill-array-data instruction is not part of it.
pub fn emit_instruction(out: &mut Vec<u8>, insn: &Instruction) -> (r: Result<(), DexEmitError>)
    ensures
        appends_units(old(out)@, final(out)@, r, insn_units(*insn)),
{
    let op: u16 = insn.op.to_u8() as u16;
    let pc: u32 = insn.addr;
    match insn_format(insn.op) {
        InsnFormat::F10x => {
            push_one(out, op);
        },
        InsnFormat::F12x => {
            let a: u16 = dst_u4(insn)?;
            let b: u16 = src_u4(insn, 0)?;
            push_one(out, op + a * 256 + b * 4096);
        },
        InsnFormat::F11n => {
            let a: u16 = dst_u4(insn)?;
            let b: u16 = literal_i4(insn)?;
            push_one(out, op + a * 256 + b * 4096);
        },
        InsnFormat::F11x => {
            let aa: u16 = dst_u8(insn)?;
            push_one(out, op + aa * 256);
        },
        InsnFormat::F10t => {
            let target: u32 = target_or(insn, "goto: missing branch target")?;
            let off: u16 = branch_i8_as_u8(target, pc)?;
            push_one(out, op + off * 256);
        },
        InsnFormat::F20t => {
            let target: u32 = target_or(insn, "goto/16: missing branch target")?;
            let off: u16 = branch_i16_as_u16(target, pc)?;
            push_two(out, op, off);
        },
        InsnFormat::F22x => {
            let aa: u16 = dst_u8(insn)?;
            let b: u16 = src_u16(insn, 0)?;
            push_two(out, op + aa * 256, b);
        },
        InsnFormat::F21t => {
            let aa: u16 = dst_u8(insn)?;
            let target: u32 = target_or(insn, "21t: missing branch target")?;
            let off: u16 = branch_i16_as_u16(target, pc)?;
            push_two(out, op + aa * 256, off);
        },
        InsnFormat::F21s => {
            let aa: u16 = dst_u8(insn)?;
            let lit: u16 = literal_i16_as_u16(insn)?;
            push_two(out, op + aa * 256, lit);
        },
        InsnFormat::F21h => {
            let aa: u16 = dst_u8(insn)?;
            let high: u16 = literal_high16(insn)?;
            push_two(out, op + aa * 256, high);
        },
        InsnFormat::F21c => {
            let aa: u16 = dst_u8(insn)?;
            let idx: u16 = pool_u16(insn)?;
            push_two(out, op + aa * 256, idx);
        },
        InsnFormat::F23x => {
            let aa: u16 = dst_u8(insn)?;
            let bb: u16 = src_u8(insn, 0)?;
            let cc: u16 = src_u8(insn, 1)?;
            push_two(out, op + aa * 256, bb + cc * 256);
        },
        InsnFormat::F22t => {
            let a: u16 = src_u4(insn, 0)?;
            let b: u16 = src_u4(insn, 1)?;
            let target: u32 = target_or(insn, "22t: missing branch target")?;
            let off: u16 = branch_i16_as_u16(target, pc)?;
            push_two(out, op + a * 256 + b * 4096, off);
        },
        InsnFormat::F22s => {
            let a: u16 = dst_u4(insn)?;
            let b: u16 = src_u4(insn, 0)?;
            let lit: u16 = literal_i16_as_u16(insn)?;
            push_two(out, op + a * 256 + b * 4096, lit);
        },
        InsnFormat::F22c => {
            let a: u16 = dst_u4(insn)?;
            let b: u16 = src_u4(insn, 0)?;
            let idx: u16 = pool_u16(insn)?;
            push_two(out, op + a * 256 + b * 4096, idx);
        },
        InsnFormat::F22b => {
            let aa: u16 = dst_u8(insn)?;
            let bb: u16 = src_u8(insn, 0)?;
            let cc: u16 = literal_i8_as_u8(insn)?;
            push_two(out, op + aa * 256, bb + cc * 256);
        },
        InsnFormat::F30t => {
            let target: u32 = target_or(insn, "goto/32: missing branch target")?;
            let off: u32 = branch_i32(target, pc)?;
            push_three(out, op, (off % 0x1_0000) as u16, (off / 0x1_0000) as u16);
        },
        InsnFormat::F32x => {
            let d: u16 = match insn.dst {
                Some(d) => d,
                None => {
                    return Err(
                        DexEmitError::UnrepresentableIR { why: "F32x: missing dst register" },
                    );
                },
            };
            let s: u16 = src_u16(insn, 0)?;
            push_three(out, op, d, s);
        },
        InsnFormat::F31i => {
            let aa: u16 = dst_u8(insn)?;
            let lit: u32 = literal_i32(insn)?;
            push_three(out, op + aa * 256, (lit % 0x1_0000) as u16, (lit / 0x1_0000) as u16);
        },
        InsnFormat::F31t => {
            let aa: u16 = dst_u8(insn)?;
            let target: u32 = target_or(insn, "31t: missing payload target")?;
            let off: u32 = branch_i32(target, pc)?;
            push_three(out, op + aa * 256, (off % 0x1_0000) as u16, (off / 0x1_0000) as u16);
        },
        InsnFormat::F31c => {
            let aa: u16 = dst_u8(insn)?;
            let idx: u32 = pool_u32(insn)?;
            push_three(out, op + aa * 256, (idx % 0x1_0000) as u16, (idx / 0x1_0000) as u16);
        },
        InsnFormat::F35c => {
            if insn.src.len() > 5 {
                return Err(
                    DexEmitError::UnrepresentableIR {
                        why: "F35c: arg_count > 5 (use invoke/range for > 5 args)",
                    },
                );
            }
            let g: u16 = arg_u4(insn, 4)?;
            let idx: u16 = pool_u16(insn)?;
            let args: u16 = packed_args(insn)?;
            push_three(out, op + g * 256 + insn.src.len() as u16 * 4096, idx, args);
        },
        InsnFormat::F3rc => {
            if insn.literal < 0 || insn.literal > 255 {
                return Err(
                    DexEmitError::UnrepresentableIR {
                        why: "F3rc: arg_count out of u8 range (stored in insn.literal)",
                    },
                );
            }
            let idx: u16 = pool_u16(insn)?;
            push_three(out, op + insn.literal as u16 * 256, idx, insn.src.raw_at(0));
        },
        InsnFormat::F45cc => {
            if insn.src.len() > 5 {
                return Err(
                    DexEmitError::UnrepresentableIR {
                        why: "F45cc: arg_count > 5 (use invoke-polymorphic/range for > 5 args)",
                    },
                );
            }
            let g: u16 = arg_u4(insn, 4)?;
            let method: u16 = pool_u16(insn)?;
            let proto: u16 = pool_proto_u16(insn)?;
            let args: u16 = packed_args(insn)?;
            push_four(out, op + g * 256 + insn.src.len() as u16 * 4096, method, args, proto);
        },
        InsnFormat::F4rcc => {
            if insn.literal < 0 || insn.literal > 255 {
                return Err(
                    DexEmitError::UnrepresentableIR {
                        why: "F4rcc: arg_count out of u8 range (stored in insn.literal)",
                    },
                );
            }
            let method: u16 = pool_u16(insn)?;
            let proto: u16 = pool_proto_u16(insn)?;
            let start: u16 = if insn.src.is_empty() {
                0
            } else {
                src_u16(insn, 0)?
            };
            push_four(out, op + insn.literal as u16 * 256, method, start, proto);
        },
        InsnFormat::F51l => {
            let aa: u16 = dst_u8(insn)?;
            let lit: u64 = i64_bits(insn.literal);
            let a: u16 = op + aa * 256;
            let b: u16 = (lit % 0x1_0000) as u16;
            let c: u16 = (lit / 0x1_0000 % 0x1_0000) as u16;
            let d: u16 = (lit / 0x1_0000_0000 % 0x1_0000) as u16;
            let e: u16 = (lit / 0x1_0000_0000_0000) as u16;
            push_four(out, a, b, c, d);
            push_u16(out, e);
            assert(seq![a, b, c, d, e].drop_last() =~= seq![a, b, c, d]);
            assert(out@ =~= old(out)@ + unit_bytes(seq![a, b, c, d, e]));
        },
    }
    Ok(())
}

} // verus!
