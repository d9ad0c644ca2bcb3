//! Which operands the fields of a format have room for.
use vstd::prelude::*;

use crate::decode::{Instruction, PoolIndex};
use crate::emit_dex::instruction::{insn_units, units_as};
use crate::opcodes::InsnFormat;

verus! {

/// There is a destination register, and it is at most `most`.
pub open spec fn dst_within(insn: Instruction, most: int) -> bool {
    insn.dst matches Some(d) && d <= most
}

/// There are at least `n` source registers, and none of the first `n` is above `most`.
pub open spec fn src_within(insn: Instruction, n: int, most: int) -> bool {
    insn.src.count >= n && forall|i: int| 0 <= i < n ==> #[trigger] insn.src.regs@[i] <= most
}

/// The literal is in a range.
pub open spec fn literal_within(insn: Instruction, least: int, most: int) -> bool {
    least <= insn.literal <= most
}

/// There is a target, and it is in a range of distances.
pub open spec fn jump_within(insn: Instruction, least: int, most: int) -> bool {
    insn.target matches Some(t) && least <= t - insn.addr <= most
}

/// There is a pool index, and it is at most `most`.
pub open spec fn index_within(insn: Instruction, most: int) -> bool {
    match insn.pool_idx {
        None => false,
        Some(PoolIndex::String(x)) => x.0 <= most,
        Some(PoolIndex::Type(x)) => x.0 <= most,
        Some(PoolIndex::Field(x)) => x.0 <= most,
        Some(PoolIndex::Method(x)) => x.0 <= most,
        Some(PoolIndex::MethodAndProto(x, _)) => x.0 <= most,
        Some(PoolIndex::CallSite(x)) => x.0 <= most,
    }
}

/// There is a method with a prototype, each at most `most`.
pub open spec fn method_and_proto_within(insn: Instruction, most: int) -> bool {
    insn.pool_idx matches Some(PoolIndex::MethodAndProto(x, y)) && x.0 <= most && y.0 <= most
}

/// Every operand that a format has a field for is there and in the range of the field.
pub open spec fn fits(fmt: InsnFormat, insn: Instruction) -> bool {
    match fmt {
        InsnFormat::F10x => true,
        InsnFormat::F12x => dst_within(insn, 0xF) && src_within(insn, 1, 0xF),
        InsnFormat::F11n => dst_within(insn, 0xF) && literal_within(insn, -8, 7),
        InsnFormat::F11x => dst_within(insn, 0xFF),
        InsnFormat::F10t => jump_within(insn, -0x80, 0x7F),
        InsnFormat::F20t => jump_within(insn, -0x8000, 0x7FFF),
        InsnFormat::F22x => dst_within(insn, 0xFF) && src_within(insn, 1, 0xFFFF),
        InsnFormat::F21t => dst_within(insn, 0xFF) && jump_within(insn, -0x8000, 0x7FFF),
        InsnFormat::F21s => dst_within(insn, 0xFF) && literal_within(insn, -0x8000, 0x7FFF),
        InsnFormat::F21h => dst_within(insn, 0xFF) && high_bits_only(insn),
        InsnFormat::F21c => dst_within(insn, 0xFF) && index_within(insn, 0xFFFF),
        InsnFormat::F23x => dst_within(insn, 0xFF) && src_within(insn, 2, 0xFF),
        InsnFormat::F22t => src_within(insn, 2, 0xF) && jump_within(insn, -0x8000, 0x7FFF),
        InsnFormat::F22s => dst_within(insn, 0xF) && src_within(insn, 1, 0xF) && literal_within(
            insn,
            -0x8000,
            0x7FFF,
        ),
        InsnFormat::F22c => dst_within(insn, 0xF) && src_within(insn, 1, 0xF) && index_within(
            insn,
            0xFFFF,
        ),
        InsnFormat::F22b => dst_within(insn, 0xFF) && src_within(insn, 1, 0xFF) && literal_within(
            insn,
            -0x80,
            0x7F,
        ),
        InsnFormat::F30t => jump_within(insn, -0x8000_0000, 0x7FFF_FFFF),
        InsnFormat::F32x => dst_within(insn, 0xFFFF) && src_within(insn, 1, 0xFFFF),
        InsnFormat::F31i => dst_within(insn, 0xFF) && literal_within(
            insn,
            -0x8000_0000,
            0x7FFF_FFFF,
        ),
        InsnFormat::F31t => dst_within(insn, 0xFF) && jump_within(
            insn,
            -0x8000_0000,
            0x7FFF_FFFF,
        ),
        InsnFormat::F31c => dst_within(insn, 0xFF) && index_within(insn, 0xFFFF_FFFF),
        InsnFormat::F35c => insn.src.count <= 5 && src_within(insn, insn.src.count as int, 0xF)
            && index_within(insn, 0xFFFF),
        InsnFormat::F3rc => literal_within(insn, 0, 0xFF) && index_within(insn, 0xFFFF),
        InsnFormat::F45cc => insn.src.count <= 5 && src_within(insn, insn.src.count as int, 0xF)
            && method_and_proto_within(insn, 0xFFFF),
        InsnFormat::F4rcc => literal_within(insn, 0, 0xFF) && method_and_proto_within(
            insn,
            0xFFFF,
        ),
        InsnFormat::F51l => dst_within(insn, 0xFF),
    }
}

/// The literal is one of which only the sixteen bits are set that the operation has room for.
pub open spec fn high_bits_only(insn: Instruction) -> bool {
    ||| insn.op is ConstHigh16 && insn.literal as int % 0x1_0000 == 0 && literal_within(
        insn,
        -0x8000_0000,
        0x7FFF_FFFF,
    )
    ||| insn.op is ConstWideHigh16 && insn.literal as int % 0x1_0000_0000_0000 == 0
}

/// In every format, an instruction has code units where all of its operands fit the fields of
/// the format, and only there.
#[verifier::rlimit(60)]
pub proof fn operands_that_fit_have_code_units(fmt: InsnFormat, op: int, insn: Instruction)
    ensures
        units_as(fmt, op, insn) is Ok <==> fits(fmt, insn),
{
    let regs = insn.src.regs@;
    let n = insn.src.count as int;
    assert(regs.len() == 5);
    assert(insn.src.held().len() == (if n <= 5 { n } else { 5 }));
    assert forall|i: int| 0 <= i < insn.src.held().len() implies #[trigger] insn.src.held()[i]
        == regs[i] by {}
    if src_within(insn, 1, 0xF) || src_within(insn, 1, 0xFF) {
        assert(regs[0] <= 0xFF);
    }
    if src_within(insn, 2, 0xF) || src_within(insn, 2, 0xFF) {
        assert(regs[0] <= 0xFF && regs[1] <= 0xFF);
    }
}

/// An instruction has code units where all of its operands fit the fields of its format, and
/// only there.
pub proof fn instructions_that_fit_have_code_units(insn: Instruction)
    ensures
        insn_units(insn) is Ok <==> fits(insn.op.layout(), insn),
{
    operands_that_fit_have_code_units(insn.op.layout(), insn.op.byte() as int, insn);
}

} // verus!
