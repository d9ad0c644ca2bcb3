//! Which registers instructions use, told by their opcode bytes.
use vstd::prelude::*;

use crate::decode::Instruction;
use crate::instruction_set::from_to;
use crate::ssa::registers::{read, usage, written};

verus! {

/// The instruction writes nothing and reads just these registers.
pub open spec fn only_reads(insn: Instruction, regs: Seq<u16>) -> bool {
    &&& written(insn) is None
    &&& !usage(insn.op).wide
    &&& read(insn) == regs
}

/// The instruction writes its destination, with the register behind it if it is wide, and
/// reads just these registers.
pub open spec fn makes(insn: Instruction, d: u16, wide: bool, regs: Seq<u16>) -> bool {
    &&& written(insn) == Some(d)
    &&& usage(insn.op).wide == wide
    &&& read(insn) == regs
}

/// The bytes of operations that make a long or a double out of one register, where the
/// operation is one on one number.
pub open spec fn widens(b: u8) -> bool {
    b == 0x7d || b == 0x7e || b == 0x80 || b == 0x81 || b == 0x83 || b == 0x86 || b == 0x88 || b
        == 0x89 || b == 0x8b
}

/// Moves, constants, and what puts a value into a register without computing it.
pub proof fn moves_and_constants_make_values(insn: Instruction, d: u16)
    requires
        insn.dst == Some(d),
    ensures
        ({
            let b = insn.op.byte();
            let held = insn.src.held();
            let none = Seq::<u16>::empty();
            &&& b == 0x00 ==> only_reads(insn, none)
            &&& from_to(b, 0x01, 0x09) ==> makes(insn, d, from_to(b, 0x04, 0x06), held)
            &&& from_to(b, 0x0a, 0x0d) ==> makes(insn, d, b == 0x0b, none)
            &&& b == 0x0e ==> only_reads(insn, none)
            &&& from_to(b, 0x0f, 0x11) ==> only_reads(insn, seq![d])
            &&& from_to(b, 0x12, 0x1c) ==> makes(insn, d, from_to(b, 0x16, 0x19), none)
            &&& from_to(b, 0x1d, 0x1e) ==> only_reads(insn, seq![d])
            &&& b == 0x1f ==> makes(insn, d, false, seq![d])
            &&& b == 0x20 || b == 0x21 || b == 0x23 ==> makes(insn, d, false, held)
            &&& b == 0x22 ==> makes(insn, d, false, none)
            &&& from_to(b, 0xfe, 0xff) ==> makes(insn, d, false, none)
        }),
{
}

/// Jumps and switches make nothing; comparisons make a number out of what they compare.
pub proof fn jumps_only_read(insn: Instruction, d: u16)
    requires
        insn.dst == Some(d),
    ensures
        ({
            let b = insn.op.byte();
            let held = insn.src.held();
            &&& from_to(b, 0x26, 0x27) ==> only_reads(insn, seq![d])
            &&& from_to(b, 0x28, 0x2a) ==> only_reads(insn, Seq::empty())
            &&& from_to(b, 0x2b, 0x2c) ==> only_reads(insn, seq![d])
            &&& from_to(b, 0x2d, 0x31) ==> makes(insn, d, false, held)
            &&& from_to(b, 0x32, 0x37) ==> only_reads(insn, held)
            &&& from_to(b, 0x38, 0x3d) ==> only_reads(insn, seq![d])
        }),
{
}

/// What gets an element or a member makes a value; what puts one reads the value first and
/// then where it goes.
pub proof fn getters_make_and_putters_read(insn: Instruction, d: u16)
    requires
        insn.dst == Some(d),
    ensures
        ({
            let b = insn.op.byte();
            let held = insn.src.held();
            &&& from_to(b, 0x44, 0x4a) ==> makes(insn, d, b == 0x45, held)
            &&& from_to(b, 0x4b, 0x51) ==> only_reads(insn, seq![d] + held)
            &&& from_to(b, 0x52, 0x58) ==> makes(insn, d, b == 0x53, held)
            &&& from_to(b, 0x59, 0x5f) ==> only_reads(insn, seq![d] + held)
            &&& from_to(b, 0x60, 0x66) ==> makes(insn, d, b == 0x61, Seq::empty())
            &&& from_to(b, 0x67, 0x6d) ==> only_reads(insn, seq![d])
        }),
{
}

/// Calls, and what fills a new array, read every register that they list and make nothing:
/// what they come to is moved by an instruction of its own.
pub proof fn calls_read_what_they_list(insn: Instruction)
    ensures
        ({
            let b = insn.op.byte();
            from_to(b, 0x24, 0x25) || from_to(b, 0x6e, 0x78) || from_to(b, 0xfa, 0xfd)
                ==> only_reads(insn, insn.src.listed())
        }),
{
}

/// Arithmetic makes a value out of its sources. In the form with two registers the
/// destination is the first of them, whatever the width.
pub proof fn arithmetic_reads_its_operands(insn: Instruction, d: u16)
    requires
        insn.dst == Some(d),
    ensures
        ({
            let b = insn.op.byte();
            let held = insn.src.held();
            &&& from_to(b, 0x7b, 0x8f) ==> makes(insn, d, widens(b), held)
            &&& from_to(b, 0x90, 0xaf) ==> makes(
                insn,
                d,
                from_to(b, 0x9b, 0xa5) || from_to(b, 0xab, 0xaf),
                held,
            )
            &&& from_to(b, 0xb0, 0xcf) ==> makes(
                insn,
                d,
                from_to(b, 0xbb, 0xc5) || from_to(b, 0xcb, 0xcf),
                seq![d] + held,
            )
            &&& from_to(b, 0xd0, 0xe2) ==> makes(insn, d, false, held)
        }),
{
}

/// An operation in the form with two registers uses what the same operation with three
/// registers uses whose first source is the destination.
pub proof fn two_registers_stand_for_three(a: Instruction, b: Instruction, d: u16, r: u16)
    requires
        from_to(a.op.byte(), 0x90, 0xaf),
        b.op.byte() == a.op.byte() + 0x20,
        a.dst == Some(d),
        b.dst == Some(d),
        a.src.held() == seq![d, r],
        b.src.held() == seq![r],
    ensures
        written(a) == written(b),
        usage(a.op).wide == usage(b.op).wide,
        read(a) == read(b),
{
    arithmetic_reads_its_operands(a, d);
    arithmetic_reads_its_operands(b, d);
    assert(seq![d] + seq![r] =~= seq![d, r]);
}

} // verus!
