//! Which registers instructions read and write.
use vstd::prelude::*;

use crate::decode::Instruction;
use crate::opcodes::Opcode;

verus! {

/// Which registers an instruction reads.
#[derive(Debug, Clone, Copy, PartialEq, Eq, Structural)]
pub enum Reads {
    Nothing,
    /// The register in the place of the destination.
    Destination,
    /// The source registers that are held one by one.
    Held,
    /// The register in the place of the destination, then the source registers that
    /// are held one by one.
    DestinationAndHeld,
    /// Every source register, also those of a long run.
    Listed,
}

/// What an operation does with its registers.
#[derive(Debug, Clone, Copy, PartialEq, Eq, Structural)]
pub struct Usage {
    /// The destination is written.
    pub defines: bool,
    /// The register after the destination is written too.
    pub wide: bool,
    pub reads: Reads,
}

/// What an operation does with its registers.
pub open spec fn usage(op: Opcode) -> Usage {
    match op {
        Opcode::Nop | Opcode::ReturnVoid | Opcode::Goto | Opcode::Goto16 | Opcode::Goto32 => Usage {
            defines: false,
            wide: false,
            reads: Reads::Nothing,
        },
        Opcode::Return | Opcode::ReturnObject | Opcode::Throw | Opcode::MonitorEnter
        | Opcode::MonitorExit | Opcode::FillArrayData | Opcode::PackedSwitch | Opcode::SparseSwitch
        | Opcode::IfEqz | Opcode::IfNez | Opcode::IfLtz | Opcode::IfGez | Opcode::IfGtz
        | Opcode::IfLez | Opcode::ReturnWide | Opcode::Sput | Opcode::SputWide | Opcode::SputObject
        | Opcode::SputBoolean | Opcode::SputByte | Opcode::SputChar | Opcode::SputShort => Usage {
            defines: false,
            wide: false,
            reads: Reads::Destination,
        },
        Opcode::IfEq | Opcode::IfNe | Opcode::IfLt | Opcode::IfGe | Opcode::IfGt | Opcode::IfLe => Usage {
            defines: false,
            wide: false,
            reads: Reads::Held,
        },
        Opcode::Iput | Opcode::IputBoolean | Opcode::IputByte | Opcode::IputChar
        | Opcode::IputShort | Opcode::IputObject | Opcode::IputWide | Opcode::Aput
        | Opcode::AputObject | Opcode::AputBoolean | Opcode::AputByte | Opcode::AputChar
        | Opcode::AputShort | Opcode::AputWide => Usage {
            defines: false,
            wide: false,
            reads: Reads::DestinationAndHeld,
        },
        Opcode::InvokeVirtual | Opcode::InvokeSuper | Opcode::InvokeDirect | Opcode::InvokeStatic
        | Opcode::InvokeInterface | Opcode::InvokeVirtualRange | Opcode::InvokeSuperRange
        | Opcode::InvokeDirectRange | Opcode::InvokeStaticRange | Opcode::InvokeInterfaceRange
        | Opcode::InvokePolymorphic | Opcode::InvokePolymorphicRange | Opcode::InvokeCustom
        | Opcode::InvokeCustomRange | Opcode::FilledNewArray | Opcode::FilledNewArrayRange => Usage {
            defines: false,
            wide: false,
            reads: Reads::Listed,
        },
        Opcode::MoveResult | Opcode::MoveResultObject | Opcode::MoveException | Opcode::Const4
        | Opcode::Const16 | Opcode::Const | Opcode::ConstHigh16 | Opcode::ConstString
        | Opcode::ConstStringJumbo | Opcode::ConstClass | Opcode::NewInstance | Opcode::Sget
        | Opcode::SgetObject | Opcode::SgetBoolean | Opcode::SgetByte | Opcode::SgetChar
        | Opcode::SgetShort | Opcode::ConstMethodHandle | Opcode::ConstMethodType => Usage {
            defines: true,
            wide: false,
            reads: Reads::Nothing,
        },
        Opcode::MoveResultWide | Opcode::ConstWide16 | Opcode::ConstWide32 | Opcode::ConstWide
        | Opcode::ConstWideHigh16 | Opcode::SgetWide => Usage {
            defines: true,
            wide: true,
            reads: Reads::Nothing,
        },
        Opcode::Move | Opcode::MoveFrom16 | Opcode::Move16 | Opcode::MoveObject
        | Opcode::MoveObjectFrom16 | Opcode::MoveObject16 | Opcode::Iget | Opcode::IgetObject
        | Opcode::IgetBoolean | Opcode::IgetByte | Opcode::IgetChar | Opcode::IgetShort
        | Opcode::ArrayLength | Opcode::NegInt | Opcode::NotInt | Opcode::NegFloat
        | Opcode::IntToFloat | Opcode::FloatToInt | Opcode::IntToByte | Opcode::IntToChar
        | Opcode::IntToShort | Opcode::LongToInt | Opcode::LongToFloat | Opcode::DoubleToInt
        | Opcode::DoubleToFloat | Opcode::InstanceOf | Opcode::NewArray | Opcode::Aget
        | Opcode::AgetObject | Opcode::AgetBoolean | Opcode::AgetByte | Opcode::AgetChar
        | Opcode::AgetShort | Opcode::AddInt | Opcode::SubInt | Opcode::MulInt | Opcode::DivInt
        | Opcode::RemInt | Opcode::AndInt | Opcode::OrInt | Opcode::XorInt | Opcode::ShlInt
        | Opcode::ShrInt | Opcode::UshrInt | Opcode::AddFloat | Opcode::SubFloat | Opcode::MulFloat
        | Opcode::DivFloat | Opcode::RemFloat | Opcode::CmplFloat | Opcode::CmpgFloat
        | Opcode::CmplDouble | Opcode::CmpgDouble | Opcode::CmpLong | Opcode::AddIntLit16
        | Opcode::RsubInt | Opcode::MulIntLit16 | Opcode::DivIntLit16 | Opcode::RemIntLit16
        | Opcode::AndIntLit16 | Opcode::OrIntLit16 | Opcode::XorIntLit16 | Opcode::AddIntLit8
        | Opcode::RsubIntLit8 | Opcode::MulIntLit8 | Opcode::DivIntLit8 | Opcode::RemIntLit8
        | Opcode::AndIntLit8 | Opcode::OrIntLit8 | Opcode::XorIntLit8 | Opcode::ShlIntLit8
        | Opcode::ShrIntLit8 | Opcode::UshrIntLit8 => Usage {
            defines: true,
            wide: false,
            reads: Reads::Held,
        },
        Opcode::MoveWide | Opcode::MoveWideFrom16 | Opcode::MoveWide16 | Opcode::IgetWide
        | Opcode::NegLong | Opcode::NotLong | Opcode::NegDouble | Opcode::IntToLong
        | Opcode::IntToDouble | Opcode::FloatToLong | Opcode::FloatToDouble | Opcode::LongToDouble
        | Opcode::DoubleToLong | Opcode::AgetWide | Opcode::AddLong | Opcode::SubLong
        | Opcode::MulLong | Opcode::DivLong | Opcode::RemLong | Opcode::AndLong | Opcode::OrLong
        | Opcode::XorLong | Opcode::ShlLong | Opcode::ShrLong | Opcode::UshrLong
        | Opcode::AddDouble | Opcode::SubDouble | Opcode::MulDouble | Opcode::DivDouble
        | Opcode::RemDouble => Usage {
            defines: true,
            wide: true,
            reads: Reads::Held,
        },
        Opcode::CheckCast => Usage {
            defines: true,
            wide: false,
            reads: Reads::Destination,
        },
        Opcode::AddInt2Addr | Opcode::SubInt2Addr | Opcode::MulInt2Addr | Opcode::DivInt2Addr
        | Opcode::RemInt2Addr | Opcode::AndInt2Addr | Opcode::OrInt2Addr | Opcode::XorInt2Addr
        | Opcode::ShlInt2Addr | Opcode::ShrInt2Addr | Opcode::UshrInt2Addr | Opcode::AddFloat2Addr
        | Opcode::SubFloat2Addr | Opcode::MulFloat2Addr | Opcode::DivFloat2Addr
        | Opcode::RemFloat2Addr => Usage {
            defines: true,
            wide: false,
            reads: Reads::DestinationAndHeld,
        },
        Opcode::AddLong2Addr | Opcode::SubLong2Addr | Opcode::MulLong2Addr | Opcode::DivLong2Addr
        | Opcode::RemLong2Addr | Opcode::AndLong2Addr | Opcode::OrLong2Addr | Opcode::XorLong2Addr
        | Opcode::ShlLong2Addr | Opcode::ShrLong2Addr | Opcode::UshrLong2Addr
        | Opcode::AddDouble2Addr | Opcode::SubDouble2Addr | Opcode::MulDouble2Addr
        | Opcode::DivDouble2Addr | Opcode::RemDouble2Addr => Usage {
            defines: true,
            wide: true,
            reads: Reads::DestinationAndHeld,
        },
    }
}

fn usage_of(op: Opcode) -> (r: Usage)
    ensures
        r == usage(op),
{
    match op {
        Opcode::Nop | Opcode::ReturnVoid | Opcode::Goto | Opcode::Goto16 | Opcode::Goto32 => Usage {
            defines: false,
            wide: false,
            reads: Reads::Nothing,
        },
        Opcode::Return | Opcode::ReturnObject | Opcode::Throw | Opcode::MonitorEnter
        | Opcode::MonitorExit | Opcode::FillArrayData | Opcode::PackedSwitch | Opcode::SparseSwitch
        | Opcode::IfEqz | Opcode::IfNez | Opcode::IfLtz | Opcode::IfGez | Opcode::IfGtz
        | Opcode::IfLez | Opcode::ReturnWide | Opcode::Sput | Opcode::SputWide | Opcode::SputObject
        | Opcode::SputBoolean | Opcode::SputByte | Opcode::SputChar | Opcode::SputShort => Usage {
            defines: false,
            wide: false,
            reads: Reads::Destination,
        },
        Opcode::IfEq | Opcode::IfNe | Opcode::IfLt | Opcode::IfGe | Opcode::IfGt | Opcode::IfLe => Usage {
            defines: false,
            wide: false,
            reads: Reads::Held,
        },
        Opcode::Iput | Opcode::IputBoolean | Opcode::IputByte | Opcode::IputChar
        | Opcode::IputShort | Opcode::IputObject | Opcode::IputWide | Opcode::Aput
        | Opcode::AputObject | Opcode::AputBoolean | Opcode::AputByte | Opcode::AputChar
        | Opcode::AputShort | Opcode::AputWide => Usage {
            defines: false,
            wide: false,
            reads: Reads::DestinationAndHeld,
        },
        Opcode::InvokeVirtual | Opcode::InvokeSuper | Opcode::InvokeDirect | Opcode::InvokeStatic
        | Opcode::InvokeInterface | Opcode::InvokeVirtualRange | Opcode::InvokeSuperRange
        | Opcode::InvokeDirectRange | Opcode::InvokeStaticRange | Opcode::InvokeInterfaceRange
        | Opcode::InvokePolymorphic | Opcode::InvokePolymorphicRange | Opcode::InvokeCustom
        | Opcode::InvokeCustomRange | Opcode::FilledNewArray | Opcode::FilledNewArrayRange => Usage {
            defines: false,
            wide: false,
            reads: Reads::Listed,
        },
        Opcode::MoveResult | Opcode::MoveResultObject | Opcode::MoveException | Opcode::Const4
        | Opcode::Const16 | Opcode::Const | Opcode::ConstHigh16 | Opcode::ConstString
        | Opcode::ConstStringJumbo | Opcode::ConstClass | Opcode::NewInstance | Opcode::Sget
        | Opcode::SgetObject | Opcode::SgetBoolean | Opcode::SgetByte | Opcode::SgetChar
        | Opcode::SgetShort | Opcode::ConstMethodHandle | Opcode::ConstMethodType => Usage {
            defines: true,
            wide: false,
            reads: Reads::Nothing,
        },
        Opcode::MoveResultWide | Opcode::ConstWide16 | Opcode::ConstWide32 | Opcode::ConstWide
        | Opcode::ConstWideHigh16 | Opcode::SgetWide => Usage {
            defines: true,
            wide: true,
            reads: Reads::Nothing,
        },
        Opcode::Move | Opcode::MoveFrom16 | Opcode::Move16 | Opcode::MoveObject
        | Opcode::MoveObjectFrom16 | Opcode::MoveObject16 | Opcode::Iget | Opcode::IgetObject
        | Opcode::IgetBoolean | Opcode::IgetByte | Opcode::IgetChar | Opcode::IgetShort
        | Opcode::ArrayLength | Opcode::NegInt | Opcode::NotInt | Opcode::NegFloat
        | Opcode::IntToFloat | Opcode::FloatToInt | Opcode::IntToByte | Opcode::IntToChar
        | Opcode::IntToShort | Opcode::LongToInt | Opcode::LongToFloat | Opcode::DoubleToInt
        | Opcode::DoubleToFloat | Opcode::InstanceOf | Opcode::NewArray | Opcode::Aget
        | Opcode::AgetObject | Opcode::AgetBoolean | Opcode::AgetByte | Opcode::AgetChar
        | Opcode::AgetShort | Opcode::AddInt | Opcode::SubInt | Opcode::MulInt | Opcode::DivInt
        | Opcode::RemInt | Opcode::AndInt | Opcode::OrInt | Opcode::XorInt | Opcode::ShlInt
        | Opcode::ShrInt | Opcode::UshrInt | Opcode::AddFloat | Opcode::SubFloat | Opcode::MulFloat
        | Opcode::DivFloat | Opcode::RemFloat | Opcode::CmplFloat | Opcode::CmpgFloat
        | Opcode::CmplDouble | Opcode::CmpgDouble | Opcode::CmpLong | Opcode::AddIntLit16
        | Opcode::RsubInt | Opcode::MulIntLit16 | Opcode::DivIntLit16 | Opcode::RemIntLit16
        | Opcode::AndIntLit16 | Opcode::OrIntLit16 | Opcode::XorIntLit16 | Opcode::AddIntLit8
        | Opcode::RsubIntLit8 | Opcode::MulIntLit8 | Opcode::DivIntLit8 | Opcode::RemIntLit8
        | Opcode::AndIntLit8 | Opcode::OrIntLit8 | Opcode::XorIntLit8 | Opcode::ShlIntLit8
        | Opcode::ShrIntLit8 | Opcode::UshrIntLit8 => Usage {
            defines: true,
            wide: false,
            reads: Reads::Held,
        },
        Opcode::MoveWide | Opcode::MoveWideFrom16 | Opcode::MoveWide16 | Opcode::IgetWide
        | Opcode::NegLong | Opcode::NotLong | Opcode::NegDouble | Opcode::IntToLong
        | Opcode::IntToDouble | Opcode::FloatToLong | Opcode::FloatToDouble | Opcode::LongToDouble
        | Opcode::DoubleToLong | Opcode::AgetWide | Opcode::AddLong | Opcode::SubLong
        | Opcode::MulLong | Opcode::DivLong | Opcode::RemLong | Opcode::AndLong | Opcode::OrLong
        | Opcode::XorLong | Opcode::ShlLong | Opcode::ShrLong | Opcode::UshrLong
        | Opcode::AddDouble | Opcode::SubDouble | Opcode::MulDouble | Opcode::DivDouble
        | Opcode::RemDouble => Usage {
            defines: true,
            wide: true,
            reads: Reads::Held,
        },
        Opcode::CheckCast => Usage {
            defines: true,
            wide: false,
            reads: Reads::Destination,
        },
        Opcode::AddInt2Addr | Opcode::SubInt2Addr | Opcode::MulInt2Addr | Opcode::DivInt2Addr
        | Opcode::RemInt2Addr | Opcode::AndInt2Addr | Opcode::OrInt2Addr | Opcode::XorInt2Addr
        | Opcode::ShlInt2Addr | Opcode::ShrInt2Addr | Opcode::UshrInt2Addr | Opcode::AddFloat2Addr
        | Opcode::SubFloat2Addr | Opcode::MulFloat2Addr | Opcode::DivFloat2Addr
        | Opcode::RemFloat2Addr => Usage {
            defines: true,
            wide: false,
            reads: Reads::DestinationAndHeld,
        },
        Opcode::AddLong2Addr | Opcode::SubLong2Addr | Opcode::MulLong2Addr | Opcode::DivLong2Addr
        | Opcode::RemLong2Addr | Opcode::AndLong2Addr | Opcode::OrLong2Addr | Opcode::XorLong2Addr
        | Opcode::ShlLong2Addr | Opcode::ShrLong2Addr | Opcode::UshrLong2Addr
        | Opcode::AddDouble2Addr | Opcode::SubDouble2Addr | Opcode::MulDouble2Addr
        | Opcode::DivDouble2Addr | Opcode::RemDouble2Addr => Usage {
            defines: true,
            wide: true,
            reads: Reads::DestinationAndHeld,
        },
    }
}

/// The registers that an instruction writes and reads.
#[derive(Debug, Clone, PartialEq, Eq)]
pub struct RegUse {
    /// The register that is written.
    pub def: Option<u16>,
    /// The registers that are read, in order.
    pub reads: Vec<u16>,
    /// The register after `def` is written too.
    pub def_wide: bool,
}

/// The register in the place of the destination; 0 where there is none.
pub open spec fn destination(insn: Instruction) -> u16 {
    match insn.dst {
        Some(d) => d,
        None => 0,
    }
}

/// The register that an instruction writes.
pub open spec fn written(insn: Instruction) -> Option<u16> {
    if usage(insn.op).defines {
        Some(destination(insn))
    } else {
        None
    }
}

/// The registers that an instruction reads, in order.
pub open spec fn read(insn: Instruction) -> Seq<u16> {
    match usage(insn.op).reads {
        Reads::Nothing => Seq::empty(),
        Reads::Destination => seq![destination(insn)],
        Reads::Held => insn.src.held(),
        Reads::DestinationAndHeld => seq![destination(insn)] + insn.src.held(),
        Reads::Listed => insn.src.listed(),
    }
}

/// The registers that an instruction writes and reads.
pub fn classify_reg_use(insn: &Instruction) -> (r: RegUse)
    ensures
        r.def == written(*insn),
        r.reads@ == read(*insn),
        r.def_wide == usage(insn.op).wide,
{
    let dst: u16 = match insn.dst {
        Some(d) => d,
        None => 0,
    };
    let u = usage_of(insn.op);
    let reads: Vec<u16> = match u.reads {
        Reads::Nothing => Vec::new(),
        Reads::Destination => {
            let mut v: Vec<u16> = Vec::new();
            v.push(dst);
            v
        },
        Reads::Held => {
            let mut v: Vec<u16> = Vec::new();
            v.extend_from_slice(insn.src.as_slice());
            v
        },
        Reads::DestinationAndHeld => {
            let mut v: Vec<u16> = Vec::new();
            v.push(dst);
            v.extend_from_slice(insn.src.as_slice());
            v
        },
        Reads::Listed => insn.src.registers(),
    };
    assert(reads@ =~= read(*insn));
    RegUse {
        def: if u.defines {
            Some(dst)
        } else {
            None
        },
        reads,
        def_wide: u.wide,
    }
}

} // verus!
