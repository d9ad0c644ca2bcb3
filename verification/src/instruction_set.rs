//! The regularities of the instruction set: how opcode bytes, formats and names hang
//! together.
use vstd::prelude::*;
use vstd::string::*;

use crate::decode::RegList;
use crate::opcodes::{InsnFormat, Opcode};

verus! {

// Opcode bytes

/// The operation with the next opcode byte, where that is in use.
pub open spec fn following(op: Opcode) -> Option<Opcode> {
    match op {
        Opcode::Nop => Some(Opcode::Move),
        Opcode::Move => Some(Opcode::MoveFrom16),
        Opcode::MoveFrom16 => Some(Opcode::Move16),
        Opcode::Move16 => Some(Opcode::MoveWide),
        Opcode::MoveWide => Some(Opcode::MoveWideFrom16),
        Opcode::MoveWideFrom16 => Some(Opcode::MoveWide16),
        Opcode::MoveWide16 => Some(Opcode::MoveObject),
        Opcode::MoveObject => Some(Opcode::MoveObjectFrom16),
        Opcode::MoveObjectFrom16 => Some(Opcode::MoveObject16),
        Opcode::MoveObject16 => Some(Opcode::MoveResult),
        Opcode::MoveResult => Some(Opcode::MoveResultWide),
        Opcode::MoveResultWide => Some(Opcode::MoveResultObject),
        Opcode::MoveResultObject => Some(Opcode::MoveException),
        Opcode::MoveException => Some(Opcode::ReturnVoid),
        Opcode::ReturnVoid => Some(Opcode::Return),
        Opcode::Return => Some(Opcode::ReturnWide),
        Opcode::ReturnWide => Some(Opcode::ReturnObject),
        Opcode::ReturnObject => Some(Opcode::Const4),
        Opcode::Const4 => Some(Opcode::Const16),
        Opcode::Const16 => Some(Opcode::Const),
        Opcode::Const => Some(Opcode::ConstHigh16),
        Opcode::ConstHigh16 => Some(Opcode::ConstWide16),
        Opcode::ConstWide16 => Some(Opcode::ConstWide32),
        Opcode::ConstWide32 => Some(Opcode::ConstWide),
        Opcode::ConstWide => Some(Opcode::ConstWideHigh16),
        Opcode::ConstWideHigh16 => Some(Opcode::ConstString),
        Opcode::ConstString => Some(Opcode::ConstStringJumbo),
        Opcode::ConstStringJumbo => Some(Opcode::ConstClass),
        Opcode::ConstClass => Some(Opcode::MonitorEnter),
        Opcode::MonitorEnter => Some(Opcode::MonitorExit),
        Opcode::MonitorExit => Some(Opcode::CheckCast),
        Opcode::CheckCast => Some(Opcode::InstanceOf),
        Opcode::InstanceOf => Some(Opcode::ArrayLength),
        Opcode::ArrayLength => Some(Opcode::NewInstance),
        Opcode::NewInstance => Some(Opcode::NewArray),
        Opcode::NewArray => Some(Opcode::FilledNewArray),
        Opcode::FilledNewArray => Some(Opcode::FilledNewArrayRange),
        Opcode::FilledNewArrayRange => Some(Opcode::FillArrayData),
        Opcode::FillArrayData => Some(Opcode::Throw),
        Opcode::Throw => Some(Opcode::Goto),
        Opcode::Goto => Some(Opcode::Goto16),
        Opcode::Goto16 => Some(Opcode::Goto32),
        Opcode::Goto32 => Some(Opcode::PackedSwitch),
        Opcode::PackedSwitch => Some(Opcode::SparseSwitch),
        Opcode::SparseSwitch => Some(Opcode::CmplFloat),
        Opcode::CmplFloat => Some(Opcode::CmpgFloat),
        Opcode::CmpgFloat => Some(Opcode::CmplDouble),
        Opcode::CmplDouble => Some(Opcode::CmpgDouble),
        Opcode::CmpgDouble => Some(Opcode::CmpLong),
        Opcode::CmpLong => Some(Opcode::IfEq),
        Opcode::IfEq => Some(Opcode::IfNe),
        Opcode::IfNe => Some(Opcode::IfLt),
        Opcode::IfLt => Some(Opcode::IfGe),
        Opcode::IfGe => Some(Opcode::IfGt),
        Opcode::IfGt => Some(Opcode::IfLe),
        Opcode::IfLe => Some(Opcode::IfEqz),
        Opcode::IfEqz => Some(Opcode::IfNez),
        Opcode::IfNez => Some(Opcode::IfLtz),
        Opcode::IfLtz => Some(Opcode::IfGez),
        Opcode::IfGez => Some(Opcode::IfGtz),
        Opcode::IfGtz => Some(Opcode::IfLez),
        Opcode::Aget => Some(Opcode::AgetWide),
        Opcode::AgetWide => Some(Opcode::AgetObject),
        Opcode::AgetObject => Some(Opcode::AgetBoolean),
        Opcode::AgetBoolean => Some(Opcode::AgetByte),
        Opcode::AgetByte => Some(Opcode::AgetChar),
        Opcode::AgetChar => Some(Opcode::AgetShort),
        Opcode::AgetShort => Some(Opcode::Aput),
        Opcode::Aput => Some(Opcode::AputWide),
        Opcode::AputWide => Some(Opcode::AputObject),
        Opcode::AputObject => Some(Opcode::AputBoolean),
        Opcode::AputBoolean => Some(Opcode::AputByte),
        Opcode::AputByte => Some(Opcode::AputChar),
        Opcode::AputChar => Some(Opcode::AputShort),
        Opcode::AputShort => Some(Opcode::Iget),
        Opcode::Iget => Some(Opcode::IgetWide),
        Opcode::IgetWide => Some(Opcode::IgetObject),
        Opcode::IgetObject => Some(Opcode::IgetBoolean),
        Opcode::IgetBoolean => Some(Opcode::IgetByte),
        Opcode::IgetByte => Some(Opcode::IgetChar),
        Opcode::IgetChar => Some(Opcode::IgetShort),
        Opcode::IgetShort => Some(Opcode::Iput),
        Opcode::Iput => Some(Opcode::IputWide),
        Opcode::IputWide => Some(Opcode::IputObject),
        Opcode::IputObject => Some(Opcode::IputBoolean),
        Opcode::IputBoolean => Some(Opcode::IputByte),
        Opcode::IputByte => Some(Opcode::IputChar),
        Opcode::IputChar => Some(Opcode::IputShort),
        Opcode::IputShort => Some(Opcode::Sget),
        Opcode::Sget => Some(Opcode::SgetWide),
        Opcode::SgetWide => Some(Opcode::SgetObject),
        Opcode::SgetObject => Some(Opcode::SgetBoolean),
        Opcode::SgetBoolean => Some(Opcode::SgetByte),
        Opcode::SgetByte => Some(Opcode::SgetChar),
        Opcode::SgetChar => Some(Opcode::SgetShort),
        Opcode::SgetShort => Some(Opcode::Sput),
        Opcode::Sput => Some(Opcode::SputWide),
        Opcode::SputWide => Some(Opcode::SputObject),
        Opcode::SputObject => Some(Opcode::SputBoolean),
        Opcode::SputBoolean => Some(Opcode::SputByte),
        Opcode::SputByte => Some(Opcode::SputChar),
        Opcode::SputChar => Some(Opcode::SputShort),
        Opcode::SputShort => Some(Opcode::InvokeVirtual),
        Opcode::InvokeVirtual => Some(Opcode::InvokeSuper),
        Opcode::InvokeSuper => Some(Opcode::InvokeDirect),
        Opcode::InvokeDirect => Some(Opcode::InvokeStatic),
        Opcode::InvokeStatic => Some(Opcode::InvokeInterface),
        Opcode::InvokeVirtualRange => Some(Opcode::InvokeSuperRange),
        Opcode::InvokeSuperRange => Some(Opcode::InvokeDirectRange),
        Opcode::InvokeDirectRange => Some(Opcode::InvokeStaticRange),
        Opcode::InvokeStaticRange => Some(Opcode::InvokeInterfaceRange),
        Opcode::NegInt => Some(Opcode::NotInt),
        Opcode::NotInt => Some(Opcode::NegLong),
        Opcode::NegLong => Some(Opcode::NotLong),
        Opcode::NotLong => Some(Opcode::NegFloat),
        Opcode::NegFloat => Some(Opcode::NegDouble),
        Opcode::NegDouble => Some(Opcode::IntToLong),
        Opcode::IntToLong => Some(Opcode::IntToFloat),
        Opcode::IntToFloat => Some(Opcode::IntToDouble),
        Opcode::IntToDouble => Some(Opcode::LongToInt),
        Opcode::LongToInt => Some(Opcode::LongToFloat),
        Opcode::LongToFloat => Some(Opcode::LongToDouble),
        Opcode::LongToDouble => Some(Opcode::FloatToInt),
        Opcode::FloatToInt => Some(Opcode::FloatToLong),
        Opcode::FloatToLong => Some(Opcode::FloatToDouble),
        Opcode::FloatToDouble => Some(Opcode::DoubleToInt),
        Opcode::DoubleToInt => Some(Opcode::DoubleToLong),
        Opcode::DoubleToLong => Some(Opcode::DoubleToFloat),
        Opcode::DoubleToFloat => Some(Opcode::IntToByte),
        Opcode::IntToByte => Some(Opcode::IntToChar),
        Opcode::IntToChar => Some(Opcode::IntToShort),
        Opcode::IntToShort => Some(Opcode::AddInt),
        Opcode::AddInt => Some(Opcode::SubInt),
        Opcode::SubInt => Some(Opcode::MulInt),
        Opcode::MulInt => Some(Opcode::DivInt),
        Opcode::DivInt => Some(Opcode::RemInt),
        Opcode::RemInt => Some(Opcode::AndInt),
        Opcode::AndInt => Some(Opcode::OrInt),
        Opcode::OrInt => Some(Opcode::XorInt),
        Opcode::XorInt => Some(Opcode::ShlInt),
        Opcode::ShlInt => Some(Opcode::ShrInt),
        Opcode::ShrInt => Some(Opcode::UshrInt),
        Opcode::UshrInt => Some(Opcode::AddLong),
        Opcode::AddLong => Some(Opcode::SubLong),
        Opcode::SubLong => Some(Opcode::MulLong),
        Opcode::MulLong => Some(Opcode::DivLong),
        Opcode::DivLong => Some(Opcode::RemLong),
        Opcode::RemLong => Some(Opcode::AndLong),
        Opcode::AndLong => Some(Opcode::OrLong),
        Opcode::OrLong => Some(Opcode::XorLong),
        Opcode::XorLong => Some(Opcode::ShlLong),
        Opcode::ShlLong => Some(Opcode::ShrLong),
        Opcode::ShrLong => Some(Opcode::UshrLong),
        Opcode::UshrLong => Some(Opcode::AddFloat),
        Opcode::AddFloat => Some(Opcode::SubFloat),
        Opcode::SubFloat => Some(Opcode::MulFloat),
        Opcode::MulFloat => Some(Opcode::DivFloat),
        Opcode::DivFloat => Some(Opcode::RemFloat),
        Opcode::RemFloat => Some(Opcode::AddDouble),
        Opcode::AddDouble => Some(Opcode::SubDouble),
        Opcode::SubDouble => Some(Opcode::MulDouble),
        Opcode::MulDouble => Some(Opcode::DivDouble),
        Opcode::DivDouble => Some(Opcode::RemDouble),
        Opcode::RemDouble => Some(Opcode::AddInt2Addr),
        Opcode::AddInt2Addr => Some(Opcode::SubInt2Addr),
        Opcode::SubInt2Addr => Some(Opcode::MulInt2Addr),
        Opcode::MulInt2Addr => Some(Opcode::DivInt2Addr),
        Opcode::DivInt2Addr => Some(Opcode::RemInt2Addr),
        Opcode::RemInt2Addr => Some(Opcode::AndInt2Addr),
        Opcode::AndInt2Addr => Some(Opcode::OrInt2Addr),
        Opcode::OrInt2Addr => Some(Opcode::XorInt2Addr),
        Opcode::XorInt2Addr => Some(Opcode::ShlInt2Addr),
        Opcode::ShlInt2Addr => Some(Opcode::ShrInt2Addr),
        Opcode::ShrInt2Addr => Some(Opcode::UshrInt2Addr),
        Opcode::UshrInt2Addr => Some(Opcode::AddLong2Addr),
        Opcode::AddLong2Addr => Some(Opcode::SubLong2Addr),
        Opcode::SubLong2Addr => Some(Opcode::MulLong2Addr),
        Opcode::MulLong2Addr => Some(Opcode::DivLong2Addr),
        Opcode::DivLong2Addr => Some(Opcode::RemLong2Addr),
        Opcode::RemLong2Addr => Some(Opcode::AndLong2Addr),
        Opcode::AndLong2Addr => Some(Opcode::OrLong2Addr),
        Opcode::OrLong2Addr => Some(Opcode::XorLong2Addr),
        Opcode::XorLong2Addr => Some(Opcode::ShlLong2Addr),
        Opcode::ShlLong2Addr => Some(Opcode::ShrLong2Addr),
        Opcode::ShrLong2Addr => Some(Opcode::UshrLong2Addr),
        Opcode::UshrLong2Addr => Some(Opcode::AddFloat2Addr),
        Opcode::AddFloat2Addr => Some(Opcode::SubFloat2Addr),
        Opcode::SubFloat2Addr => Some(Opcode::MulFloat2Addr),
        Opcode::MulFloat2Addr => Some(Opcode::DivFloat2Addr),
        Opcode::DivFloat2Addr => Some(Opcode::RemFloat2Addr),
        Opcode::RemFloat2Addr => Some(Opcode::AddDouble2Addr),
        Opcode::AddDouble2Addr => Some(Opcode::SubDouble2Addr),
        Opcode::SubDouble2Addr => Some(Opcode::MulDouble2Addr),
        Opcode::MulDouble2Addr => Some(Opcode::DivDouble2Addr),
        Opcode::DivDouble2Addr => Some(Opcode::RemDouble2Addr),
        Opcode::RemDouble2Addr => Some(Opcode::AddIntLit16),
        Opcode::AddIntLit16 => Some(Opcode::RsubInt),
        Opcode::RsubInt => Some(Opcode::MulIntLit16),
        Opcode::MulIntLit16 => Some(Opcode::DivIntLit16),
        Opcode::DivIntLit16 => Some(Opcode::RemIntLit16),
        Opcode::RemIntLit16 => Some(Opcode::AndIntLit16),
        Opcode::AndIntLit16 => Some(Opcode::OrIntLit16),
        Opcode::OrIntLit16 => Some(Opcode::XorIntLit16),
        Opcode::XorIntLit16 => Some(Opcode::AddIntLit8),
        Opcode::AddIntLit8 => Some(Opcode::RsubIntLit8),
        Opcode::RsubIntLit8 => Some(Opcode::MulIntLit8),
        Opcode::MulIntLit8 => Some(Opcode::DivIntLit8),
        Opcode::DivIntLit8 => Some(Opcode::RemIntLit8),
        Opcode::RemIntLit8 => Some(Opcode::AndIntLit8),
        Opcode::AndIntLit8 => Some(Opcode::OrIntLit8),
        Opcode::OrIntLit8 => Some(Opcode::XorIntLit8),
        Opcode::XorIntLit8 => Some(Opcode::ShlIntLit8),
        Opcode::ShlIntLit8 => Some(Opcode::ShrIntLit8),
        Opcode::ShrIntLit8 => Some(Opcode::UshrIntLit8),
        Opcode::InvokePolymorphic => Some(Opcode::InvokePolymorphicRange),
        Opcode::InvokePolymorphicRange => Some(Opcode::InvokeCustom),
        Opcode::InvokeCustom => Some(Opcode::InvokeCustomRange),
        Opcode::InvokeCustomRange => Some(Opcode::ConstMethodHandle),
        Opcode::ConstMethodHandle => Some(Opcode::ConstMethodType),
        _ => None,
    }
}

/// Opcode bytes count up along the instruction set. Gaps are only in front of the first
/// array operation, of calls with register ranges, of operations on one number, and of the
/// calls and constants that were added later.
pub proof fn opcode_bytes_count_up(op: Opcode)
    ensures
        Opcode::Nop.byte() == 0x00,
        Opcode::Aget.byte() == 0x44,
        Opcode::InvokeVirtualRange.byte() == 0x74,
        Opcode::NegInt.byte() == 0x7b,
        Opcode::InvokePolymorphic.byte() == 0xfa,
        following(op) matches Some(next) ==> next.byte() == op.byte() + 1,
{
}

/// `b` is between `first` and `last`.
pub open spec fn from_to(b: u8, first: int, last: int) -> bool {
    first <= b <= last
}

/// The format of an operation follows from its opcode byte: operations of one kind stand
/// together and share a format.
pub proof fn formats_follow_the_opcode_byte(op: Opcode)
    ensures
        ({
            let b = op.byte();
            &&& (b == 0x00 || b == 0x0e) <==> op.layout() == InsnFormat::F10x
            &&& (b == 0x01 || b == 0x04 || b == 0x07 || b == 0x21 || from_to(b, 0x7b, 0x8f) || from_to(b, 0xb0, 0xcf)) <==> op.layout() == InsnFormat::F12x
            &&& (b == 0x12) <==> op.layout() == InsnFormat::F11n
            &&& (from_to(b, 0x0a, 0x0d) || from_to(b, 0x0f, 0x11) || from_to(b, 0x1d, 0x1e) || b == 0x27) <==> op.layout() == InsnFormat::F11x
            &&& (b == 0x28) <==> op.layout() == InsnFormat::F10t
            &&& (b == 0x29) <==> op.layout() == InsnFormat::F20t
            &&& (b == 0x2a) <==> op.layout() == InsnFormat::F30t
            &&& (b == 0x02 || b == 0x05 || b == 0x08) <==> op.layout() == InsnFormat::F22x
            &&& (b == 0x03 || b == 0x06 || b == 0x09) <==> op.layout() == InsnFormat::F32x
            &&& (from_to(b, 0x38, 0x3d)) <==> op.layout() == InsnFormat::F21t
            &&& (from_to(b, 0x32, 0x37)) <==> op.layout() == InsnFormat::F22t
            &&& (b == 0x13 || b == 0x16) <==> op.layout() == InsnFormat::F21s
            &&& (b == 0x15 || b == 0x19) <==> op.layout() == InsnFormat::F21h
            &&& (b == 0x14 || b == 0x17) <==> op.layout() == InsnFormat::F31i
            &&& (b == 0x18) <==> op.layout() == InsnFormat::F51l
            &&& (b == 0x1a || b == 0x1c || b == 0x1f || b == 0x22 || from_to(b, 0x60, 0x6d) || from_to(b, 0xfe, 0xff)) <==> op.layout() == InsnFormat::F21c
            &&& (b == 0x1b) <==> op.layout() == InsnFormat::F31c
            &&& (b == 0x20 || b == 0x23 || from_to(b, 0x52, 0x5f)) <==> op.layout() == InsnFormat::F22c
            &&& (b == 0x24 || from_to(b, 0x6e, 0x72) || b == 0xfc) <==> op.layout() == InsnFormat::F35c
            &&& (b == 0x25 || from_to(b, 0x74, 0x78) || b == 0xfd) <==> op.layout() == InsnFormat::F3rc
            &&& (b == 0xfa) <==> op.layout() == InsnFormat::F45cc
            &&& (b == 0xfb) <==> op.layout() == InsnFormat::F4rcc
            &&& (b == 0x26 || from_to(b, 0x2b, 0x2c)) <==> op.layout() == InsnFormat::F31t
            &&& (from_to(b, 0x2d, 0x31) || from_to(b, 0x44, 0x51) || from_to(b, 0x90, 0xaf)) <==> op.layout() == InsnFormat::F23x
            &&& (from_to(b, 0xd0, 0xd7)) <==> op.layout() == InsnFormat::F22s
            &&& (from_to(b, 0xd8, 0xe2)) <==> op.layout() == InsnFormat::F22b
        }),
{
}

/// The first digit of a format's name is its length in code units.
pub proof fn formats_tell_their_length(fmt: InsnFormat)
    ensures
        fmt.units() == 1 <==> fmt is F10x || fmt is F12x || fmt is F11n || fmt is F11x
            || fmt is F10t,
        fmt.units() == 3 <==> fmt is F30t || fmt is F32x || fmt is F31i || fmt is F31t
            || fmt is F31c || fmt is F35c || fmt is F3rc,
        fmt.units() == 4 <==> fmt is F45cc || fmt is F4rcc,
        fmt.units() == 5 <==> fmt is F51l,
        1 <= fmt.units() <= 5,
{
}

// Names

/// The name of an operation, put together from what it does, what it does it to, and how
/// it is encoded.
pub open spec fn composed_name(op: Opcode) -> Seq<char> {
    match op {
        Opcode::Nop => "nop"@,
        Opcode::Move => "move"@,
        Opcode::MoveFrom16 => "move"@ + "/from16"@,
        Opcode::Move16 => "move"@ + "/16"@,
        Opcode::MoveWide => "move"@ + "-wide"@,
        Opcode::MoveWideFrom16 => "move"@ + "-wide"@ + "/from16"@,
        Opcode::MoveWide16 => "move"@ + "-wide"@ + "/16"@,
        Opcode::MoveObject => "move"@ + "-object"@,
        Opcode::MoveObjectFrom16 => "move"@ + "-object"@ + "/from16"@,
        Opcode::MoveObject16 => "move"@ + "-object"@ + "/16"@,
        Opcode::MoveResult => "move-result"@,
        Opcode::MoveResultWide => "move-result"@ + "-wide"@,
        Opcode::MoveResultObject => "move-result"@ + "-object"@,
        Opcode::MoveException => "move-exception"@,
        Opcode::ReturnVoid => "return-void"@,
        Opcode::Return => "return"@,
        Opcode::ReturnWide => "return"@ + "-wide"@,
        Opcode::ReturnObject => "return"@ + "-object"@,
        Opcode::Const4 => "const"@ + "/4"@,
        Opcode::Const16 => "const"@ + "/16"@,
        Opcode::Const => "const"@,
        Opcode::ConstHigh16 => "const"@ + "/high16"@,
        Opcode::ConstWide16 => "const-wide"@ + "/16"@,
        Opcode::ConstWide32 => "const-wide"@ + "/32"@,
        Opcode::ConstWide => "const-wide"@,
        Opcode::ConstWideHigh16 => "const-wide"@ + "/high16"@,
        Opcode::ConstString => "const-string"@,
        Opcode::ConstStringJumbo => "const-string"@ + "/jumbo"@,
        Opcode::ConstClass => "const-class"@,
        Opcode::MonitorEnter => "monitor-enter"@,
        Opcode::MonitorExit => "monitor-exit"@,
        Opcode::CheckCast => "check-cast"@,
        Opcode::InstanceOf => "instance-of"@,
        Opcode::ArrayLength => "array-length"@,
        Opcode::NewInstance => "new-instance"@,
        Opcode::NewArray => "new-array"@,
        Opcode::FilledNewArray => "filled-new-array"@,
        Opcode::FilledNewArrayRange => "filled-new-array"@ + "/range"@,
        Opcode::FillArrayData => "fill-array-data"@,
        Opcode::Throw => "throw"@,
        Opcode::Goto => "goto"@,
        Opcode::Goto16 => "goto"@ + "/16"@,
        Opcode::Goto32 => "goto"@ + "/32"@,
        Opcode::PackedSwitch => "packed-switch"@,
        Opcode::SparseSwitch => "sparse-switch"@,
        Opcode::CmplFloat => "cmpl-"@ + "float"@,
        Opcode::CmpgFloat => "cmpg-"@ + "float"@,
        Opcode::CmplDouble => "cmpl-"@ + "double"@,
        Opcode::CmpgDouble => "cmpg-"@ + "double"@,
        Opcode::CmpLong => "cmp-"@ + "long"@,
        Opcode::IfEq => "if-"@ + "eq"@,
        Opcode::IfNe => "if-"@ + "ne"@,
        Opcode::IfLt => "if-"@ + "lt"@,
        Opcode::IfGe => "if-"@ + "ge"@,
        Opcode::IfGt => "if-"@ + "gt"@,
        Opcode::IfLe => "if-"@ + "le"@,
        Opcode::IfEqz => "if-"@ + "eq"@ + "z"@,
        Opcode::IfNez => "if-"@ + "ne"@ + "z"@,
        Opcode::IfLtz => "if-"@ + "lt"@ + "z"@,
        Opcode::IfGez => "if-"@ + "ge"@ + "z"@,
        Opcode::IfGtz => "if-"@ + "gt"@ + "z"@,
        Opcode::IfLez => "if-"@ + "le"@ + "z"@,
        Opcode::Aget => "aget"@,
        Opcode::AgetWide => "aget"@ + "-wide"@,
        Opcode::AgetObject => "aget"@ + "-object"@,
        Opcode::AgetBoolean => "aget"@ + "-boolean"@,
        Opcode::AgetByte => "aget"@ + "-byte"@,
        Opcode::AgetChar => "aget"@ + "-char"@,
        Opcode::AgetShort => "aget"@ + "-short"@,
        Opcode::Aput => "aput"@,
        Opcode::AputWide => "aput"@ + "-wide"@,
        Opcode::AputObject => "aput"@ + "-object"@,
        Opcode::AputBoolean => "aput"@ + "-boolean"@,
        Opcode::AputByte => "aput"@ + "-byte"@,
        Opcode::AputChar => "aput"@ + "-char"@,
        Opcode::AputShort => "aput"@ + "-short"@,
        Opcode::Iget => "iget"@,
        Opcode::IgetWide => "iget"@ + "-wide"@,
        Opcode::IgetObject => "iget"@ + "-object"@,
        Opcode::IgetBoolean => "iget"@ + "-boolean"@,
        Opcode::IgetByte => "iget"@ + "-byte"@,
        Opcode::IgetChar => "iget"@ + "-char"@,
        Opcode::IgetShort => "iget"@ + "-short"@,
        Opcode::Iput => "iput"@,
        Opcode::IputWide => "iput"@ + "-wide"@,
        Opcode::IputObject => "iput"@ + "-object"@,
        Opcode::IputBoolean => "iput"@ + "-boolean"@,
        Opcode::IputByte => "iput"@ + "-byte"@,
        Opcode::IputChar => "iput"@ + "-char"@,
        Opcode::IputShort => "iput"@ + "-short"@,
        Opcode::Sget => "sget"@,
        Opcode::SgetWide => "sget"@ + "-wide"@,
        Opcode::SgetObject => "sget"@ + "-object"@,
        Opcode::SgetBoolean => "sget"@ + "-boolean"@,
        Opcode::SgetByte => "sget"@ + "-byte"@,
        Opcode::SgetChar => "sget"@ + "-char"@,
        Opcode::SgetShort => "sget"@ + "-short"@,
        Opcode::Sput => "sput"@,
        Opcode::SputWide => "sput"@ + "-wide"@,
        Opcode::SputObject => "sput"@ + "-object"@,
        Opcode::SputBoolean => "sput"@ + "-boolean"@,
        Opcode::SputByte => "sput"@ + "-byte"@,
        Opcode::SputChar => "sput"@ + "-char"@,
        Opcode::SputShort => "sput"@ + "-short"@,
        Opcode::InvokeVirtual => "invoke-"@ + "virtual"@,
        Opcode::InvokeSuper => "invoke-"@ + "super"@,
        Opcode::InvokeDirect => "invoke-"@ + "direct"@,
        Opcode::InvokeStatic => "invoke-"@ + "static"@,
        Opcode::InvokeInterface => "invoke-"@ + "interface"@,
        Opcode::InvokeVirtualRange => "invoke-"@ + "virtual"@ + "/range"@,
        Opcode::InvokeSuperRange => "invoke-"@ + "super"@ + "/range"@,
        Opcode::InvokeDirectRange => "invoke-"@ + "direct"@ + "/range"@,
        Opcode::InvokeStaticRange => "invoke-"@ + "static"@ + "/range"@,
        Opcode::InvokeInterfaceRange => "invoke-"@ + "interface"@ + "/range"@,
        Opcode::NegInt => "neg-"@ + "int"@,
        Opcode::NotInt => "not-"@ + "int"@,
        Opcode::NegLong => "neg-"@ + "long"@,
        Opcode::NotLong => "not-"@ + "long"@,
        Opcode::NegFloat => "neg-"@ + "float"@,
        Opcode::NegDouble => "neg-"@ + "double"@,
        Opcode::IntToLong => "int"@ + "-to-"@ + "long"@,
        Opcode::IntToFloat => "int"@ + "-to-"@ + "float"@,
        Opcode::IntToDouble => "int"@ + "-to-"@ + "double"@,
        Opcode::LongToInt => "long"@ + "-to-"@ + "int"@,
        Opcode::LongToFloat => "long"@ + "-to-"@ + "float"@,
        Opcode::LongToDouble => "long"@ + "-to-"@ + "double"@,
        Opcode::FloatToInt => "float"@ + "-to-"@ + "int"@,
        Opcode::FloatToLong => "float"@ + "-to-"@ + "long"@,
        Opcode::FloatToDouble => "float"@ + "-to-"@ + "double"@,
        Opcode::DoubleToInt => "double"@ + "-to-"@ + "int"@,
        Opcode::DoubleToLong => "double"@ + "-to-"@ + "long"@,
        Opcode::DoubleToFloat => "double"@ + "-to-"@ + "float"@,
        Opcode::IntToByte => "int"@ + "-to-"@ + "byte"@,
        Opcode::IntToChar => "int"@ + "-to-"@ + "char"@,
        Opcode::IntToShort => "int"@ + "-to-"@ + "short"@,
        Opcode::AddInt => "add-"@ + "int"@,
        Opcode::SubInt => "sub-"@ + "int"@,
        Opcode::MulInt => "mul-"@ + "int"@,
        Opcode::DivInt => "div-"@ + "int"@,
        Opcode::RemInt => "rem-"@ + "int"@,
        Opcode::AndInt => "and-"@ + "int"@,
        Opcode::OrInt => "or-"@ + "int"@,
        Opcode::XorInt => "xor-"@ + "int"@,
        Opcode::ShlInt => "shl-"@ + "int"@,
        Opcode::ShrInt => "shr-"@ + "int"@,
        Opcode::UshrInt => "ushr-"@ + "int"@,
        Opcode::AddLong => "add-"@ + "long"@,
        Opcode::SubLong => "sub-"@ + "long"@,
        Opcode::MulLong => "mul-"@ + "long"@,
        Opcode::DivLong => "div-"@ + "long"@,
        Opcode::RemLong => "rem-"@ + "long"@,
        Opcode::AndLong => "and-"@ + "long"@,
        Opcode::OrLong => "or-"@ + "long"@,
        Opcode::XorLong => "xor-"@ + "long"@,
        Opcode::ShlLong => "shl-"@ + "long"@,
        Opcode::ShrLong => "shr-"@ + "long"@,
        Opcode::UshrLong => "ushr-"@ + "long"@,
        Opcode::AddFloat => "add-"@ + "float"@,
        Opcode::SubFloat => "sub-"@ + "float"@,
        Opcode::MulFloat => "mul-"@ + "float"@,
        Opcode::DivFloat => "div-"@ + "float"@,
        Opcode::RemFloat => "rem-"@ + "float"@,
        Opcode::AddDouble => "add-"@ + "double"@,
        Opcode::SubDouble => "sub-"@ + "double"@,
        Opcode::MulDouble => "mul-"@ + "double"@,
        Opcode::DivDouble => "div-"@ + "double"@,
        Opcode::RemDouble => "rem-"@ + "double"@,
        Opcode::AddInt2Addr => "add-"@ + "int"@ + "/2addr"@,
        Opcode::SubInt2Addr => "sub-"@ + "int"@ + "/2addr"@,
        Opcode::MulInt2Addr => "mul-"@ + "int"@ + "/2addr"@,
        Opcode::DivInt2Addr => "div-"@ + "int"@ + "/2addr"@,
        Opcode::RemInt2Addr => "rem-"@ + "int"@ + "/2addr"@,
        Opcode::AndInt2Addr => "and-"@ + "int"@ + "/2addr"@,
        Opcode::OrInt2Addr => "or-"@ + "int"@ + "/2addr"@,
        Opcode::XorInt2Addr => "xor-"@ + "int"@ + "/2addr"@,
        Opcode::ShlInt2Addr => "shl-"@ + "int"@ + "/2addr"@,
        Opcode::ShrInt2Addr => "shr-"@ + "int"@ + "/2addr"@,
        Opcode::UshrInt2Addr => "ushr-"@ + "int"@ + "/2addr"@,
        Opcode::AddLong2Addr => "add-"@ + "long"@ + "/2addr"@,
        Opcode::SubLong2Addr => "sub-"@ + "long"@ + "/2addr"@,
        Opcode::MulLong2Addr => "mul-"@ + "long"@ + "/2addr"@,
        Opcode::DivLong2Addr => "div-"@ + "long"@ + "/2addr"@,
        Opcode::RemLong2Addr => "rem-"@ + "long"@ + "/2addr"@,
        Opcode::AndLong2Addr => "and-"@ + "long"@ + "/2addr"@,
        Opcode::OrLong2Addr => "or-"@ + "long"@ + "/2addr"@,
        Opcode::XorLong2Addr => "xor-"@ + "long"@ + "/2addr"@,
        Opcode::ShlLong2Addr => "shl-"@ + "long"@ + "/2addr"@,
        Opcode::ShrLong2Addr => "shr-"@ + "long"@ + "/2addr"@,
        Opcode::UshrLong2Addr => "ushr-"@ + "long"@ + "/2addr"@,
        Opcode::AddFloat2Addr => "add-"@ + "float"@ + "/2addr"@,
        Opcode::SubFloat2Addr => "sub-"@ + "float"@ + "/2addr"@,
        Opcode::MulFloat2Addr => "mul-"@ + "float"@ + "/2addr"@,
        Opcode::DivFloat2Addr => "div-"@ + "float"@ + "/2addr"@,
        Opcode::RemFloat2Addr => "rem-"@ + "float"@ + "/2addr"@,
        Opcode::AddDouble2Addr => "add-"@ + "double"@ + "/2addr"@,
        Opcode::SubDouble2Addr => "sub-"@ + "double"@ + "/2addr"@,
        Opcode::MulDouble2Addr => "mul-"@ + "double"@ + "/2addr"@,
        Opcode::DivDouble2Addr => "div-"@ + "double"@ + "/2addr"@,
        Opcode::RemDouble2Addr => "rem-"@ + "double"@ + "/2addr"@,
        Opcode::AddIntLit16 => "add-"@ + "int"@ + "/lit16"@,
        Opcode::RsubInt => "rsub-"@ + "int"@,
        Opcode::MulIntLit16 => "mul-"@ + "int"@ + "/lit16"@,
        Opcode::DivIntLit16 => "div-"@ + "int"@ + "/lit16"@,
        Opcode::RemIntLit16 => "rem-"@ + "int"@ + "/lit16"@,
        Opcode::AndIntLit16 => "and-"@ + "int"@ + "/lit16"@,
        Opcode::OrIntLit16 => "or-"@ + "int"@ + "/lit16"@,
        Opcode::XorIntLit16 => "xor-"@ + "int"@ + "/lit16"@,
        Opcode::AddIntLit8 => "add-"@ + "int"@ + "/lit8"@,
        Opcode::RsubIntLit8 => "rsub-"@ + "int"@ + "/lit8"@,
        Opcode::MulIntLit8 => "mul-"@ + "int"@ + "/lit8"@,
        Opcode::DivIntLit8 => "div-"@ + "int"@ + "/lit8"@,
        Opcode::RemIntLit8 => "rem-"@ + "int"@ + "/lit8"@,
        Opcode::AndIntLit8 => "and-"@ + "int"@ + "/lit8"@,
        Opcode::OrIntLit8 => "or-"@ + "int"@ + "/lit8"@,
        Opcode::XorIntLit8 => "xor-"@ + "int"@ + "/lit8"@,
        Opcode::ShlIntLit8 => "shl-"@ + "int"@ + "/lit8"@,
        Opcode::ShrIntLit8 => "shr-"@ + "int"@ + "/lit8"@,
        Opcode::UshrIntLit8 => "ushr-"@ + "int"@ + "/lit8"@,
        Opcode::InvokePolymorphic => "invoke-"@ + "polymorphic"@,
        Opcode::InvokePolymorphicRange => "invoke-"@ + "polymorphic"@ + "/range"@,
        Opcode::InvokeCustom => "invoke-"@ + "custom"@,
        Opcode::InvokeCustomRange => "invoke-"@ + "custom"@ + "/range"@,
        Opcode::ConstMethodHandle => "const-method-handle"@,
        Opcode::ConstMethodType => "const-method-type"@,
    }
}

proof fn lemma_names_a(op: Opcode)
    requires
        op is MoveFrom16 || op is Move16 || op is MoveWide || op is MoveWideFrom16 || op is MoveWide16 || op is MoveObject || op is MoveObjectFrom16 || op is MoveObject16 || op is MoveResultWide || op is MoveResultObject || op is ReturnWide || op is ReturnObject || op is Const4 || op is Const16 || op is ConstHigh16 || op is ConstWide16 || op is ConstWide32 || op is ConstWideHigh16 || op is ConstStringJumbo || op is FilledNewArrayRange,
    ensures
        op.spelling() == composed_name(op),
{
    match op {
        Opcode::MoveFrom16 => {
            reveal_strlit("move/from16");
            reveal_strlit("/from16");
            reveal_strlit("move");
            assert(op.spelling() =~= composed_name(op));
        },
        Opcode::Move16 => {
            reveal_strlit("move/16");
            reveal_strlit("/16");
            reveal_strlit("move");
            assert(op.spelling() =~= composed_name(op));
        },
        Opcode::MoveWide => {
            reveal_strlit("move-wide");
            reveal_strlit("-wide");
            reveal_strlit("move");
            assert(op.spelling() =~= composed_name(op));
        },
        Opcode::MoveWideFrom16 => {
            reveal_strlit("move-wide/from16");
            reveal_strlit("-wide");
            reveal_strlit("/from16");
            reveal_strlit("move");
            assert(op.spelling() =~= composed_name(op));
        },
        Opcode::MoveWide16 => {
            reveal_strlit("move-wide/16");
            reveal_strlit("-wide");
            reveal_strlit("/16");
            reveal_strlit("move");
            assert(op.spelling() =~= composed_name(op));
        },
        Opcode::MoveObject => {
            reveal_strlit("move-object");
            reveal_strlit("-object");
            reveal_strlit("move");
            assert(op.spelling() =~= composed_name(op));
        },
        Opcode::MoveObjectFrom16 => {
            reveal_strlit("move-object/from16");
            reveal_strlit("-object");
            reveal_strlit("/from16");
            reveal_strlit("move");
            assert(op.spelling() =~= composed_name(op));
        },
        Opcode::MoveObject16 => {
            reveal_strlit("move-object/16");
            reveal_strlit("-object");
            reveal_strlit("/16");
            reveal_strlit("move");
            assert(op.spelling() =~= composed_name(op));
        },
        Opcode::MoveResultWide => {
            reveal_strlit("move-result-wide");
            reveal_strlit("-wide");
            reveal_strlit("move-result");
            assert(op.spelling() =~= composed_name(op));
        },
        Opcode::MoveResultObject => {
            reveal_strlit("move-result-object");
            reveal_strlit("-object");
            reveal_strlit("move-result");
            assert(op.spelling() =~= composed_name(op));
        },
        Opcode::ReturnWide => {
            reveal_strlit("return-wide");
            reveal_strlit("-wide");
            reveal_strlit("return");
            assert(op.spelling() =~= composed_name(op));
        },
        Opcode::ReturnObject => {
            reveal_strlit("return-object");
            reveal_strlit("-object");
            reveal_strlit("return");
            assert(op.spelling() =~= composed_name(op));
        },
        Opcode::Const4 => {
            reveal_strlit("const/4");
            reveal_strlit("/4");
            reveal_strlit("const");
            assert(op.spelling() =~= composed_name(op));
        },
        Opcode::Const16 => {
            reveal_strlit("const/16");
            reveal_strlit("/16");
            reveal_strlit("const");
            assert(op.spelling() =~= composed_name(op));
        },
        Opcode::ConstHigh16 => {
            reveal_strlit("const/high16");
            reveal_strlit("/high16");
            reveal_strlit("const");
            assert(op.spelling() =~= composed_name(op));
        },
        Opcode::ConstWide16 => {
            reveal_strlit("const-wide/16");
            reveal_strlit("/16");
            reveal_strlit("const-wide");
            assert(op.spelling() =~= composed_name(op));
        },
        Opcode::ConstWide32 => {
            reveal_strlit("const-wide/32");
            reveal_strlit("/32");
            reveal_strlit("const-wide");
            assert(op.spelling() =~= composed_name(op));
        },
        Opcode::ConstWideHigh16 => {
            reveal_strlit("const-wide/high16");
            reveal_strlit("/high16");
            reveal_strlit("const-wide");
            assert(op.spelling() =~= composed_name(op));
        },
        Opcode::ConstStringJumbo => {
            reveal_strlit("const-string/jumbo");
            reveal_strlit("/jumbo");
            reveal_strlit("const-string");
            assert(op.spelling() =~= composed_name(op));
        },
        Opcode::FilledNewArrayRange => {
            reveal_strlit("filled-new-array/range");
            reveal_strlit("/range");
            reveal_strlit("filled-new-array");
            assert(op.spelling() =~= composed_name(op));
        },
        _ => {},
    }
}

proof fn lemma_names_b(op: Opcode)
    requires
        op is Goto16 || op is Goto32 || op is CmplFloat || op is CmpgFloat || op is CmplDouble || op is CmpgDouble || op is CmpLong || op is IfEq || op is IfNe || op is IfLt || op is IfGe || op is IfGt || op is IfLe || op is IfEqz || op is IfNez || op is IfLtz || op is IfGez || op is IfGtz || op is IfLez || op is AgetWide,
    ensures
        op.spelling() == composed_name(op),
{
    match op {
        Opcode::Goto16 => {
            reveal_strlit("goto/16");
            reveal_strlit("/16");
            reveal_strlit("goto");
            assert(op.spelling() =~= composed_name(op));
        },
        Opcode::Goto32 => {
            reveal_strlit("goto/32");
            reveal_strlit("/32");
            reveal_strlit("goto");
            assert(op.spelling() =~= composed_name(op));
        },
        Opcode::CmplFloat => {
            reveal_strlit("cmpl-float");
            reveal_strlit("cmpl-");
            reveal_strlit("float");
            assert(op.spelling() =~= composed_name(op));
        },
        Opcode::CmpgFloat => {
            reveal_strlit("cmpg-float");
            reveal_strlit("cmpg-");
            reveal_strlit("float");
            assert(op.spelling() =~= composed_name(op));
        },
        Opcode::CmplDouble => {
            reveal_strlit("cmpl-double");
            reveal_strlit("cmpl-");
            reveal_strlit("double");
            assert(op.spelling() =~= composed_name(op));
        },
        Opcode::CmpgDouble => {
            reveal_strlit("cmpg-double");
            reveal_strlit("cmpg-");
            reveal_strlit("double");
            assert(op.spelling() =~= composed_name(op));
        },
        Opcode::CmpLong => {
            reveal_strlit("cmp-long");
            reveal_strlit("cmp-");
            reveal_strlit("long");
            assert(op.spelling() =~= composed_name(op));
        },
        Opcode::IfEq => {
            reveal_strlit("if-eq");
            reveal_strlit("eq");
            reveal_strlit("if-");
            assert(op.spelling() =~= composed_name(op));
        },
        Opcode::IfNe => {
            reveal_strlit("if-ne");
            reveal_strlit("if-");
            reveal_strlit("ne");
            assert(op.spelling() =~= composed_name(op));
        },
        Opcode::IfLt => {
            reveal_strlit("if-lt");
            reveal_strlit("if-");
            reveal_strlit("lt");
            assert(op.spelling() =~= composed_name(op));
        },
        Opcode::IfGe => {
            reveal_strlit("if-ge");
            reveal_strlit("ge");
            reveal_strlit("if-");
            assert(op.spelling() =~= composed_name(op));
        },
        Opcode::IfGt => {
            reveal_strlit("if-gt");
            reveal_strlit("gt");
            reveal_strlit("if-");
            assert(op.spelling() =~= composed_name(op));
        },
        Opcode::IfLe => {
            reveal_strlit("if-le");
            reveal_strlit("if-");
            reveal_strlit("le");
            assert(op.spelling() =~= composed_name(op));
        },
        Opcode::IfEqz => {
            reveal_strlit("if-eqz");
            reveal_strlit("eq");
            reveal_strlit("if-");
            reveal_strlit("z");
            assert(op.spelling() =~= composed_name(op));
        },
        Opcode::IfNez => {
            reveal_strlit("if-nez");
            reveal_strlit("if-");
            reveal_strlit("ne");
            reveal_strlit("z");
            assert(op.spelling() =~= composed_name(op));
        },
        Opcode::IfLtz => {
            reveal_strlit("if-ltz");
            reveal_strlit("if-");
            reveal_strlit("lt");
            reveal_strlit("z");
            assert(op.spelling() =~= composed_name(op));
        },
        Opcode::IfGez => {
            reveal_strlit("if-gez");
            reveal_strlit("ge");
            reveal_strlit("if-");
            reveal_strlit("z");
            assert(op.spelling() =~= composed_name(op));
        },
        Opcode::IfGtz => {
            reveal_strlit("if-gtz");
            reveal_strlit("gt");
            reveal_strlit("if-");
            reveal_strlit("z");
            assert(op.spelling() =~= composed_name(op));
        },
        Opcode::IfLez => {
            reveal_strlit("if-lez");
            reveal_strlit("if-");
            reveal_strlit("le");
            reveal_strlit("z");
            assert(op.spelling() =~= composed_name(op));
        },
        Opcode::AgetWide => {
            reveal_strlit("aget-wide");
            reveal_strlit("-wide");
            reveal_strlit("aget");
            assert(op.spelling() =~= composed_name(op));
        },
        _ => {},
    }
}

proof fn lemma_names_c(op: Opcode)
    requires
        op is AgetObject || op is AgetBoolean || op is AgetByte || op is AgetChar || op is AgetShort || op is AputWide || op is AputObject || op is AputBoolean || op is AputByte || op is AputChar || op is AputShort || op is IgetWide || op is IgetObject || op is IgetBoolean || op is IgetByte || op is IgetChar || op is IgetShort || op is IputWide || op is IputObject || op is IputBoolean,
    ensures
        op.spelling() == composed_name(op),
{
    match op {
        Opcode::AgetObject => {
            reveal_strlit("aget-object");
            reveal_strlit("-object");
            reveal_strlit("aget");
            assert(op.spelling() =~= composed_name(op));
        },
        Opcode::AgetBoolean => {
            reveal_strlit("aget-boolean");
            reveal_strlit("-boolean");
            reveal_strlit("aget");
            assert(op.spelling() =~= composed_name(op));
        },
        Opcode::AgetByte => {
            reveal_strlit("aget-byte");
            reveal_strlit("-byte");
            reveal_strlit("aget");
            assert(op.spelling() =~= composed_name(op));
        },
        Opcode::AgetChar => {
            reveal_strlit("aget-char");
            reveal_strlit("-char");
            reveal_strlit("aget");
            assert(op.spelling() =~= composed_name(op));
        },
        Opcode::AgetShort => {
            reveal_strlit("aget-short");
            reveal_strlit("-short");
            reveal_strlit("aget");
            assert(op.spelling() =~= composed_name(op));
        },
        Opcode::AputWide => {
            reveal_strlit("aput-wide");
            reveal_strlit("-wide");
            reveal_strlit("aput");
            assert(op.spelling() =~= composed_name(op));
        },
        Opcode::AputObject => {
            reveal_strlit("aput-object");
            reveal_strlit("-object");
            reveal_strlit("aput");
            assert(op.spelling() =~= composed_name(op));
        },
        Opcode::AputBoolean => {
            reveal_strlit("aput-boolean");
            reveal_strlit("-boolean");
            reveal_strlit("aput");
            assert(op.spelling() =~= composed_name(op));
        },
        Opcode::AputByte => {
            reveal_strlit("aput-byte");
            reveal_strlit("-byte");
            reveal_strlit("aput");
            assert(op.spelling() =~= composed_name(op));
        },
        Opcode::AputChar => {
            reveal_strlit("aput-char");
            reveal_strlit("-char");
            reveal_strlit("aput");
            assert(op.spelling() =~= composed_name(op));
        },
        Opcode::AputShort => {
            reveal_strlit("aput-short");
            reveal_strlit("-short");
            reveal_strlit("aput");
            assert(op.spelling() =~= composed_name(op));
        },
        Opcode::IgetWide => {
            reveal_strlit("iget-wide");
            reveal_strlit("-wide");
            reveal_strlit("iget");
            assert(op.spelling() =~= composed_name(op));
        },
        Opcode::IgetObject => {
            reveal_strlit("iget-object");
            reveal_strlit("-object");
            reveal_strlit("iget");
            assert(op.spelling() =~= composed_name(op));
        },
        Opcode::IgetBoolean => {
            reveal_strlit("iget-boolean");
            reveal_strlit("-boolean");
            reveal_strlit("iget");
            assert(op.spelling() =~= composed_name(op));
        },
        Opcode::IgetByte => {
            reveal_strlit("iget-byte");
            reveal_strlit("-byte");
            reveal_strlit("iget");
            assert(op.spelling() =~= composed_name(op));
        },
        Opcode::IgetChar => {
            reveal_strlit("iget-char");
            reveal_strlit("-char");
            reveal_strlit("iget");
            assert(op.spelling() =~= composed_name(op));
        },
        Opcode::IgetShort => {
            reveal_strlit("iget-short");
            reveal_strlit("-short");
            reveal_strlit("iget");
            assert(op.spelling() =~= composed_name(op));
        },
        Opcode::IputWide => {
            reveal_strlit("iput-wide");
            reveal_strlit("-wide");
            reveal_strlit("iput");
            assert(op.spelling() =~= composed_name(op));
        },
        Opcode::IputObject => {
            reveal_strlit("iput-object");
            reveal_strlit("-object");
            reveal_strlit("iput");
            assert(op.spelling() =~= composed_name(op));
        },
        Opcode::IputBoolean => {
            reveal_strlit("iput-boolean");
            reveal_strlit("-boolean");
            reveal_strlit("iput");
            assert(op.spelling() =~= composed_name(op));
        },
        _ => {},
    }
}

proof fn lemma_names_d(op: Opcode)
    requires
        op is IputByte || op is IputChar || op is IputShort || op is SgetWide || op is SgetObject || op is SgetBoolean || op is SgetByte || op is SgetChar || op is SgetShort || op is SputWide || op is SputObject || op is SputBoolean || op is SputByte || op is SputChar || op is SputShort || op is InvokeVirtual || op is InvokeSuper || op is InvokeDirect || op is InvokeStatic || op is InvokeInterface,
    ensures
        op.spelling() == composed_name(op),
{
    match op {
        Opcode::IputByte => {
            reveal_strlit("iput-byte");
            reveal_strlit("-byte");
            reveal_strlit("iput");
            assert(op.spelling() =~= composed_name(op));
        },
        Opcode::IputChar => {
            reveal_strlit("iput-char");
            reveal_strlit("-char");
            reveal_strlit("iput");
            assert(op.spelling() =~= composed_name(op));
        },
        Opcode::IputShort => {
            reveal_strlit("iput-short");
            reveal_strlit("-short");
            reveal_strlit("iput");
            assert(op.spelling() =~= composed_name(op));
        },
        Opcode::SgetWide => {
            reveal_strlit("sget-wide");
            reveal_strlit("-wide");
            reveal_strlit("sget");
            assert(op.spelling() =~= composed_name(op));
        },
        Opcode::SgetObject => {
            reveal_strlit("sget-object");
            reveal_strlit("-object");
            reveal_strlit("sget");
            assert(op.spelling() =~= composed_name(op));
        },
        Opcode::SgetBoolean => {
            reveal_strlit("sget-boolean");
            reveal_strlit("-boolean");
            reveal_strlit("sget");
            assert(op.spelling() =~= composed_name(op));
        },
        Opcode::SgetByte => {
            reveal_strlit("sget-byte");
            reveal_strlit("-byte");
            reveal_strlit("sget");
            assert(op.spelling() =~= composed_name(op));
        },
        Opcode::SgetChar => {
            reveal_strlit("sget-char");
            reveal_strlit("-char");
            reveal_strlit("sget");
            assert(op.spelling() =~= composed_name(op));
        },
        Opcode::SgetShort => {
            reveal_strlit("sget-short");
            reveal_strlit("-short");
            reveal_strlit("sget");
            assert(op.spelling() =~= composed_name(op));
        },
        Opcode::SputWide => {
            reveal_strlit("sput-wide");
            reveal_strlit("-wide");
            reveal_strlit("sput");
            assert(op.spelling() =~= composed_name(op));
        },
        Opcode::SputObject => {
            reveal_strlit("sput-object");
            reveal_strlit("-object");
            reveal_strlit("sput");
            assert(op.spelling() =~= composed_name(op));
        },
        Opcode::SputBoolean => {
            reveal_strlit("sput-boolean");
            reveal_strlit("-boolean");
            reveal_strlit("sput");
            assert(op.spelling() =~= composed_name(op));
        },
        Opcode::SputByte => {
            reveal_strlit("sput-byte");
            reveal_strlit("-byte");
            reveal_strlit("sput");
            assert(op.spelling() =~= composed_name(op));
        },
        Opcode::SputChar => {
            reveal_strlit("sput-char");
            reveal_strlit("-char");
            reveal_strlit("sput");
            assert(op.spelling() =~= composed_name(op));
        },
        Opcode::SputShort => {
            reveal_strlit("sput-short");
            reveal_strlit("-short");
            reveal_strlit("sput");
            assert(op.spelling() =~= composed_name(op));
        },
        Opcode::InvokeVirtual => {
            reveal_strlit("invoke-virtual");
            reveal_strlit("invoke-");
            reveal_strlit("virtual");
            assert(op.spelling() =~= composed_name(op));
        },
        Opcode::InvokeSuper => {
            reveal_strlit("invoke-super");
            reveal_strlit("invoke-");
            reveal_strlit("super");
            assert(op.spelling() =~= composed_name(op));
        },
        Opcode::InvokeDirect => {
            reveal_strlit("invoke-direct");
            reveal_strlit("direct");
            reveal_strlit("invoke-");
            assert(op.spelling() =~= composed_name(op));
        },
        Opcode::InvokeStatic => {
            reveal_strlit("invoke-static");
            reveal_strlit("invoke-");
            reveal_strlit("static");
            assert(op.spelling() =~= composed_name(op));
        },
        Opcode::InvokeInterface => {
            reveal_strlit("invoke-interface");
            reveal_strlit("interface");
            reveal_strlit("invoke-");
            assert(op.spelling() =~= composed_name(op));
        },
        _ => {},
    }
}

proof fn lemma_names_e(op: Opcode)
    requires
        op is InvokeVirtualRange || op is InvokeSuperRange || op is InvokeDirectRange || op is InvokeStaticRange || op is InvokeInterfaceRange || op is NegInt || op is NotInt || op is NegLong || op is NotLong || op is NegFloat || op is NegDouble || op is IntToLong || op is IntToFloat || op is IntToDouble || op is LongToInt || op is LongToFloat || op is LongToDouble || op is FloatToInt || op is FloatToLong || op is FloatToDouble,
    ensures
        op.spelling() == composed_name(op),
{
    match op {
        Opcode::InvokeVirtualRange => {
            reveal_strlit("invoke-virtual/range");
            reveal_strlit("/range");
            reveal_strlit("invoke-");
            reveal_strlit("virtual");
            assert(op.spelling() =~= composed_name(op));
        },
        Opcode::InvokeSuperRange => {
            reveal_strlit("invoke-super/range");
            reveal_strlit("/range");
            reveal_strlit("invoke-");
            reveal_strlit("super");
            assert(op.spelling() =~= composed_name(op));
        },
        Opcode::InvokeDirectRange => {
            reveal_strlit("invoke-direct/range");
            reveal_strlit("/range");
            reveal_strlit("direct");
            reveal_strlit("invoke-");
            assert(op.spelling() =~= composed_name(op));
        },
        Opcode::InvokeStaticRange => {
            reveal_strlit("invoke-static/range");
            reveal_strlit("/range");
            reveal_strlit("invoke-");
            reveal_strlit("static");
            assert(op.spelling() =~= composed_name(op));
        },
        Opcode::InvokeInterfaceRange => {
            reveal_strlit("invoke-interface/range");
            reveal_strlit("/range");
            reveal_strlit("interface");
            reveal_strlit("invoke-");
            assert(op.spelling() =~= composed_name(op));
        },
        Opcode::NegInt => {
            reveal_strlit("neg-int");
            reveal_strlit("int");
            reveal_strlit("neg-");
            assert(op.spelling() =~= composed_name(op));
        },
        Opcode::NotInt => {
            reveal_strlit("not-int");
            reveal_strlit("int");
            reveal_strlit("not-");
            assert(op.spelling() =~= composed_name(op));
        },
        Opcode::NegLong => {
            reveal_strlit("neg-long");
            reveal_strlit("long");
            reveal_strlit("neg-");
            assert(op.spelling() =~= composed_name(op));
        },
        Opcode::NotLong => {
            reveal_strlit("not-long");
            reveal_strlit("long");
            reveal_strlit("not-");
            assert(op.spelling() =~= composed_name(op));
        },
        Opcode::NegFloat => {
            reveal_strlit("neg-float");
            reveal_strlit("float");
            reveal_strlit("neg-");
            assert(op.spelling() =~= composed_name(op));
        },
        Opcode::NegDouble => {
            reveal_strlit("neg-double");
            reveal_strlit("double");
            reveal_strlit("neg-");
            assert(op.spelling() =~= composed_name(op));
        },
        Opcode::IntToLong => {
            reveal_strlit("int-to-long");
            reveal_strlit("-to-");
            reveal_strlit("int");
            reveal_strlit("long");
            assert(op.spelling() =~= composed_name(op));
        },
        Opcode::IntToFloat => {
            reveal_strlit("int-to-float");
            reveal_strlit("-to-");
            reveal_strlit("float");
            reveal_strlit("int");
            assert(op.spelling() =~= composed_name(op));
        },
        Opcode::IntToDouble => {
            reveal_strlit("int-to-double");
            reveal_strlit("-to-");
            reveal_strlit("double");
            reveal_strlit("int");
            assert(op.spelling() =~= composed_name(op));
        },
        Opcode::LongToInt => {
            reveal_strlit("long-to-int");
            reveal_strlit("-to-");
            reveal_strlit("int");
            reveal_strlit("long");
            assert(op.spelling() =~= composed_name(op));
        },
        Opcode::LongToFloat => {
            reveal_strlit("long-to-float");
            reveal_strlit("-to-");
            reveal_strlit("float");
            reveal_strlit("long");
            assert(op.spelling() =~= composed_name(op));
        },
        Opcode::LongToDouble => {
            reveal_strlit("long-to-double");
            reveal_strlit("-to-");
            reveal_strlit("double");
            reveal_strlit("long");
            assert(op.spelling() =~= composed_name(op));
        },
        Opcode::FloatToInt => {
            reveal_strlit("float-to-int");
            reveal_strlit("-to-");
            reveal_strlit("float");
            reveal_strlit("int");
            assert(op.spelling() =~= composed_name(op));
        },
        Opcode::FloatToLong => {
            reveal_strlit("float-to-long");
            reveal_strlit("-to-");
            reveal_strlit("float");
            reveal_strlit("long");
            assert(op.spelling() =~= composed_name(op));
        },
        Opcode::FloatToDouble => {
            reveal_strlit("float-to-double");
            reveal_strlit("-to-");
            reveal_strlit("double");
            reveal_strlit("float");
            assert(op.spelling() =~= composed_name(op));
        },
        _ => {},
    }
}

proof fn lemma_names_f(op: Opcode)
    requires
        op is DoubleToInt || op is DoubleToLong || op is DoubleToFloat || op is IntToByte || op is IntToChar || op is IntToShort || op is AddInt || op is SubInt || op is MulInt || op is DivInt || op is RemInt || op is AndInt || op is OrInt || op is XorInt || op is ShlInt || op is ShrInt || op is UshrInt || op is AddLong || op is SubLong || op is MulLong,
    ensures
        op.spelling() == composed_name(op),
{
    match op {
        Opcode::DoubleToInt => {
            reveal_strlit("double-to-int");
            reveal_strlit("-to-");
            reveal_strlit("double");
            reveal_strlit("int");
            assert(op.spelling() =~= composed_name(op));
        },
        Opcode::DoubleToLong => {
            reveal_strlit("double-to-long");
            reveal_strlit("-to-");
            reveal_strlit("double");
            reveal_strlit("long");
            assert(op.spelling() =~= composed_name(op));
        },
        Opcode::DoubleToFloat => {
            reveal_strlit("double-to-float");
            reveal_strlit("-to-");
            reveal_strlit("double");
            reveal_strlit("float");
            assert(op.spelling() =~= composed_name(op));
        },
        Opcode::IntToByte => {
            reveal_strlit("int-to-byte");
            reveal_strlit("-to-");
            reveal_strlit("byte");
            reveal_strlit("int");
            assert(op.spelling() =~= composed_name(op));
        },
        Opcode::IntToChar => {
            reveal_strlit("int-to-char");
            reveal_strlit("-to-");
            reveal_strlit("char");
            reveal_strlit("int");
            assert(op.spelling() =~= composed_name(op));
        },
        Opcode::IntToShort => {
            reveal_strlit("int-to-short");
            reveal_strlit("-to-");
            reveal_strlit("int");
            reveal_strlit("short");
            assert(op.spelling() =~= composed_name(op));
        },
        Opcode::AddInt => {
            reveal_strlit("add-int");
            reveal_strlit("add-");
            reveal_strlit("int");
            assert(op.spelling() =~= composed_name(op));
        },
        Opcode::SubInt => {
            reveal_strlit("sub-int");
            reveal_strlit("int");
            reveal_strlit("sub-");
            assert(op.spelling() =~= composed_name(op));
        },
        Opcode::MulInt => {
            reveal_strlit("mul-int");
            reveal_strlit("int");
            reveal_strlit("mul-");
            assert(op.spelling() =~= composed_name(op));
        },
        Opcode::DivInt => {
            reveal_strlit("div-int");
            reveal_strlit("div-");
            reveal_strlit("int");
            assert(op.spelling() =~= composed_name(op));
        },
        Opcode::RemInt => {
            reveal_strlit("rem-int");
            reveal_strlit("int");
            reveal_strlit("rem-");
            assert(op.spelling() =~= composed_name(op));
        },
        Opcode::AndInt => {
            reveal_strlit("and-int");
            reveal_strlit("and-");
            reveal_strlit("int");
            assert(op.spelling() =~= composed_name(op));
        },
        Opcode::OrInt => {
            reveal_strlit("or-int");
            reveal_strlit("int");
            reveal_strlit("or-");
            assert(op.spelling() =~= composed_name(op));
        },
        Opcode::XorInt => {
            reveal_strlit("xor-int");
            reveal_strlit("int");
            reveal_strlit("xor-");
            assert(op.spelling() =~= composed_name(op));
        },
        Opcode::ShlInt => {
            reveal_strlit("shl-int");
            reveal_strlit("int");
            reveal_strlit("shl-");
            assert(op.spelling() =~= composed_name(op));
        },
        Opcode::ShrInt => {
            reveal_strlit("shr-int");
            reveal_strlit("int");
            reveal_strlit("shr-");
            assert(op.spelling() =~= composed_name(op));
        },
        Opcode::UshrInt => {
            reveal_strlit("ushr-int");
            reveal_strlit("int");
            reveal_strlit("ushr-");
            assert(op.spelling() =~= composed_name(op));
        },
        Opcode::AddLong => {
            reveal_strlit("add-long");
            reveal_strlit("add-");
            reveal_strlit("long");
            assert(op.spelling() =~= composed_name(op));
        },
        Opcode::SubLong => {
            reveal_strlit("sub-long");
            reveal_strlit("long");
            reveal_strlit("sub-");
            assert(op.spelling() =~= composed_name(op));
        },
        Opcode::MulLong => {
            reveal_strlit("mul-long");
            reveal_strlit("long");
            reveal_strlit("mul-");
            assert(op.spelling() =~= composed_name(op));
        },
        _ => {},
    }
}

proof fn lemma_names_g(op: Opcode)
    requires
        op is DivLong || op is RemLong || op is AndLong || op is OrLong || op is XorLong || op is ShlLong || op is ShrLong || op is UshrLong || op is AddFloat || op is SubFloat || op is MulFloat || op is DivFloat || op is RemFloat || op is AddDouble || op is SubDouble || op is MulDouble || op is DivDouble || op is RemDouble || op is AddInt2Addr || op is SubInt2Addr,
    ensures
        op.spelling() == composed_name(op),
{
    match op {
        Opcode::DivLong => {
            reveal_strlit("div-long");
            reveal_strlit("div-");
            reveal_strlit("long");
            assert(op.spelling() =~= composed_name(op));
        },
        Opcode::RemLong => {
            reveal_strlit("rem-long");
            reveal_strlit("long");
            reveal_strlit("rem-");
            assert(op.spelling() =~= composed_name(op));
        },
        Opcode::AndLong => {
            reveal_strlit("and-long");
            reveal_strlit("and-");
            reveal_strlit("long");
            assert(op.spelling() =~= composed_name(op));
        },
        Opcode::OrLong => {
            reveal_strlit("or-long");
            reveal_strlit("long");
            reveal_strlit("or-");
            assert(op.spelling() =~= composed_name(op));
        },
        Opcode::XorLong => {
            reveal_strlit("xor-long");
            reveal_strlit("long");
            reveal_strlit("xor-");
            assert(op.spelling() =~= composed_name(op));
        },
        Opcode::ShlLong => {
            reveal_strlit("shl-long");
            reveal_strlit("long");
            reveal_strlit("shl-");
            assert(op.spelling() =~= composed_name(op));
        },
        Opcode::ShrLong => {
            reveal_strlit("shr-long");
            reveal_strlit("long");
            reveal_strlit("shr-");
            assert(op.spelling() =~= composed_name(op));
        },
        Opcode::UshrLong => {
            reveal_strlit("ushr-long");
            reveal_strlit("long");
            reveal_strlit("ushr-");
            assert(op.spelling() =~= composed_name(op));
        },
        Opcode::AddFloat => {
            reveal_strlit("add-float");
            reveal_strlit("add-");
            reveal_strlit("float");
            assert(op.spelling() =~= composed_name(op));
        },
        Opcode::SubFloat => {
            reveal_strlit("sub-float");
            reveal_strlit("float");
            reveal_strlit("sub-");
            assert(op.spelling() =~= composed_name(op));
        },
        Opcode::MulFloat => {
            reveal_strlit("mul-float");
            reveal_strlit("float");
            reveal_strlit("mul-");
            assert(op.spelling() =~= composed_name(op));
        },
        Opcode::DivFloat => {
            reveal_strlit("div-float");
            reveal_strlit("div-");
            reveal_strlit("float");
            assert(op.spelling() =~= composed_name(op));
        },
        Opcode::RemFloat => {
            reveal_strlit("rem-float");
            reveal_strlit("float");
            reveal_strlit("rem-");
            assert(op.spelling() =~= composed_name(op));
        },
        Opcode::AddDouble => {
            reveal_strlit("add-double");
            reveal_strlit("add-");
            reveal_strlit("double");
            assert(op.spelling() =~= composed_name(op));
        },
        Opcode::SubDouble => {
            reveal_strlit("sub-double");
            reveal_strlit("double");
            reveal_strlit("sub-");
            assert(op.spelling() =~= composed_name(op));
        },
        Opcode::MulDouble => {
            reveal_strlit("mul-double");
            reveal_strlit("double");
            reveal_strlit("mul-");
            assert(op.spelling() =~= composed_name(op));
        },
        Opcode::DivDouble => {
            reveal_strlit("div-double");
            reveal_strlit("div-");
            reveal_strlit("double");
            assert(op.spelling() =~= composed_name(op));
        },
        Opcode::RemDouble => {
            reveal_strlit("rem-double");
            reveal_strlit("double");
            reveal_strlit("rem-");
            assert(op.spelling() =~= composed_name(op));
        },
        Opcode::AddInt2Addr => {
            reveal_strlit("add-int/2addr");
            reveal_strlit("/2addr");
            reveal_strlit("add-");
            reveal_strlit("int");
            assert(op.spelling() =~= composed_name(op));
        },
        Opcode::SubInt2Addr => {
            reveal_strlit("sub-int/2addr");
            reveal_strlit("/2addr");
            reveal_strlit("int");
            reveal_strlit("sub-");
            assert(op.spelling() =~= composed_name(op));
        },
        _ => {},
    }
}

proof fn lemma_names_h(op: Opcode)
    requires
        op is MulInt2Addr || op is DivInt2Addr || op is RemInt2Addr || op is AndInt2Addr || op is OrInt2Addr || op is XorInt2Addr || op is ShlInt2Addr || op is ShrInt2Addr || op is UshrInt2Addr || op is AddLong2Addr || op is SubLong2Addr || op is MulLong2Addr || op is DivLong2Addr || op is RemLong2Addr || op is AndLong2Addr || op is OrLong2Addr || op is XorLong2Addr || op is ShlLong2Addr || op is ShrLong2Addr || op is UshrLong2Addr,
    ensures
        op.spelling() == composed_name(op),
{
    match op {
        Opcode::MulInt2Addr => {
            reveal_strlit("mul-int/2addr");
            reveal_strlit("/2addr");
            reveal_strlit("int");
            reveal_strlit("mul-");
            assert(op.spelling() =~= composed_name(op));
        },
        Opcode::DivInt2Addr => {
            reveal_strlit("div-int/2addr");
            reveal_strlit("/2addr");
            reveal_strlit("div-");
            reveal_strlit("int");
            assert(op.spelling() =~= composed_name(op));
        },
        Opcode::RemInt2Addr => {
            reveal_strlit("rem-int/2addr");
            reveal_strlit("/2addr");
            reveal_strlit("int");
            reveal_strlit("rem-");
            assert(op.spelling() =~= composed_name(op));
        },
        Opcode::AndInt2Addr => {
            reveal_strlit("and-int/2addr");
            reveal_strlit("/2addr");
            reveal_strlit("and-");
            reveal_strlit("int");
            assert(op.spelling() =~= composed_name(op));
        },
        Opcode::OrInt2Addr => {
            reveal_strlit("or-int/2addr");
            reveal_strlit("/2addr");
            reveal_strlit("int");
            reveal_strlit("or-");
            assert(op.spelling() =~= composed_name(op));
        },
        Opcode::XorInt2Addr => {
            reveal_strlit("xor-int/2addr");
            reveal_strlit("/2addr");
            reveal_strlit("int");
            reveal_strlit("xor-");
            assert(op.spelling() =~= composed_name(op));
        },
        Opcode::ShlInt2Addr => {
            reveal_strlit("shl-int/2addr");
            reveal_strlit("/2addr");
            reveal_strlit("int");
            reveal_strlit("shl-");
            assert(op.spelling() =~= composed_name(op));
        },
        Opcode::ShrInt2Addr => {
            reveal_strlit("shr-int/2addr");
            reveal_strlit("/2addr");
            reveal_strlit("int");
            reveal_strlit("shr-");
            assert(op.spelling() =~= composed_name(op));
        },
        Opcode::UshrInt2Addr => {
            reveal_strlit("ushr-int/2addr");
            reveal_strlit("/2addr");
            reveal_strlit("int");
            reveal_strlit("ushr-");
            assert(op.spelling() =~= composed_name(op));
        },
        Opcode::AddLong2Addr => {
            reveal_strlit("add-long/2addr");
            reveal_strlit("/2addr");
            reveal_strlit("add-");
            reveal_strlit("long");
            assert(op.spelling() =~= composed_name(op));
        },
        Opcode::SubLong2Addr => {
            reveal_strlit("sub-long/2addr");
            reveal_strlit("/2addr");
            reveal_strlit("long");
            reveal_strlit("sub-");
            assert(op.spelling() =~= composed_name(op));
        },
        Opcode::MulLong2Addr => {
            reveal_strlit("mul-long/2addr");
            reveal_strlit("/2addr");
            reveal_strlit("long");
            reveal_strlit("mul-");
            assert(op.spelling() =~= composed_name(op));
        },
        Opcode::DivLong2Addr => {
            reveal_strlit("div-long/2addr");
            reveal_strlit("/2addr");
            reveal_strlit("div-");
            reveal_strlit("long");
            assert(op.spelling() =~= composed_name(op));
        },
        Opcode::RemLong2Addr => {
            reveal_strlit("rem-long/2addr");
            reveal_strlit("/2addr");
            reveal_strlit("long");
            reveal_strlit("rem-");
            assert(op.spelling() =~= composed_name(op));
        },
        Opcode::AndLong2Addr => {
            reveal_strlit("and-long/2addr");
            reveal_strlit("/2addr");
            reveal_strlit("and-");
            reveal_strlit("long");
            assert(op.spelling() =~= composed_name(op));
        },
        Opcode::OrLong2Addr => {
            reveal_strlit("or-long/2addr");
            reveal_strlit("/2addr");
            reveal_strlit("long");
            reveal_strlit("or-");
            assert(op.spelling() =~= composed_name(op));
        },
        Opcode::XorLong2Addr => {
            reveal_strlit("xor-long/2addr");
            reveal_strlit("/2addr");
            reveal_strlit("long");
            reveal_strlit("xor-");
            assert(op.spelling() =~= composed_name(op));
        },
        Opcode::ShlLong2Addr => {
            reveal_strlit("shl-long/2addr");
            reveal_strlit("/2addr");
            reveal_strlit("long");
            reveal_strlit("shl-");
            assert(op.spelling() =~= composed_name(op));
        },
        Opcode::ShrLong2Addr => {
            reveal_strlit("shr-long/2addr");
            reveal_strlit("/2addr");
            reveal_strlit("long");
            reveal_strlit("shr-");
            assert(op.spelling() =~= composed_name(op));
        },
        Opcode::UshrLong2Addr => {
            reveal_strlit("ushr-long/2addr");
            reveal_strlit("/2addr");
            reveal_strlit("long");
            reveal_strlit("ushr-");
            assert(op.spelling() =~= composed_name(op));
        },
        _ => {},
    }
}

proof fn lemma_names_i(op: Opcode)
    requires
        op is AddFloat2Addr || op is SubFloat2Addr || op is MulFloat2Addr || op is DivFloat2Addr || op is RemFloat2Addr || op is AddDouble2Addr || op is SubDouble2Addr || op is MulDouble2Addr || op is DivDouble2Addr || op is RemDouble2Addr || op is AddIntLit16 || op is RsubInt || op is MulIntLit16 || op is DivIntLit16 || op is RemIntLit16 || op is AndIntLit16 || op is OrIntLit16 || op is XorIntLit16 || op is AddIntLit8 || op is RsubIntLit8,
    ensures
        op.spelling() == composed_name(op),
{
    match op {
        Opcode::AddFloat2Addr => {
            reveal_strlit("add-float/2addr");
            reveal_strlit("/2addr");
            reveal_strlit("add-");
            reveal_strlit("float");
            assert(op.spelling() =~= composed_name(op));
        },
        Opcode::SubFloat2Addr => {
            reveal_strlit("sub-float/2addr");
            reveal_strlit("/2addr");
            reveal_strlit("float");
            reveal_strlit("sub-");
            assert(op.spelling() =~= composed_name(op));
        },
        Opcode::MulFloat2Addr => {
            reveal_strlit("mul-float/2addr");
            reveal_strlit("/2addr");
            reveal_strlit("float");
            reveal_strlit("mul-");
            assert(op.spelling() =~= composed_name(op));
        },
        Opcode::DivFloat2Addr => {
            reveal_strlit("div-float/2addr");
            reveal_strlit("/2addr");
            reveal_strlit("div-");
            reveal_strlit("float");
            assert(op.spelling() =~= composed_name(op));
        },
        Opcode::RemFloat2Addr => {
            reveal_strlit("rem-float/2addr");
            reveal_strlit("/2addr");
            reveal_strlit("float");
            reveal_strlit("rem-");
            assert(op.spelling() =~= composed_name(op));
        },
        Opcode::AddDouble2Addr => {
            reveal_strlit("add-double/2addr");
            reveal_strlit("/2addr");
            reveal_strlit("add-");
            reveal_strlit("double");
            assert(op.spelling() =~= composed_name(op));
        },
        Opcode::SubDouble2Addr => {
            reveal_strlit("sub-double/2addr");
            reveal_strlit("/2addr");
            reveal_strlit("double");
            reveal_strlit("sub-");
            assert(op.spelling() =~= composed_name(op));
        },
        Opcode::MulDouble2Addr => {
            reveal_strlit("mul-double/2addr");
            reveal_strlit("/2addr");
            reveal_strlit("double");
            reveal_strlit("mul-");
            assert(op.spelling() =~= composed_name(op));
        },
        Opcode::DivDouble2Addr => {
            reveal_strlit("div-double/2addr");
            reveal_strlit("/2addr");
            reveal_strlit("div-");
            reveal_strlit("double");
            assert(op.spelling() =~= composed_name(op));
        },
        Opcode::RemDouble2Addr => {
            reveal_strlit("rem-double/2addr");
            reveal_strlit("/2addr");
            reveal_strlit("double");
            reveal_strlit("rem-");
            assert(op.spelling() =~= composed_name(op));
        },
        Opcode::AddIntLit16 => {
            reveal_strlit("add-int/lit16");
            reveal_strlit("/lit16");
            reveal_strlit("add-");
            reveal_strlit("int");
            assert(op.spelling() =~= composed_name(op));
        },
        Opcode::RsubInt => {
            reveal_strlit("rsub-int");
            reveal_strlit("int");
            reveal_strlit("rsub-");
            assert(op.spelling() =~= composed_name(op));
        },
        Opcode::MulIntLit16 => {
            reveal_strlit("mul-int/lit16");
            reveal_strlit("/lit16");
            reveal_strlit("int");
            reveal_strlit("mul-");
            assert(op.spelling() =~= composed_name(op));
        },
        Opcode::DivIntLit16 => {
            reveal_strlit("div-int/lit16");
            reveal_strlit("/lit16");
            reveal_strlit("div-");
            reveal_strlit("int");
            assert(op.spelling() =~= composed_name(op));
        },
        Opcode::RemIntLit16 => {
            reveal_strlit("rem-int/lit16");
            reveal_strlit("/lit16");
            reveal_strlit("int");
            reveal_strlit("rem-");
            assert(op.spelling() =~= composed_name(op));
        },
        Opcode::AndIntLit16 => {
            reveal_strlit("and-int/lit16");
            reveal_strlit("/lit16");
            reveal_strlit("and-");
            reveal_strlit("int");
            assert(op.spelling() =~= composed_name(op));
        },
        Opcode::OrIntLit16 => {
            reveal_strlit("or-int/lit16");
            reveal_strlit("/lit16");
            reveal_strlit("int");
            reveal_strlit("or-");
            assert(op.spelling() =~= composed_name(op));
        },
        Opcode::XorIntLit16 => {
            reveal_strlit("xor-int/lit16");
            reveal_strlit("/lit16");
            reveal_strlit("int");
            reveal_strlit("xor-");
            assert(op.spelling() =~= composed_name(op));
        },
        Opcode::AddIntLit8 => {
            reveal_strlit("add-int/lit8");
            reveal_strlit("/lit8");
            reveal_strlit("add-");
            reveal_strlit("int");
            assert(op.spelling() =~= composed_name(op));
        },
        Opcode::RsubIntLit8 => {
            reveal_strlit("rsub-int/lit8");
            reveal_strlit("/lit8");
            reveal_strlit("int");
            reveal_strlit("rsub-");
            assert(op.spelling() =~= composed_name(op));
        },
        _ => {},
    }
}

proof fn lemma_names_j(op: Opcode)
    requires
        op is MulIntLit8 || op is DivIntLit8 || op is RemIntLit8 || op is AndIntLit8 || op is OrIntLit8 || op is XorIntLit8 || op is ShlIntLit8 || op is ShrIntLit8 || op is UshrIntLit8 || op is InvokePolymorphic || op is InvokePolymorphicRange || op is InvokeCustom || op is InvokeCustomRange,
    ensures
        op.spelling() == composed_name(op),
{
    match op {
        Opcode::MulIntLit8 => {
            reveal_strlit("mul-int/lit8");
            reveal_strlit("/lit8");
            reveal_strlit("int");
            reveal_strlit("mul-");
            assert(op.spelling() =~= composed_name(op));
        },
        Opcode::DivIntLit8 => {
            reveal_strlit("div-int/lit8");
            reveal_strlit("/lit8");
            reveal_strlit("div-");
            reveal_strlit("int");
            assert(op.spelling() =~= composed_name(op));
        },
        Opcode::RemIntLit8 => {
            reveal_strlit("rem-int/lit8");
            reveal_strlit("/lit8");
            reveal_strlit("int");
            reveal_strlit("rem-");
            assert(op.spelling() =~= composed_name(op));
        },
        Opcode::AndIntLit8 => {
            reveal_strlit("and-int/lit8");
            reveal_strlit("/lit8");
            reveal_strlit("and-");
            reveal_strlit("int");
            assert(op.spelling() =~= composed_name(op));
        },
        Opcode::OrIntLit8 => {
            reveal_strlit("or-int/lit8");
            reveal_strlit("/lit8");
            reveal_strlit("int");
            reveal_strlit("or-");
            assert(op.spelling() =~= composed_name(op));
        },
        Opcode::XorIntLit8 => {
            reveal_strlit("xor-int/lit8");
            reveal_strlit("/lit8");
            reveal_strlit("int");
            reveal_strlit("xor-");
            assert(op.spelling() =~= composed_name(op));
        },
        Opcode::ShlIntLit8 => {
            reveal_strlit("shl-int/lit8");
            reveal_strlit("/lit8");
            reveal_strlit("int");
            reveal_strlit("shl-");
            assert(op.spelling() =~= composed_name(op));
        },
        Opcode::ShrIntLit8 => {
            reveal_strlit("shr-int/lit8");
            reveal_strlit("/lit8");
            reveal_strlit("int");
            reveal_strlit("shr-");
            assert(op.spelling() =~= composed_name(op));
        },
        Opcode::UshrIntLit8 => {
            reveal_strlit("ushr-int/lit8");
            reveal_strlit("/lit8");
            reveal_strlit("int");
            reveal_strlit("ushr-");
            assert(op.spelling() =~= composed_name(op));
        },
        Opcode::InvokePolymorphic => {
            reveal_strlit("invoke-polymorphic");
            reveal_strlit("invoke-");
            reveal_strlit("polymorphic");
            assert(op.spelling() =~= composed_name(op));
        },
        Opcode::InvokePolymorphicRange => {
            reveal_strlit("invoke-polymorphic/range");
            reveal_strlit("/range");
            reveal_strlit("invoke-");
            reveal_strlit("polymorphic");
            assert(op.spelling() =~= composed_name(op));
        },
        Opcode::InvokeCustom => {
            reveal_strlit("invoke-custom");
            reveal_strlit("custom");
            reveal_strlit("invoke-");
            assert(op.spelling() =~= composed_name(op));
        },
        Opcode::InvokeCustomRange => {
            reveal_strlit("invoke-custom/range");
            reveal_strlit("/range");
            reveal_strlit("custom");
            reveal_strlit("invoke-");
            assert(op.spelling() =~= composed_name(op));
        },
        _ => {},
    }
}

/// Names are put together from their parts: the same word stands for the same thing in
/// every name.
pub proof fn names_are_composed(op: Opcode)
    ensures
        op.spelling() == composed_name(op),
{
    if op is MoveFrom16 || op is Move16 || op is MoveWide || op is MoveWideFrom16 || op is MoveWide16 || op is MoveObject || op is MoveObjectFrom16 || op is MoveObject16 || op is MoveResultWide || op is MoveResultObject || op is ReturnWide || op is ReturnObject || op is Const4 || op is Const16 || op is ConstHigh16 || op is ConstWide16 || op is ConstWide32 || op is ConstWideHigh16 || op is ConstStringJumbo || op is FilledNewArrayRange {
        lemma_names_a(op);
    }
    if op is Goto16 || op is Goto32 || op is CmplFloat || op is CmpgFloat || op is CmplDouble || op is CmpgDouble || op is CmpLong || op is IfEq || op is IfNe || op is IfLt || op is IfGe || op is IfGt || op is IfLe || op is IfEqz || op is IfNez || op is IfLtz || op is IfGez || op is IfGtz || op is IfLez || op is AgetWide {
        lemma_names_b(op);
    }
    if op is AgetObject || op is AgetBoolean || op is AgetByte || op is AgetChar || op is AgetShort || op is AputWide || op is AputObject || op is AputBoolean || op is AputByte || op is AputChar || op is AputShort || op is IgetWide || op is IgetObject || op is IgetBoolean || op is IgetByte || op is IgetChar || op is IgetShort || op is IputWide || op is IputObject || op is IputBoolean {
        lemma_names_c(op);
    }
    if op is IputByte || op is IputChar || op is IputShort || op is SgetWide || op is SgetObject || op is SgetBoolean || op is SgetByte || op is SgetChar || op is SgetShort || op is SputWide || op is SputObject || op is SputBoolean || op is SputByte || op is SputChar || op is SputShort || op is InvokeVirtual || op is InvokeSuper || op is InvokeDirect || op is InvokeStatic || op is InvokeInterface {
        lemma_names_d(op);
    }
    if op is InvokeVirtualRange || op is InvokeSuperRange || op is InvokeDirectRange || op is InvokeStaticRange || op is InvokeInterfaceRange || op is NegInt || op is NotInt || op is NegLong || op is NotLong || op is NegFloat || op is NegDouble || op is IntToLong || op is IntToFloat || op is IntToDouble || op is LongToInt || op is LongToFloat || op is LongToDouble || op is FloatToInt || op is FloatToLong || op is FloatToDouble {
        lemma_names_e(op);
    }
    if op is DoubleToInt || op is DoubleToLong || op is DoubleToFloat || op is IntToByte || op is IntToChar || op is IntToShort || op is AddInt || op is SubInt || op is MulInt || op is DivInt || op is RemInt || op is AndInt || op is OrInt || op is XorInt || op is ShlInt || op is ShrInt || op is UshrInt || op is AddLong || op is SubLong || op is MulLong {
        lemma_names_f(op);
    }
    if op is DivLong || op is RemLong || op is AndLong || op is OrLong || op is XorLong || op is ShlLong || op is ShrLong || op is UshrLong || op is AddFloat || op is SubFloat || op is MulFloat || op is DivFloat || op is RemFloat || op is AddDouble || op is SubDouble || op is MulDouble || op is DivDouble || op is RemDouble || op is AddInt2Addr || op is SubInt2Addr {
        lemma_names_g(op);
    }
    if op is MulInt2Addr || op is DivInt2Addr || op is RemInt2Addr || op is AndInt2Addr || op is OrInt2Addr || op is XorInt2Addr || op is ShlInt2Addr || op is ShrInt2Addr || op is UshrInt2Addr || op is AddLong2Addr || op is SubLong2Addr || op is MulLong2Addr || op is DivLong2Addr || op is RemLong2Addr || op is AndLong2Addr || op is OrLong2Addr || op is XorLong2Addr || op is ShlLong2Addr || op is ShrLong2Addr || op is UshrLong2Addr {
        lemma_names_h(op);
    }
    if op is AddFloat2Addr || op is SubFloat2Addr || op is MulFloat2Addr || op is DivFloat2Addr || op is RemFloat2Addr || op is AddDouble2Addr || op is SubDouble2Addr || op is MulDouble2Addr || op is DivDouble2Addr || op is RemDouble2Addr || op is AddIntLit16 || op is RsubInt || op is MulIntLit16 || op is DivIntLit16 || op is RemIntLit16 || op is AndIntLit16 || op is OrIntLit16 || op is XorIntLit16 || op is AddIntLit8 || op is RsubIntLit8 {
        lemma_names_i(op);
    }
    if op is MulIntLit8 || op is DivIntLit8 || op is RemIntLit8 || op is AndIntLit8 || op is OrIntLit8 || op is XorIntLit8 || op is ShlIntLit8 || op is ShrIntLit8 || op is UshrIntLit8 || op is InvokePolymorphic || op is InvokePolymorphicRange || op is InvokeCustom || op is InvokeCustomRange {
        lemma_names_j(op);
    }
}

// Register lists

/// A list of up to five registers holds them one by one; a longer one is a run of registers
/// that starts with its first.
pub proof fn long_lists_are_runs(list: RegList, i: int)
    requires
        0 <= i < list.count,
    ensures
        list.listed().len() == list.count,
        list.held().len() == if list.count <= 5 {
            list.count as int
        } else {
            5int
        },
        list.listed()[0] == list.regs@[0],
        list.count <= 5 ==> list.listed() == list.held() && list.held()[i] == list.regs@[i],
        list.count > 5 && i > 0 && list.listed()[i - 1] < u16::MAX ==> list.listed()[i]
            == list.listed()[i - 1] + 1,
        list.count > 5 && i > 0 && list.listed()[i - 1] == u16::MAX ==> list.listed()[i] == 0,
        i < 5 ==> list.held()[i] == list.regs@[i],
{
}

} // verus!
