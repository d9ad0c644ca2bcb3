//! The Dalvik instruction set: opcode bytes, mnemonics and operand formats.
use vstd::prelude::*;

verus! {

/// A Dalvik operation.
#[derive(Debug, Clone, Copy, PartialEq, Eq, Structural, Hash)]
pub enum Opcode {
    Nop,
    Move,
    MoveFrom16,
    Move16,
    MoveWide,
    MoveWideFrom16,
    MoveWide16,
    MoveObject,
    MoveObjectFrom16,
    MoveObject16,
    MoveResult,
    MoveResultWide,
    MoveResultObject,
    MoveException,
    ReturnVoid,
    Return,
    ReturnWide,
    ReturnObject,
    Const4,
    Const16,
    Const,
    ConstHigh16,
    ConstWide16,
    ConstWide32,
    ConstWide,
    ConstWideHigh16,
    ConstString,
    ConstStringJumbo,
    ConstClass,
    MonitorEnter,
    MonitorExit,
    CheckCast,
    InstanceOf,
    ArrayLength,
    NewInstance,
    NewArray,
    FilledNewArray,
    FilledNewArrayRange,
    FillArrayData,
    Throw,
    Goto,
    Goto16,
    Goto32,
    PackedSwitch,
    SparseSwitch,
    CmplFloat,
    CmpgFloat,
    CmplDouble,
    CmpgDouble,
    CmpLong,
    IfEq,
    IfNe,
    IfLt,
    IfGe,
    IfGt,
    IfLe,
    IfEqz,
    IfNez,
    IfLtz,
    IfGez,
    IfGtz,
    IfLez,
    Aget,
    AgetWide,
    AgetObject,
    AgetBoolean,
    AgetByte,
    AgetChar,
    AgetShort,
    Aput,
    AputWide,
    AputObject,
    AputBoolean,
    AputByte,
    AputChar,
    AputShort,
    Iget,
    IgetWide,
    IgetObject,
    IgetBoolean,
    IgetByte,
    IgetChar,
    IgetShort,
    Iput,
    IputWide,
    IputObject,
    IputBoolean,
    IputByte,
    IputChar,
    IputShort,
    Sget,
    SgetWide,
    SgetObject,
    SgetBoolean,
    SgetByte,
    SgetChar,
    SgetShort,
    Sput,
    SputWide,
    SputObject,
    SputBoolean,
    SputByte,
    SputChar,
    SputShort,
    InvokeVirtual,
    InvokeSuper,
    InvokeDirect,
    InvokeStatic,
    InvokeInterface,
    InvokeVirtualRange,
    InvokeSuperRange,
    InvokeDirectRange,
    InvokeStaticRange,
    InvokeInterfaceRange,
    NegInt,
    NotInt,
    NegLong,
    NotLong,
    NegFloat,
    NegDouble,
    IntToLong,
    IntToFloat,
    IntToDouble,
    LongToInt,
    LongToFloat,
    LongToDouble,
    FloatToInt,
    FloatToLong,
    FloatToDouble,
    DoubleToInt,
    DoubleToLong,
    DoubleToFloat,
    IntToByte,
    IntToChar,
    IntToShort,
    AddInt,
    SubInt,
    MulInt,
    DivInt,
    RemInt,
    AndInt,
    OrInt,
    XorInt,
    ShlInt,
    ShrInt,
    UshrInt,
    AddLong,
    SubLong,
    MulLong,
    DivLong,
    RemLong,
    AndLong,
    OrLong,
    XorLong,
    ShlLong,
    ShrLong,
    UshrLong,
    AddFloat,
    SubFloat,
    MulFloat,
    DivFloat,
    RemFloat,
    AddDouble,
    SubDouble,
    MulDouble,
    DivDouble,
    RemDouble,
    AddInt2Addr,
    SubInt2Addr,
    MulInt2Addr,
    DivInt2Addr,
    RemInt2Addr,
    AndInt2Addr,
    OrInt2Addr,
    XorInt2Addr,
    ShlInt2Addr,
    ShrInt2Addr,
    UshrInt2Addr,
    AddLong2Addr,
    SubLong2Addr,
    MulLong2Addr,
    DivLong2Addr,
    RemLong2Addr,
    AndLong2Addr,
    OrLong2Addr,
    XorLong2Addr,
    ShlLong2Addr,
    ShrLong2Addr,
    UshrLong2Addr,
    AddFloat2Addr,
    SubFloat2Addr,
    MulFloat2Addr,
    DivFloat2Addr,
    RemFloat2Addr,
    AddDouble2Addr,
    SubDouble2Addr,
    MulDouble2Addr,
    DivDouble2Addr,
    RemDouble2Addr,
    AddIntLit16,
    RsubInt,
    MulIntLit16,
    DivIntLit16,
    RemIntLit16,
    AndIntLit16,
    OrIntLit16,
    XorIntLit16,
    AddIntLit8,
    RsubIntLit8,
    MulIntLit8,
    DivIntLit8,
    RemIntLit8,
    AndIntLit8,
    OrIntLit8,
    XorIntLit8,
    ShlIntLit8,
    ShrIntLit8,
    UshrIntLit8,
    InvokePolymorphic,
    InvokePolymorphicRange,
    InvokeCustom,
    InvokeCustomRange,
    ConstMethodHandle,
    ConstMethodType,
}

/// Operand layout of an instruction. The first digit is the number of 16-bit
/// code units, the second the number of registers (`r` for a register range),
/// the letter the kind of extra operand.
#[derive(Debug, Clone, Copy, PartialEq, Eq, Structural, Hash)]
pub enum InsnFormat {
    F10x,
    F12x,
    F11n,
    F11x,
    F10t,
    F20t,
    F22x,
    F21t,
    F21s,
    F21h,
    F21c,
    F23x,
    F22t,
    F22s,
    F22c,
    F22b,
    F30t,
    F32x,
    F31i,
    F31t,
    F31c,
    F35c,
    F3rc,
    F45cc,
    F4rcc,
    F51l,
}

impl Opcode {
    /// The opcode byte that starts an encoded instruction.
    pub open spec fn byte(self) -> u8 {
        match self {
            Opcode::Nop => 0x00,
            Opcode::Move => 0x01,
            Opcode::MoveFrom16 => 0x02,
            Opcode::Move16 => 0x03,
            Opcode::MoveWide => 0x04,
            Opcode::MoveWideFrom16 => 0x05,
            Opcode::MoveWide16 => 0x06,
            Opcode::MoveObject => 0x07,
            Opcode::MoveObjectFrom16 => 0x08,
            Opcode::MoveObject16 => 0x09,
            Opcode::MoveResult => 0x0a,
            Opcode::MoveResultWide => 0x0b,
            Opcode::MoveResultObject => 0x0c,
            Opcode::MoveException => 0x0d,
            Opcode::ReturnVoid => 0x0e,
            Opcode::Return => 0x0f,
            Opcode::ReturnWide => 0x10,
            Opcode::ReturnObject => 0x11,
            Opcode::Const4 => 0x12,
            Opcode::Const16 => 0x13,
            Opcode::Const => 0x14,
            Opcode::ConstHigh16 => 0x15,
            Opcode::ConstWide16 => 0x16,
            Opcode::ConstWide32 => 0x17,
            Opcode::ConstWide => 0x18,
            Opcode::ConstWideHigh16 => 0x19,
            Opcode::ConstString => 0x1a,
            Opcode::ConstStringJumbo => 0x1b,
            Opcode::ConstClass => 0x1c,
            Opcode::MonitorEnter => 0x1d,
            Opcode::MonitorExit => 0x1e,
            Opcode::CheckCast => 0x1f,
            Opcode::InstanceOf => 0x20,
            Opcode::ArrayLength => 0x21,
            Opcode::NewInstance => 0x22,
            Opcode::NewArray => 0x23,
            Opcode::FilledNewArray => 0x24,
            Opcode::FilledNewArrayRange => 0x25,
            Opcode::FillArrayData => 0x26,
            Opcode::Throw => 0x27,
            Opcode::Goto => 0x28,
            Opcode::Goto16 => 0x29,
            Opcode::Goto32 => 0x2a,
            Opcode::PackedSwitch => 0x2b,
            Opcode::SparseSwitch => 0x2c,
            Opcode::CmplFloat => 0x2d,
            Opcode::CmpgFloat => 0x2e,
            Opcode::CmplDouble => 0x2f,
            Opcode::CmpgDouble => 0x30,
            Opcode::CmpLong => 0x31,
            Opcode::IfEq => 0x32,
            Opcode::IfNe => 0x33,
            Opcode::IfLt => 0x34,
            Opcode::IfGe => 0x35,
            Opcode::IfGt => 0x36,
            Opcode::IfLe => 0x37,
            Opcode::IfEqz => 0x38,
            Opcode::IfNez => 0x39,
            Opcode::IfLtz => 0x3a,
            Opcode::IfGez => 0x3b,
            Opcode::IfGtz => 0x3c,
            Opcode::IfLez => 0x3d,
            Opcode::Aget => 0x44,
            Opcode::AgetWide => 0x45,
            Opcode::AgetObject => 0x46,
            Opcode::AgetBoolean => 0x47,
            Opcode::AgetByte => 0x48,
            Opcode::AgetChar => 0x49,
            Opcode::AgetShort => 0x4a,
            Opcode::Aput => 0x4b,
            Opcode::AputWide => 0x4c,
            Opcode::AputObject => 0x4d,
            Opcode::AputBoolean => 0x4e,
            Opcode::AputByte => 0x4f,
            Opcode::AputChar => 0x50,
            Opcode::AputShort => 0x51,
            Opcode::Iget => 0x52,
            Opcode::IgetWide => 0x53,
            Opcode::IgetObject => 0x54,
            Opcode::IgetBoolean => 0x55,
            Opcode::IgetByte => 0x56,
            Opcode::IgetChar => 0x57,
            Opcode::IgetShort => 0x58,
            Opcode::Iput => 0x59,
            Opcode::IputWide => 0x5a,
            Opcode::IputObject => 0x5b,
            Opcode::IputBoolean => 0x5c,
            Opcode::IputByte => 0x5d,
            Opcode::IputChar => 0x5e,
            Opcode::IputShort => 0x5f,
            Opcode::Sget => 0x60,
            Opcode::SgetWide => 0x61,
            Opcode::SgetObject => 0x62,
            Opcode::SgetBoolean => 0x63,
            Opcode::SgetByte => 0x64,
            Opcode::SgetChar => 0x65,
            Opcode::SgetShort => 0x66,
            Opcode::Sput => 0x67,
            Opcode::SputWide => 0x68,
            Opcode::SputObject => 0x69,
            Opcode::SputBoolean => 0x6a,
            Opcode::SputByte => 0x6b,
            Opcode::SputChar => 0x6c,
            Opcode::SputShort => 0x6d,
            Opcode::InvokeVirtual => 0x6e,
            Opcode::InvokeSuper => 0x6f,
            Opcode::InvokeDirect => 0x70,
            Opcode::InvokeStatic => 0x71,
            Opcode::InvokeInterface => 0x72,
            Opcode::InvokeVirtualRange => 0x74,
            Opcode::InvokeSuperRange => 0x75,
            Opcode::InvokeDirectRange => 0x76,
            Opcode::InvokeStaticRange => 0x77,
            Opcode::InvokeInterfaceRange => 0x78,
            Opcode::NegInt => 0x7b,
            Opcode::NotInt => 0x7c,
            Opcode::NegLong => 0x7d,
            Opcode::NotLong => 0x7e,
            Opcode::NegFloat => 0x7f,
            Opcode::NegDouble => 0x80,
            Opcode::IntToLong => 0x81,
            Opcode::IntToFloat => 0x82,
            Opcode::IntToDouble => 0x83,
            Opcode::LongToInt => 0x84,
            Opcode::LongToFloat => 0x85,
            Opcode::LongToDouble => 0x86,
            Opcode::FloatToInt => 0x87,
            Opcode::FloatToLong => 0x88,
            Opcode::FloatToDouble => 0x89,
            Opcode::DoubleToInt => 0x8a,
            Opcode::DoubleToLong => 0x8b,
            Opcode::DoubleToFloat => 0x8c,
            Opcode::IntToByte => 0x8d,
            Opcode::IntToChar => 0x8e,
            Opcode::IntToShort => 0x8f,
            Opcode::AddInt => 0x90,
            Opcode::SubInt => 0x91,
            Opcode::MulInt => 0x92,
            Opcode::DivInt => 0x93,
            Opcode::RemInt => 0x94,
            Opcode::AndInt => 0x95,
            Opcode::OrInt => 0x96,
            Opcode::XorInt => 0x97,
            Opcode::ShlInt => 0x98,
            Opcode::ShrInt => 0x99,
            Opcode::UshrInt => 0x9a,
            Opcode::AddLong => 0x9b,
            Opcode::SubLong => 0x9c,
            Opcode::MulLong => 0x9d,
            Opcode::DivLong => 0x9e,
            Opcode::RemLong => 0x9f,
            Opcode::AndLong => 0xa0,
            Opcode::OrLong => 0xa1,
            Opcode::XorLong => 0xa2,
            Opcode::ShlLong => 0xa3,
            Opcode::ShrLong => 0xa4,
            Opcode::UshrLong => 0xa5,
            Opcode::AddFloat => 0xa6,
            Opcode::SubFloat => 0xa7,
            Opcode::MulFloat => 0xa8,
            Opcode::DivFloat => 0xa9,
            Opcode::RemFloat => 0xaa,
            Opcode::AddDouble => 0xab,
            Opcode::SubDouble => 0xac,
            Opcode::MulDouble => 0xad,
            Opcode::DivDouble => 0xae,
            Opcode::RemDouble => 0xaf,
            Opcode::AddInt2Addr => 0xb0,
            Opcode::SubInt2Addr => 0xb1,
            Opcode::MulInt2Addr => 0xb2,
            Opcode::DivInt2Addr => 0xb3,
            Opcode::RemInt2Addr => 0xb4,
            Opcode::AndInt2Addr => 0xb5,
            Opcode::OrInt2Addr => 0xb6,
            Opcode::XorInt2Addr => 0xb7,
            Opcode::ShlInt2Addr => 0xb8,
            Opcode::ShrInt2Addr => 0xb9,
            Opcode::UshrInt2Addr => 0xba,
            Opcode::AddLong2Addr => 0xbb,
            Opcode::SubLong2Addr => 0xbc,
            Opcode::MulLong2Addr => 0xbd,
            Opcode::DivLong2Addr => 0xbe,
            Opcode::RemLong2Addr => 0xbf,
            Opcode::AndLong2Addr => 0xc0,
            Opcode::OrLong2Addr => 0xc1,
            Opcode::XorLong2Addr => 0xc2,
            Opcode::ShlLong2Addr => 0xc3,
            Opcode::ShrLong2Addr => 0xc4,
            Opcode::UshrLong2Addr => 0xc5,
            Opcode::AddFloat2Addr => 0xc6,
            Opcode::SubFloat2Addr => 0xc7,
            Opcode::MulFloat2Addr => 0xc8,
            Opcode::DivFloat2Addr => 0xc9,
            Opcode::RemFloat2Addr => 0xca,
            Opcode::AddDouble2Addr => 0xcb,
            Opcode::SubDouble2Addr => 0xcc,
            Opcode::MulDouble2Addr => 0xcd,
            Opcode::DivDouble2Addr => 0xce,
            Opcode::RemDouble2Addr => 0xcf,
            Opcode::AddIntLit16 => 0xd0,
            Opcode::RsubInt => 0xd1,
            Opcode::MulIntLit16 => 0xd2,
            Opcode::DivIntLit16 => 0xd3,
            Opcode::RemIntLit16 => 0xd4,
            Opcode::AndIntLit16 => 0xd5,
            Opcode::OrIntLit16 => 0xd6,
            Opcode::XorIntLit16 => 0xd7,
            Opcode::AddIntLit8 => 0xd8,
            Opcode::RsubIntLit8 => 0xd9,
            Opcode::MulIntLit8 => 0xda,
            Opcode::DivIntLit8 => 0xdb,
            Opcode::RemIntLit8 => 0xdc,
            Opcode::AndIntLit8 => 0xdd,
            Opcode::OrIntLit8 => 0xde,
            Opcode::XorIntLit8 => 0xdf,
            Opcode::ShlIntLit8 => 0xe0,
            Opcode::ShrIntLit8 => 0xe1,
            Opcode::UshrIntLit8 => 0xe2,
            Opcode::InvokePolymorphic => 0xfa,
            Opcode::InvokePolymorphicRange => 0xfb,
            Opcode::InvokeCustom => 0xfc,
            Opcode::InvokeCustomRange => 0xfd,
            Opcode::ConstMethodHandle => 0xfe,
            Opcode::ConstMethodType => 0xff,
        }
    }

    /// The assembler spelling of the operation.
    pub open spec fn spelling(self) -> Seq<char> {
        match self {
            Opcode::Nop => "nop"@,
            Opcode::Move => "move"@,
            Opcode::MoveFrom16 => "move/from16"@,
            Opcode::Move16 => "move/16"@,
            Opcode::MoveWide => "move-wide"@,
            Opcode::MoveWideFrom16 => "move-wide/from16"@,
            Opcode::MoveWide16 => "move-wide/16"@,
            Opcode::MoveObject => "move-object"@,
            Opcode::MoveObjectFrom16 => "move-object/from16"@,
            Opcode::MoveObject16 => "move-object/16"@,
            Opcode::MoveResult => "move-result"@,
            Opcode::MoveResultWide => "move-result-wide"@,
            Opcode::MoveResultObject => "move-result-object"@,
            Opcode::MoveException => "move-exception"@,
            Opcode::ReturnVoid => "return-void"@,
            Opcode::Return => "return"@,
            Opcode::ReturnWide => "return-wide"@,
            Opcode::ReturnObject => "return-object"@,
            Opcode::Const4 => "const/4"@,
            Opcode::Const16 => "const/16"@,
            Opcode::Const => "const"@,
            Opcode::ConstHigh16 => "const/high16"@,
            Opcode::ConstWide16 => "const-wide/16"@,
            Opcode::ConstWide32 => "const-wide/32"@,
            Opcode::ConstWide => "const-wide"@,
            Opcode::ConstWideHigh16 => "const-wide/high16"@,
            Opcode::ConstString => "const-string"@,
            Opcode::ConstStringJumbo => "const-string/jumbo"@,
            Opcode::ConstClass => "const-class"@,
            Opcode::MonitorEnter => "monitor-enter"@,
            Opcode::MonitorExit => "monitor-exit"@,
            Opcode::CheckCast => "check-cast"@,
            Opcode::InstanceOf => "instance-of"@,
            Opcode::ArrayLength => "array-length"@,
            Opcode::NewInstance => "new-instance"@,
            Opcode::NewArray => "new-array"@,
            Opcode::FilledNewArray => "filled-new-array"@,
            Opcode::FilledNewArrayRange => "filled-new-array/range"@,
            Opcode::FillArrayData => "fill-array-data"@,
            Opcode::Throw => "throw"@,
            Opcode::Goto => "goto"@,
            Opcode::Goto16 => "goto/16"@,
            Opcode::Goto32 => "goto/32"@,
            Opcode::PackedSwitch => "packed-switch"@,
            Opcode::SparseSwitch => "sparse-switch"@,
            Opcode::CmplFloat => "cmpl-float"@,
            Opcode::CmpgFloat => "cmpg-float"@,
            Opcode::CmplDouble => "cmpl-double"@,
            Opcode::CmpgDouble => "cmpg-double"@,
            Opcode::CmpLong => "cmp-long"@,
            Opcode::IfEq => "if-eq"@,
            Opcode::IfNe => "if-ne"@,
            Opcode::IfLt => "if-lt"@,
            Opcode::IfGe => "if-ge"@,
            Opcode::IfGt => "if-gt"@,
            Opcode::IfLe => "if-le"@,
            Opcode::IfEqz => "if-eqz"@,
            Opcode::IfNez => "if-nez"@,
            Opcode::IfLtz => "if-ltz"@,
            Opcode::IfGez => "if-gez"@,
            Opcode::IfGtz => "if-gtz"@,
            Opcode::IfLez => "if-lez"@,
            Opcode::Aget => "aget"@,
            Opcode::AgetWide => "aget-wide"@,
            Opcode::AgetObject => "aget-object"@,
            Opcode::AgetBoolean => "aget-boolean"@,
            Opcode::AgetByte => "aget-byte"@,
            Opcode::AgetChar => "aget-char"@,
            Opcode::AgetShort => "aget-short"@,
            Opcode::Aput => "aput"@,
            Opcode::AputWide => "aput-wide"@,
            Opcode::AputObject => "aput-object"@,
            Opcode::AputBoolean => "aput-boolean"@,
            Opcode::AputByte => "aput-byte"@,
            Opcode::AputChar => "aput-char"@,
            Opcode::AputShort => "aput-short"@,
            Opcode::Iget => "iget"@,
            Opcode::IgetWide => "iget-wide"@,
            Opcode::IgetObject => "iget-object"@,
            Opcode::IgetBoolean => "iget-boolean"@,
            Opcode::IgetByte => "iget-byte"@,
            Opcode::IgetChar => "iget-char"@,
            Opcode::IgetShort => "iget-short"@,
            Opcode::Iput => "iput"@,
            Opcode::IputWide => "iput-wide"@,
            Opcode::IputObject => "iput-object"@,
            Opcode::IputBoolean => "iput-boolean"@,
            Opcode::IputByte => "iput-byte"@,
            Opcode::IputChar => "iput-char"@,
            Opcode::IputShort => "iput-short"@,
            Opcode::Sget => "sget"@,
            Opcode::SgetWide => "sget-wide"@,
            Opcode::SgetObject => "sget-object"@,
            Opcode::SgetBoolean => "sget-boolean"@,
            Opcode::SgetByte => "sget-byte"@,
            Opcode::SgetChar => "sget-char"@,
            Opcode::SgetShort => "sget-short"@,
            Opcode::Sput => "sput"@,
            Opcode::SputWide => "sput-wide"@,
            Opcode::SputObject => "sput-object"@,
            Opcode::SputBoolean => "sput-boolean"@,
            Opcode::SputByte => "sput-byte"@,
            Opcode::SputChar => "sput-char"@,
            Opcode::SputShort => "sput-short"@,
            Opcode::InvokeVirtual => "invoke-virtual"@,
            Opcode::InvokeSuper => "invoke-super"@,
            Opcode::InvokeDirect => "invoke-direct"@,
            Opcode::InvokeStatic => "invoke-static"@,
            Opcode::InvokeInterface => "invoke-interface"@,
            Opcode::InvokeVirtualRange => "invoke-virtual/range"@,
            Opcode::InvokeSuperRange => "invoke-super/range"@,
            Opcode::InvokeDirectRange => "invoke-direct/range"@,
            Opcode::InvokeStaticRange => "invoke-static/range"@,
            Opcode::InvokeInterfaceRange => "invoke-interface/range"@,
            Opcode::NegInt => "neg-int"@,
            Opcode::NotInt => "not-int"@,
            Opcode::NegLong => "neg-long"@,
            Opcode::NotLong => "not-long"@,
            Opcode::NegFloat => "neg-float"@,
            Opcode::NegDouble => "neg-double"@,
            Opcode::IntToLong => "int-to-long"@,
            Opcode::IntToFloat => "int-to-float"@,
            Opcode::IntToDouble => "int-to-double"@,
            Opcode::LongToInt => "long-to-int"@,
            Opcode::LongToFloat => "long-to-float"@,
            Opcode::LongToDouble => "long-to-double"@,
            Opcode::FloatToInt => "float-to-int"@,
            Opcode::FloatToLong => "float-to-long"@,
            Opcode::FloatToDouble => "float-to-double"@,
            Opcode::DoubleToInt => "double-to-int"@,
            Opcode::DoubleToLong => "double-to-long"@,
            Opcode::DoubleToFloat => "double-to-float"@,
            Opcode::IntToByte => "int-to-byte"@,
            Opcode::IntToChar => "int-to-char"@,
            Opcode::IntToShort => "int-to-short"@,
            Opcode::AddInt => "add-int"@,
            Opcode::SubInt => "sub-int"@,
            Opcode::MulInt => "mul-int"@,
            Opcode::DivInt => "div-int"@,
            Opcode::RemInt => "rem-int"@,
            Opcode::AndInt => "and-int"@,
            Opcode::OrInt => "or-int"@,
            Opcode::XorInt => "xor-int"@,
            Opcode::ShlInt => "shl-int"@,
            Opcode::ShrInt => "shr-int"@,
            Opcode::UshrInt => "ushr-int"@,
            Opcode::AddLong => "add-long"@,
            Opcode::SubLong => "sub-long"@,
            Opcode::MulLong => "mul-long"@,
            Opcode::DivLong => "div-long"@,
            Opcode::RemLong => "rem-long"@,
            Opcode::AndLong => "and-long"@,
            Opcode::OrLong => "or-long"@,
            Opcode::XorLong => "xor-long"@,
            Opcode::ShlLong => "shl-long"@,
            Opcode::ShrLong => "shr-long"@,
            Opcode::UshrLong => "ushr-long"@,
            Opcode::AddFloat => "add-float"@,
            Opcode::SubFloat => "sub-float"@,
            Opcode::MulFloat => "mul-float"@,
            Opcode::DivFloat => "div-float"@,
            Opcode::RemFloat => "rem-float"@,
            Opcode::AddDouble => "add-double"@,
            Opcode::SubDouble => "sub-double"@,
            Opcode::MulDouble => "mul-double"@,
            Opcode::DivDouble => "div-double"@,
            Opcode::RemDouble => "rem-double"@,
            Opcode::AddInt2Addr => "add-int/2addr"@,
            Opcode::SubInt2Addr => "sub-int/2addr"@,
            Opcode::MulInt2Addr => "mul-int/2addr"@,
            Opcode::DivInt2Addr => "div-int/2addr"@,
            Opcode::RemInt2Addr => "rem-int/2addr"@,
            Opcode::AndInt2Addr => "and-int/2addr"@,
            Opcode::OrInt2Addr => "or-int/2addr"@,
            Opcode::XorInt2Addr => "xor-int/2addr"@,
            Opcode::ShlInt2Addr => "shl-int/2addr"@,
            Opcode::ShrInt2Addr => "shr-int/2addr"@,
            Opcode::UshrInt2Addr => "ushr-int/2addr"@,
            Opcode::AddLong2Addr => "add-long/2addr"@,
            Opcode::SubLong2Addr => "sub-long/2addr"@,
            Opcode::MulLong2Addr => "mul-long/2addr"@,
            Opcode::DivLong2Addr => "div-long/2addr"@,
            Opcode::RemLong2Addr => "rem-long/2addr"@,
            Opcode::AndLong2Addr => "and-long/2addr"@,
            Opcode::OrLong2Addr => "or-long/2addr"@,
            Opcode::XorLong2Addr => "xor-long/2addr"@,
            Opcode::ShlLong2Addr => "shl-long/2addr"@,
            Opcode::ShrLong2Addr => "shr-long/2addr"@,
            Opcode::UshrLong2Addr => "ushr-long/2addr"@,
            Opcode::AddFloat2Addr => "add-float/2addr"@,
            Opcode::SubFloat2Addr => "sub-float/2addr"@,
            Opcode::MulFloat2Addr => "mul-float/2addr"@,
            Opcode::DivFloat2Addr => "div-float/2addr"@,
            Opcode::RemFloat2Addr => "rem-float/2addr"@,
            Opcode::AddDouble2Addr => "add-double/2addr"@,
            Opcode::SubDouble2Addr => "sub-double/2addr"@,
            Opcode::MulDouble2Addr => "mul-double/2addr"@,
            Opcode::DivDouble2Addr => "div-double/2addr"@,
            Opcode::RemDouble2Addr => "rem-double/2addr"@,
            Opcode::AddIntLit16 => "add-int/lit16"@,
            Opcode::RsubInt => "rsub-int"@,
            Opcode::MulIntLit16 => "mul-int/lit16"@,
            Opcode::DivIntLit16 => "div-int/lit16"@,
            Opcode::RemIntLit16 => "rem-int/lit16"@,
            Opcode::AndIntLit16 => "and-int/lit16"@,
            Opcode::OrIntLit16 => "or-int/lit16"@,
            Opcode::XorIntLit16 => "xor-int/lit16"@,
            Opcode::AddIntLit8 => "add-int/lit8"@,
            Opcode::RsubIntLit8 => "rsub-int/lit8"@,
            Opcode::MulIntLit8 => "mul-int/lit8"@,
            Opcode::DivIntLit8 => "div-int/lit8"@,
            Opcode::RemIntLit8 => "rem-int/lit8"@,
            Opcode::AndIntLit8 => "and-int/lit8"@,
            Opcode::OrIntLit8 => "or-int/lit8"@,
            Opcode::XorIntLit8 => "xor-int/lit8"@,
            Opcode::ShlIntLit8 => "shl-int/lit8"@,
            Opcode::ShrIntLit8 => "shr-int/lit8"@,
            Opcode::UshrIntLit8 => "ushr-int/lit8"@,
            Opcode::InvokePolymorphic => "invoke-polymorphic"@,
            Opcode::InvokePolymorphicRange => "invoke-polymorphic/range"@,
            Opcode::InvokeCustom => "invoke-custom"@,
            Opcode::InvokeCustomRange => "invoke-custom/range"@,
            Opcode::ConstMethodHandle => "const-method-handle"@,
            Opcode::ConstMethodType => "const-method-type"@,
        }
    }

    /// The operand layout of the operation.
    pub open spec fn layout(self) -> InsnFormat {
        match self {
            Opcode::Nop | Opcode::ReturnVoid => InsnFormat::F10x,
            Opcode::Move | Opcode::MoveWide | Opcode::MoveObject | Opcode::ArrayLength
            | Opcode::NegInt | Opcode::NotInt | Opcode::NegLong | Opcode::NotLong
            | Opcode::NegFloat | Opcode::NegDouble | Opcode::IntToLong | Opcode::IntToFloat
            | Opcode::IntToDouble | Opcode::LongToInt | Opcode::LongToFloat
            | Opcode::LongToDouble | Opcode::FloatToInt | Opcode::FloatToLong
            | Opcode::FloatToDouble | Opcode::DoubleToInt | Opcode::DoubleToLong
            | Opcode::DoubleToFloat | Opcode::IntToByte | Opcode::IntToChar | Opcode::IntToShort
            | Opcode::AddInt2Addr | Opcode::SubInt2Addr | Opcode::MulInt2Addr
            | Opcode::DivInt2Addr | Opcode::RemInt2Addr | Opcode::AndInt2Addr
            | Opcode::OrInt2Addr | Opcode::XorInt2Addr | Opcode::ShlInt2Addr
            | Opcode::ShrInt2Addr | Opcode::UshrInt2Addr | Opcode::AddLong2Addr
            | Opcode::SubLong2Addr | Opcode::MulLong2Addr | Opcode::DivLong2Addr
            | Opcode::RemLong2Addr | Opcode::AndLong2Addr | Opcode::OrLong2Addr
            | Opcode::XorLong2Addr | Opcode::ShlLong2Addr | Opcode::ShrLong2Addr
            | Opcode::UshrLong2Addr | Opcode::AddFloat2Addr | Opcode::SubFloat2Addr
            | Opcode::MulFloat2Addr | Opcode::DivFloat2Addr | Opcode::RemFloat2Addr
            | Opcode::AddDouble2Addr | Opcode::SubDouble2Addr | Opcode::MulDouble2Addr
            | Opcode::DivDouble2Addr | Opcode::RemDouble2Addr => InsnFormat::F12x,
            Opcode::Const4 => InsnFormat::F11n,
            Opcode::MoveResult | Opcode::MoveResultWide | Opcode::MoveResultObject
            | Opcode::MoveException | Opcode::Return | Opcode::ReturnWide | Opcode::ReturnObject
            | Opcode::MonitorEnter | Opcode::MonitorExit | Opcode::Throw => InsnFormat::F11x,
            Opcode::Goto => InsnFormat::F10t,
            Opcode::Goto16 => InsnFormat::F20t,
            Opcode::MoveFrom16 | Opcode::MoveWideFrom16 | Opcode::MoveObjectFrom16 => InsnFormat::F22x,
            Opcode::IfEqz | Opcode::IfNez | Opcode::IfLtz | Opcode::IfGez | Opcode::IfGtz
            | Opcode::IfLez => InsnFormat::F21t,
            Opcode::Const16 | Opcode::ConstWide16 => InsnFormat::F21s,
            Opcode::ConstHigh16 | Opcode::ConstWideHigh16 => InsnFormat::F21h,
            Opcode::ConstString | Opcode::ConstClass | Opcode::CheckCast | Opcode::NewInstance
            | Opcode::Sget | Opcode::SgetWide | Opcode::SgetObject | Opcode::SgetBoolean
            | Opcode::SgetByte | Opcode::SgetChar | Opcode::SgetShort | Opcode::Sput
            | Opcode::SputWide | Opcode::SputObject | Opcode::SputBoolean | Opcode::SputByte
            | Opcode::SputChar | Opcode::SputShort | Opcode::ConstMethodHandle
            | Opcode::ConstMethodType => InsnFormat::F21c,
            Opcode::CmplFloat | Opcode::CmpgFloat | Opcode::CmplDouble | Opcode::CmpgDouble
            | Opcode::CmpLong | Opcode::Aget | Opcode::AgetWide | Opcode::AgetObject
            | Opcode::AgetBoolean | Opcode::AgetByte | Opcode::AgetChar | Opcode::AgetShort
            | Opcode::Aput | Opcode::AputWide | Opcode::AputObject | Opcode::AputBoolean
            | Opcode::AputByte | Opcode::AputChar | Opcode::AputShort | Opcode::AddInt
            | Opcode::SubInt | Opcode::MulInt | Opcode::DivInt | Opcode::RemInt | Opcode::AndInt
            | Opcode::OrInt | Opcode::XorInt | Opcode::ShlInt | Opcode::ShrInt | Opcode::UshrInt
            | Opcode::AddLong | Opcode::SubLong | Opcode::MulLong | Opcode::DivLong
            | Opcode::RemLong | Opcode::AndLong | Opcode::OrLong | Opcode::XorLong
            | Opcode::ShlLong | Opcode::ShrLong | Opcode::UshrLong | Opcode::AddFloat
            | Opcode::SubFloat | Opcode::MulFloat | Opcode::DivFloat | Opcode::RemFloat
            | Opcode::AddDouble | Opcode::SubDouble | Opcode::MulDouble | Opcode::DivDouble
            | Opcode::RemDouble => InsnFormat::F23x,
            Opcode::IfEq | Opcode::IfNe | Opcode::IfLt | Opcode::IfGe | Opcode::IfGt
            | Opcode::IfLe => InsnFormat::F22t,
            Opcode::AddIntLit16 | Opcode::RsubInt | Opcode::MulIntLit16 | Opcode::DivIntLit16
            | Opcode::RemIntLit16 | Opcode::AndIntLit16 | Opcode::OrIntLit16
            | Opcode::XorIntLit16 => InsnFormat::F22s,
            Opcode::InstanceOf | Opcode::NewArray | Opcode::Iget | Opcode::IgetWide
            | Opcode::IgetObject | Opcode::IgetBoolean | Opcode::IgetByte | Opcode::IgetChar
            | Opcode::IgetShort | Opcode::Iput | Opcode::IputWide | Opcode::IputObject
            | Opcode::IputBoolean | Opcode::IputByte | Opcode::IputChar | Opcode::IputShort => InsnFormat::F22c,
            Opcode::AddIntLit8 | Opcode::RsubIntLit8 | Opcode::MulIntLit8 | Opcode::DivIntLit8
            | Opcode::RemIntLit8 | Opcode::AndIntLit8 | Opcode::OrIntLit8 | Opcode::XorIntLit8
            | Opcode::ShlIntLit8 | Opcode::ShrIntLit8 | Opcode::UshrIntLit8 => InsnFormat::F22b,
            Opcode::Goto32 => InsnFormat::F30t,
            Opcode::Move16 | Opcode::MoveWide16 | Opcode::MoveObject16 => InsnFormat::F32x,
            Opcode::Const | Opcode::ConstWide32 => InsnFormat::F31i,
            Opcode::FillArrayData | Opcode::PackedSwitch | Opcode::SparseSwitch => InsnFormat::F31t,
            Opcode::ConstStringJumbo => InsnFormat::F31c,
            Opcode::FilledNewArray | Opcode::InvokeVirtual | Opcode::InvokeSuper
            | Opcode::InvokeDirect | Opcode::InvokeStatic | Opcode::InvokeInterface
            | Opcode::InvokeCustom => InsnFormat::F35c,
            Opcode::FilledNewArrayRange | Opcode::InvokeVirtualRange | Opcode::InvokeSuperRange
            | Opcode::InvokeDirectRange | Opcode::InvokeStaticRange
            | Opcode::InvokeInterfaceRange | Opcode::InvokeCustomRange => InsnFormat::F3rc,
            Opcode::InvokePolymorphic => InsnFormat::F45cc,
            Opcode::InvokePolymorphicRange => InsnFormat::F4rcc,
            Opcode::ConstWide => InsnFormat::F51l,
        }
    }

    /// The opcode byte of this operation.
    pub fn to_u8(self) -> (r: u8)
        ensures
            r == self.byte(),
    {
        match self {
            Opcode::Nop => 0x00,
            Opcode::Move => 0x01,
            Opcode::MoveFrom16 => 0x02,
            Opcode::Move16 => 0x03,
            Opcode::MoveWide => 0x04,
            Opcode::MoveWideFrom16 => 0x05,
            Opcode::MoveWide16 => 0x06,
            Opcode::MoveObject => 0x07,
            Opcode::MoveObjectFrom16 => 0x08,
            Opcode::MoveObject16 => 0x09,
            Opcode::MoveResult => 0x0a,
            Opcode::MoveResultWide => 0x0b,
            Opcode::MoveResultObject => 0x0c,
            Opcode::MoveException => 0x0d,
            Opcode::ReturnVoid => 0x0e,
            Opcode::Return => 0x0f,
            Opcode::ReturnWide => 0x10,
            Opcode::ReturnObject => 0x11,
            Opcode::Const4 => 0x12,
            Opcode::Const16 => 0x13,
            Opcode::Const => 0x14,
            Opcode::ConstHigh16 => 0x15,
            Opcode::ConstWide16 => 0x16,
            Opcode::ConstWide32 => 0x17,
            Opcode::ConstWide => 0x18,
            Opcode::ConstWideHigh16 => 0x19,
            Opcode::ConstString => 0x1a,
            Opcode::ConstStringJumbo => 0x1b,
            Opcode::ConstClass => 0x1c,
            Opcode::MonitorEnter => 0x1d,
            Opcode::MonitorExit => 0x1e,
            Opcode::CheckCast => 0x1f,
            Opcode::InstanceOf => 0x20,
            Opcode::ArrayLength => 0x21,
            Opcode::NewInstance => 0x22,
            Opcode::NewArray => 0x23,
            Opcode::FilledNewArray => 0x24,
            Opcode::FilledNewArrayRange => 0x25,
            Opcode::FillArrayData => 0x26,
            Opcode::Throw => 0x27,
            Opcode::Goto => 0x28,
            Opcode::Goto16 => 0x29,
            Opcode::Goto32 => 0x2a,
            Opcode::PackedSwitch => 0x2b,
            Opcode::SparseSwitch => 0x2c,
            Opcode::CmplFloat => 0x2d,
            Opcode::CmpgFloat => 0x2e,
            Opcode::CmplDouble => 0x2f,
            Opcode::CmpgDouble => 0x30,
            Opcode::CmpLong => 0x31,
            Opcode::IfEq => 0x32,
            Opcode::IfNe => 0x33,
            Opcode::IfLt => 0x34,
            Opcode::IfGe => 0x35,
            Opcode::IfGt => 0x36,
            Opcode::IfLe => 0x37,
            Opcode::IfEqz => 0x38,
            Opcode::IfNez => 0x39,
            Opcode::IfLtz => 0x3a,
            Opcode::IfGez => 0x3b,
            Opcode::IfGtz => 0x3c,
            Opcode::IfLez => 0x3d,
            Opcode::Aget => 0x44,
            Opcode::AgetWide => 0x45,
            Opcode::AgetObject => 0x46,
            Opcode::AgetBoolean => 0x47,
            Opcode::AgetByte => 0x48,
            Opcode::AgetChar => 0x49,
            Opcode::AgetShort => 0x4a,
            Opcode::Aput => 0x4b,
            Opcode::AputWide => 0x4c,
            Opcode::AputObject => 0x4d,
            Opcode::AputBoolean => 0x4e,
            Opcode::AputByte => 0x4f,
            Opcode::AputChar => 0x50,
            Opcode::AputShort => 0x51,
            Opcode::Iget => 0x52,
            Opcode::IgetWide => 0x53,
            Opcode::IgetObject => 0x54,
            Opcode::IgetBoolean => 0x55,
            Opcode::IgetByte => 0x56,
            Opcode::IgetChar => 0x57,
            Opcode::IgetShort => 0x58,
            Opcode::Iput => 0x59,
            Opcode::IputWide => 0x5a,
            Opcode::IputObject => 0x5b,
            Opcode::IputBoolean => 0x5c,
            Opcode::IputByte => 0x5d,
            Opcode::IputChar => 0x5e,
            Opcode::IputShort => 0x5f,
            Opcode::Sget => 0x60,
            Opcode::SgetWide => 0x61,
            Opcode::SgetObject => 0x62,
            Opcode::SgetBoolean => 0x63,
            Opcode::SgetByte => 0x64,
            Opcode::SgetChar => 0x65,
            Opcode::SgetShort => 0x66,
            Opcode::Sput => 0x67,
            Opcode::SputWide => 0x68,
            Opcode::SputObject => 0x69,
            Opcode::SputBoolean => 0x6a,
            Opcode::SputByte => 0x6b,
            Opcode::SputChar => 0x6c,
            Opcode::SputShort => 0x6d,
            Opcode::InvokeVirtual => 0x6e,
            Opcode::InvokeSuper => 0x6f,
            Opcode::InvokeDirect => 0x70,
            Opcode::InvokeStatic => 0x71,
            Opcode::InvokeInterface => 0x72,
            Opcode::InvokeVirtualRange => 0x74,
            Opcode::InvokeSuperRange => 0x75,
            Opcode::InvokeDirectRange => 0x76,
            Opcode::InvokeStaticRange => 0x77,
            Opcode::InvokeInterfaceRange => 0x78,
            Opcode::NegInt => 0x7b,
            Opcode::NotInt => 0x7c,
            Opcode::NegLong => 0x7d,
            Opcode::NotLong => 0x7e,
            Opcode::NegFloat => 0x7f,
            Opcode::NegDouble => 0x80,
            Opcode::IntToLong => 0x81,
            Opcode::IntToFloat => 0x82,
            Opcode::IntToDouble => 0x83,
            Opcode::LongToInt => 0x84,
            Opcode::LongToFloat => 0x85,
            Opcode::LongToDouble => 0x86,
            Opcode::FloatToInt => 0x87,
            Opcode::FloatToLong => 0x88,
            Opcode::FloatToDouble => 0x89,
            Opcode::DoubleToInt => 0x8a,
            Opcode::DoubleToLong => 0x8b,
            Opcode::DoubleToFloat => 0x8c,
            Opcode::IntToByte => 0x8d,
            Opcode::IntToChar => 0x8e,
            Opcode::IntToShort => 0x8f,
            Opcode::AddInt => 0x90,
            Opcode::SubInt => 0x91,
            Opcode::MulInt => 0x92,
            Opcode::DivInt => 0x93,
            Opcode::RemInt => 0x94,
            Opcode::AndInt => 0x95,
            Opcode::OrInt => 0x96,
            Opcode::XorInt => 0x97,
            Opcode::ShlInt => 0x98,
            Opcode::ShrInt => 0x99,
            Opcode::UshrInt => 0x9a,
            Opcode::AddLong => 0x9b,
            Opcode::SubLong => 0x9c,
            Opcode::MulLong => 0x9d,
            Opcode::DivLong => 0x9e,
            Opcode::RemLong => 0x9f,
            Opcode::AndLong => 0xa0,
            Opcode::OrLong => 0xa1,
            Opcode::XorLong => 0xa2,
            Opcode::ShlLong => 0xa3,
            Opcode::ShrLong => 0xa4,
            Opcode::UshrLong => 0xa5,
            Opcode::AddFloat => 0xa6,
            Opcode::SubFloat => 0xa7,
            Opcode::MulFloat => 0xa8,
            Opcode::DivFloat => 0xa9,
            Opcode::RemFloat => 0xaa,
            Opcode::AddDouble => 0xab,
            Opcode::SubDouble => 0xac,
            Opcode::MulDouble => 0xad,
            Opcode::DivDouble => 0xae,
            Opcode::RemDouble => 0xaf,
            Opcode::AddInt2Addr => 0xb0,
            Opcode::SubInt2Addr => 0xb1,
            Opcode::MulInt2Addr => 0xb2,
            Opcode::DivInt2Addr => 0xb3,
            Opcode::RemInt2Addr => 0xb4,
            Opcode::AndInt2Addr => 0xb5,
            Opcode::OrInt2Addr => 0xb6,
            Opcode::XorInt2Addr => 0xb7,
            Opcode::ShlInt2Addr => 0xb8,
            Opcode::ShrInt2Addr => 0xb9,
            Opcode::UshrInt2Addr => 0xba,
            Opcode::AddLong2Addr => 0xbb,
            Opcode::SubLong2Addr => 0xbc,
            Opcode::MulLong2Addr => 0xbd,
            Opcode::DivLong2Addr => 0xbe,
            Opcode::RemLong2Addr => 0xbf,
            Opcode::AndLong2Addr => 0xc0,
            Opcode::OrLong2Addr => 0xc1,
            Opcode::XorLong2Addr => 0xc2,
            Opcode::ShlLong2Addr => 0xc3,
            Opcode::ShrLong2Addr => 0xc4,
            Opcode::UshrLong2Addr => 0xc5,
            Opcode::AddFloat2Addr => 0xc6,
            Opcode::SubFloat2Addr => 0xc7,
            Opcode::MulFloat2Addr => 0xc8,
            Opcode::DivFloat2Addr => 0xc9,
            Opcode::RemFloat2Addr => 0xca,
            Opcode::AddDouble2Addr => 0xcb,
            Opcode::SubDouble2Addr => 0xcc,
            Opcode::MulDouble2Addr => 0xcd,
            Opcode::DivDouble2Addr => 0xce,
            Opcode::RemDouble2Addr => 0xcf,
            Opcode::AddIntLit16 => 0xd0,
            Opcode::RsubInt => 0xd1,
            Opcode::MulIntLit16 => 0xd2,
            Opcode::DivIntLit16 => 0xd3,
            Opcode::RemIntLit16 => 0xd4,
            Opcode::AndIntLit16 => 0xd5,
            Opcode::OrIntLit16 => 0xd6,
            Opcode::XorIntLit16 => 0xd7,
            Opcode::AddIntLit8 => 0xd8,
            Opcode::RsubIntLit8 => 0xd9,
            Opcode::MulIntLit8 => 0xda,
            Opcode::DivIntLit8 => 0xdb,
            Opcode::RemIntLit8 => 0xdc,
            Opcode::AndIntLit8 => 0xdd,
            Opcode::OrIntLit8 => 0xde,
            Opcode::XorIntLit8 => 0xdf,
            Opcode::ShlIntLit8 => 0xe0,
            Opcode::ShrIntLit8 => 0xe1,
            Opcode::UshrIntLit8 => 0xe2,
            Opcode::InvokePolymorphic => 0xfa,
            Opcode::InvokePolymorphicRange => 0xfb,
            Opcode::InvokeCustom => 0xfc,
            Opcode::InvokeCustomRange => 0xfd,
            Opcode::ConstMethodHandle => 0xfe,
            Opcode::ConstMethodType => 0xff,
        }
    }

    /// The operation whose opcode byte is `b`; `None` for the unassigned bytes.
    pub fn from_u8(b: u8) -> (r: Option<Opcode>)
        ensures
            match r {
                Some(op) => op.byte() == b,
                None => forall|op: Opcode| op.byte() != b,
            },
    {
        match b {
            0x00 => Some(Opcode::Nop),
            0x01 => Some(Opcode::Move),
            0x02 => Some(Opcode::MoveFrom16),
            0x03 => Some(Opcode::Move16),
            0x04 => Some(Opcode::MoveWide),
            0x05 => Some(Opcode::MoveWideFrom16),
            0x06 => Some(Opcode::MoveWide16),
            0x07 => Some(Opcode::MoveObject),
            0x08 => Some(Opcode::MoveObjectFrom16),
            0x09 => Some(Opcode::MoveObject16),
            0x0a => Some(Opcode::MoveResult),
            0x0b => Some(Opcode::MoveResultWide),
            0x0c => Some(Opcode::MoveResultObject),
            0x0d => Some(Opcode::MoveException),
            0x0e => Some(Opcode::ReturnVoid),
            0x0f => Some(Opcode::Return),
            0x10 => Some(Opcode::ReturnWide),
            0x11 => Some(Opcode::ReturnObject),
            0x12 => Some(Opcode::Const4),
            0x13 => Some(Opcode::Const16),
            0x14 => Some(Opcode::Const),
            0x15 => Some(Opcode::ConstHigh16),
            0x16 => Some(Opcode::ConstWide16),
            0x17 => Some(Opcode::ConstWide32),
            0x18 => Some(Opcode::ConstWide),
            0x19 => Some(Opcode::ConstWideHigh16),
            0x1a => Some(Opcode::ConstString),
            0x1b => Some(Opcode::ConstStringJumbo),
            0x1c => Some(Opcode::ConstClass),
            0x1d => Some(Opcode::MonitorEnter),
            0x1e => Some(Opcode::MonitorExit),
            0x1f => Some(Opcode::CheckCast),
            0x20 => Some(Opcode::InstanceOf),
            0x21 => Some(Opcode::ArrayLength),
            0x22 => Some(Opcode::NewInstance),
            0x23 => Some(Opcode::NewArray),
            0x24 => Some(Opcode::FilledNewArray),
            0x25 => Some(Opcode::FilledNewArrayRange),
            0x26 => Some(Opcode::FillArrayData),
            0x27 => Some(Opcode::Throw),
            0x28 => Some(Opcode::Goto),
            0x29 => Some(Opcode::Goto16),
            0x2a => Some(Opcode::Goto32),
            0x2b => Some(Opcode::PackedSwitch),
            0x2c => Some(Opcode::SparseSwitch),
            0x2d => Some(Opcode::CmplFloat),
            0x2e => Some(Opcode::CmpgFloat),
            0x2f => Some(Opcode::CmplDouble),
            0x30 => Some(Opcode::CmpgDouble),
            0x31 => Some(Opcode::CmpLong),
            0x32 => Some(Opcode::IfEq),
            0x33 => Some(Opcode::IfNe),
            0x34 => Some(Opcode::IfLt),
            0x35 => Some(Opcode::IfGe),
            0x36 => Some(Opcode::IfGt),
            0x37 => Some(Opcode::IfLe),
            0x38 => Some(Opcode::IfEqz),
            0x39 => Some(Opcode::IfNez),
            0x3a => Some(Opcode::IfLtz),
            0x3b => Some(Opcode::IfGez),
            0x3c => Some(Opcode::IfGtz),
            0x3d => Some(Opcode::IfLez),
            0x44 => Some(Opcode::Aget),
            0x45 => Some(Opcode::AgetWide),
            0x46 => Some(Opcode::AgetObject),
            0x47 => Some(Opcode::AgetBoolean),
            0x48 => Some(Opcode::AgetByte),
            0x49 => Some(Opcode::AgetChar),
            0x4a => Some(Opcode::AgetShort),
            0x4b => Some(Opcode::Aput),
            0x4c => Some(Opcode::AputWide),
            0x4d => Some(Opcode::AputObject),
            0x4e => Some(Opcode::AputBoolean),
            0x4f => Some(Opcode::AputByte),
            0x50 => Some(Opcode::AputChar),
            0x51 => Some(Opcode::AputShort),
            0x52 => Some(Opcode::Iget),
            0x53 => Some(Opcode::IgetWide),
            0x54 => Some(Opcode::IgetObject),
            0x55 => Some(Opcode::IgetBoolean),
            0x56 => Some(Opcode::IgetByte),
            0x57 => Some(Opcode::IgetChar),
            0x58 => Some(Opcode::IgetShort),
            0x59 => Some(Opcode::Iput),
            0x5a => Some(Opcode::IputWide),
            0x5b => Some(Opcode::IputObject),
            0x5c => Some(Opcode::IputBoolean),
            0x5d => Some(Opcode::IputByte),
            0x5e => Some(Opcode::IputChar),
            0x5f => Some(Opcode::IputShort),
            0x60 => Some(Opcode::Sget),
            0x61 => Some(Opcode::SgetWide),
            0x62 => Some(Opcode::SgetObject),
            0x63 => Some(Opcode::SgetBoolean),
            0x64 => Some(Opcode::SgetByte),
            0x65 => Some(Opcode::SgetChar),
            0x66 => Some(Opcode::SgetShort),
            0x67 => Some(Opcode::Sput),
            0x68 => Some(Opcode::SputWide),
            0x69 => Some(Opcode::SputObject),
            0x6a => Some(Opcode::SputBoolean),
            0x6b => Some(Opcode::SputByte),
            0x6c => Some(Opcode::SputChar),
            0x6d => Some(Opcode::SputShort),
            0x6e => Some(Opcode::InvokeVirtual),
            0x6f => Some(Opcode::InvokeSuper),
            0x70 => Some(Opcode::InvokeDirect),
            0x71 => Some(Opcode::InvokeStatic),
            0x72 => Some(Opcode::InvokeInterface),
            0x74 => Some(Opcode::InvokeVirtualRange),
            0x75 => Some(Opcode::InvokeSuperRange),
            0x76 => Some(Opcode::InvokeDirectRange),
            0x77 => Some(Opcode::InvokeStaticRange),
            0x78 => Some(Opcode::InvokeInterfaceRange),
            0x7b => Some(Opcode::NegInt),
            0x7c => Some(Opcode::NotInt),
            0x7d => Some(Opcode::NegLong),
            0x7e => Some(Opcode::NotLong),
            0x7f => Some(Opcode::NegFloat),
            0x80 => Some(Opcode::NegDouble),
            0x81 => Some(Opcode::IntToLong),
            0x82 => Some(Opcode::IntToFloat),
            0x83 => Some(Opcode::IntToDouble),
            0x84 => Some(Opcode::LongToInt),
            0x85 => Some(Opcode::LongToFloat),
            0x86 => Some(Opcode::LongToDouble),
            0x87 => Some(Opcode::FloatToInt),
            0x88 => Some(Opcode::FloatToLong),
            0x89 => Some(Opcode::FloatToDouble),
            0x8a => Some(Opcode::DoubleToInt),
            0x8b => Some(Opcode::DoubleToLong),
            0x8c => Some(Opcode::DoubleToFloat),
            0x8d => Some(Opcode::IntToByte),
            0x8e => Some(Opcode::IntToChar),
            0x8f => Some(Opcode::IntToShort),
            0x90 => Some(Opcode::AddInt),
            0x91 => Some(Opcode::SubInt),
            0x92 => Some(Opcode::MulInt),
            0x93 => Some(Opcode::DivInt),
            0x94 => Some(Opcode::RemInt),
            0x95 => Some(Opcode::AndInt),
            0x96 => Some(Opcode::OrInt),
            0x97 => Some(Opcode::XorInt),
            0x98 => Some(Opcode::ShlInt),
            0x99 => Some(Opcode::ShrInt),
            0x9a => Some(Opcode::UshrInt),
            0x9b => Some(Opcode::AddLong),
            0x9c => Some(Opcode::SubLong),
            0x9d => Some(Opcode::MulLong),
            0x9e => Some(Opcode::DivLong),
            0x9f => Some(Opcode::RemLong),
            0xa0 => Some(Opcode::AndLong),
            0xa1 => Some(Opcode::OrLong),
            0xa2 => Some(Opcode::XorLong),
            0xa3 => Some(Opcode::ShlLong),
            0xa4 => Some(Opcode::ShrLong),
            0xa5 => Some(Opcode::UshrLong),
            0xa6 => Some(Opcode::AddFloat),
            0xa7 => Some(Opcode::SubFloat),
            0xa8 => Some(Opcode::MulFloat),
            0xa9 => Some(Opcode::DivFloat),
            0xaa => Some(Opcode::RemFloat),
            0xab => Some(Opcode::AddDouble),
            0xac => Some(Opcode::SubDouble),
            0xad => Some(Opcode::MulDouble),
            0xae => Some(Opcode::DivDouble),
            0xaf => Some(Opcode::RemDouble),
            0xb0 => Some(Opcode::AddInt2Addr),
            0xb1 => Some(Opcode::SubInt2Addr),
            0xb2 => Some(Opcode::MulInt2Addr),
            0xb3 => Some(Opcode::DivInt2Addr),
            0xb4 => Some(Opcode::RemInt2Addr),
            0xb5 => Some(Opcode::AndInt2Addr),
            0xb6 => Some(Opcode::OrInt2Addr),
            0xb7 => Some(Opcode::XorInt2Addr),
            0xb8 => Some(Opcode::ShlInt2Addr),
            0xb9 => Some(Opcode::ShrInt2Addr),
            0xba => Some(Opcode::UshrInt2Addr),
            0xbb => Some(Opcode::AddLong2Addr),
            0xbc => Some(Opcode::SubLong2Addr),
            0xbd => Some(Opcode::MulLong2Addr),
            0xbe => Some(Opcode::DivLong2Addr),
            0xbf => Some(Opcode::RemLong2Addr),
            0xc0 => Some(Opcode::AndLong2Addr),
            0xc1 => Some(Opcode::OrLong2Addr),
            0xc2 => Some(Opcode::XorLong2Addr),
            0xc3 => Some(Opcode::ShlLong2Addr),
            0xc4 => Some(Opcode::ShrLong2Addr),
            0xc5 => Some(Opcode::UshrLong2Addr),
            0xc6 => Some(Opcode::AddFloat2Addr),
            0xc7 => Some(Opcode::SubFloat2Addr),
            0xc8 => Some(Opcode::MulFloat2Addr),
            0xc9 => Some(Opcode::DivFloat2Addr),
            0xca => Some(Opcode::RemFloat2Addr),
            0xcb => Some(Opcode::AddDouble2Addr),
            0xcc => Some(Opcode::SubDouble2Addr),
            0xcd => Some(Opcode::MulDouble2Addr),
            0xce => Some(Opcode::DivDouble2Addr),
            0xcf => Some(Opcode::RemDouble2Addr),
            0xd0 => Some(Opcode::AddIntLit16),
            0xd1 => Some(Opcode::RsubInt),
            0xd2 => Some(Opcode::MulIntLit16),
            0xd3 => Some(Opcode::DivIntLit16),
            0xd4 => Some(Opcode::RemIntLit16),
            0xd5 => Some(Opcode::AndIntLit16),
            0xd6 => Some(Opcode::OrIntLit16),
            0xd7 => Some(Opcode::XorIntLit16),
            0xd8 => Some(Opcode::AddIntLit8),
            0xd9 => Some(Opcode::RsubIntLit8),
            0xda => Some(Opcode::MulIntLit8),
            0xdb => Some(Opcode::DivIntLit8),
            0xdc => Some(Opcode::RemIntLit8),
            0xdd => Some(Opcode::AndIntLit8),
            0xde => Some(Opcode::OrIntLit8),
            0xdf => Some(Opcode::XorIntLit8),
            0xe0 => Some(Opcode::ShlIntLit8),
            0xe1 => Some(Opcode::ShrIntLit8),
            0xe2 => Some(Opcode::UshrIntLit8),
            0xfa => Some(Opcode::InvokePolymorphic),
            0xfb => Some(Opcode::InvokePolymorphicRange),
            0xfc => Some(Opcode::InvokeCustom),
            0xfd => Some(Opcode::InvokeCustomRange),
            0xfe => Some(Opcode::ConstMethodHandle),
            0xff => Some(Opcode::ConstMethodType),
            _ => None,
        }
    }

    /// The assembler mnemonic. What follows the first `/`, where there is one,
    /// names the encoding form.
    pub fn mnemonic(self) -> (r: &'static str)
        ensures
            r@ == self.spelling(),
    {
        match self {
            Opcode::Nop => "nop",
            Opcode::Move => "move",
            Opcode::MoveFrom16 => "move/from16",
            Opcode::Move16 => "move/16",
            Opcode::MoveWide => "move-wide",
            Opcode::MoveWideFrom16 => "move-wide/from16",
            Opcode::MoveWide16 => "move-wide/16",
            Opcode::MoveObject => "move-object",
            Opcode::MoveObjectFrom16 => "move-object/from16",
            Opcode::MoveObject16 => "move-object/16",
            Opcode::MoveResult => "move-result",
            Opcode::MoveResultWide => "move-result-wide",
            Opcode::MoveResultObject => "move-result-object",
            Opcode::MoveException => "move-exception",
            Opcode::ReturnVoid => "return-void",
            Opcode::Return => "return",
            Opcode::ReturnWide => "return-wide",
            Opcode::ReturnObject => "return-object",
            Opcode::Const4 => "const/4",
            Opcode::Const16 => "const/16",
            Opcode::Const => "const",
            Opcode::ConstHigh16 => "const/high16",
            Opcode::ConstWide16 => "const-wide/16",
            Opcode::ConstWide32 => "const-wide/32",
            Opcode::ConstWide => "const-wide",
            Opcode::ConstWideHigh16 => "const-wide/high16",
            Opcode::ConstString => "const-string",
            Opcode::ConstStringJumbo => "const-string/jumbo",
            Opcode::ConstClass => "const-class",
            Opcode::MonitorEnter => "monitor-enter",
            Opcode::MonitorExit => "monitor-exit",
            Opcode::CheckCast => "check-cast",
            Opcode::InstanceOf => "instance-of",
            Opcode::ArrayLength => "array-length",
            Opcode::NewInstance => "new-instance",
            Opcode::NewArray => "new-array",
            Opcode::FilledNewArray => "filled-new-array",
            Opcode::FilledNewArrayRange => "filled-new-array/range",
            Opcode::FillArrayData => "fill-array-data",
            Opcode::Throw => "throw",
            Opcode::Goto => "goto",
            Opcode::Goto16 => "goto/16",
            Opcode::Goto32 => "goto/32",
            Opcode::PackedSwitch => "packed-switch",
            Opcode::SparseSwitch => "sparse-switch",
            Opcode::CmplFloat => "cmpl-float",
            Opcode::CmpgFloat => "cmpg-float",
            Opcode::CmplDouble => "cmpl-double",
            Opcode::CmpgDouble => "cmpg-double",
            Opcode::CmpLong => "cmp-long",
            Opcode::IfEq => "if-eq",
            Opcode::IfNe => "if-ne",
            Opcode::IfLt => "if-lt",
            Opcode::IfGe => "if-ge",
            Opcode::IfGt => "if-gt",
            Opcode::IfLe => "if-le",
            Opcode::IfEqz => "if-eqz",
            Opcode::IfNez => "if-nez",
            Opcode::IfLtz => "if-ltz",
            Opcode::IfGez => "if-gez",
            Opcode::IfGtz => "if-gtz",
            Opcode::IfLez => "if-lez",
            Opcode::Aget => "aget",
            Opcode::AgetWide => "aget-wide",
            Opcode::AgetObject => "aget-object",
            Opcode::AgetBoolean => "aget-boolean",
            Opcode::AgetByte => "aget-byte",
            Opcode::AgetChar => "aget-char",
            Opcode::AgetShort => "aget-short",
            Opcode::Aput => "aput",
            Opcode::AputWide => "aput-wide",
            Opcode::AputObject => "aput-object",
            Opcode::AputBoolean => "aput-boolean",
            Opcode::AputByte => "aput-byte",
            Opcode::AputChar => "aput-char",
            Opcode::AputShort => "aput-short",
            Opcode::Iget => "iget",
            Opcode::IgetWide => "iget-wide",
            Opcode::IgetObject => "iget-object",
            Opcode::IgetBoolean => "iget-boolean",
            Opcode::IgetByte => "iget-byte",
            Opcode::IgetChar => "iget-char",
            Opcode::IgetShort => "iget-short",
            Opcode::Iput => "iput",
            Opcode::IputWide => "iput-wide",
            Opcode::IputObject => "iput-object",
            Opcode::IputBoolean => "iput-boolean",
            Opcode::IputByte => "iput-byte",
            Opcode::IputChar => "iput-char",
            Opcode::IputShort => "iput-short",
            Opcode::Sget => "sget",
            Opcode::SgetWide => "sget-wide",
            Opcode::SgetObject => "sget-object",
            Opcode::SgetBoolean => "sget-boolean",
            Opcode::SgetByte => "sget-byte",
            Opcode::SgetChar => "sget-char",
            Opcode::SgetShort => "sget-short",
            Opcode::Sput => "sput",
            Opcode::SputWide => "sput-wide",
            Opcode::SputObject => "sput-object",
            Opcode::SputBoolean => "sput-boolean",
            Opcode::SputByte => "sput-byte",
            Opcode::SputChar => "sput-char",
            Opcode::SputShort => "sput-short",
            Opcode::InvokeVirtual => "invoke-virtual",
            Opcode::InvokeSuper => "invoke-super",
            Opcode::InvokeDirect => "invoke-direct",
            Opcode::InvokeStatic => "invoke-static",
            Opcode::InvokeInterface => "invoke-interface",
            Opcode::InvokeVirtualRange => "invoke-virtual/range",
            Opcode::InvokeSuperRange => "invoke-super/range",
            Opcode::InvokeDirectRange => "invoke-direct/range",
            Opcode::InvokeStaticRange => "invoke-static/range",
            Opcode::InvokeInterfaceRange => "invoke-interface/range",
            Opcode::NegInt => "neg-int",
            Opcode::NotInt => "not-int",
            Opcode::NegLong => "neg-long",
            Opcode::NotLong => "not-long",
            Opcode::NegFloat => "neg-float",
            Opcode::NegDouble => "neg-double",
            Opcode::IntToLong => "int-to-long",
            Opcode::IntToFloat => "int-to-float",
            Opcode::IntToDouble => "int-to-double",
            Opcode::LongToInt => "long-to-int",
            Opcode::LongToFloat => "long-to-float",
            Opcode::LongToDouble => "long-to-double",
            Opcode::FloatToInt => "float-to-int",
            Opcode::FloatToLong => "float-to-long",
            Opcode::FloatToDouble => "float-to-double",
            Opcode::DoubleToInt => "double-to-int",
            Opcode::DoubleToLong => "double-to-long",
            Opcode::DoubleToFloat => "double-to-float",
            Opcode::IntToByte => "int-to-byte",
            Opcode::IntToChar => "int-to-char",
            Opcode::IntToShort => "int-to-short",
            Opcode::AddInt => "add-int",
            Opcode::SubInt => "sub-int",
            Opcode::MulInt => "mul-int",
            Opcode::DivInt => "div-int",
            Opcode::RemInt => "rem-int",
            Opcode::AndInt => "and-int",
            Opcode::OrInt => "or-int",
            Opcode::XorInt => "xor-int",
            Opcode::ShlInt => "shl-int",
            Opcode::ShrInt => "shr-int",
            Opcode::UshrInt => "ushr-int",
            Opcode::AddLong => "add-long",
            Opcode::SubLong => "sub-long",
            Opcode::MulLong => "mul-long",
            Opcode::DivLong => "div-long",
            Opcode::RemLong => "rem-long",
            Opcode::AndLong => "and-long",
            Opcode::OrLong => "or-long",
            Opcode::XorLong => "xor-long",
            Opcode::ShlLong => "shl-long",
            Opcode::ShrLong => "shr-long",
            Opcode::UshrLong => "ushr-long",
            Opcode::AddFloat => "add-float",
            Opcode::SubFloat => "sub-float",
            Opcode::MulFloat => "mul-float",
            Opcode::DivFloat => "div-float",
            Opcode::RemFloat => "rem-float",
            Opcode::AddDouble => "add-double",
            Opcode::SubDouble => "sub-double",
            Opcode::MulDouble => "mul-double",
            Opcode::DivDouble => "div-double",
            Opcode::RemDouble => "rem-double",
            Opcode::AddInt2Addr => "add-int/2addr",
            Opcode::SubInt2Addr => "sub-int/2addr",
            Opcode::MulInt2Addr => "mul-int/2addr",
            Opcode::DivInt2Addr => "div-int/2addr",
            Opcode::RemInt2Addr => "rem-int/2addr",
            Opcode::AndInt2Addr => "and-int/2addr",
            Opcode::OrInt2Addr => "or-int/2addr",
            Opcode::XorInt2Addr => "xor-int/2addr",
            Opcode::ShlInt2Addr => "shl-int/2addr",
            Opcode::ShrInt2Addr => "shr-int/2addr",
            Opcode::UshrInt2Addr => "ushr-int/2addr",
            Opcode::AddLong2Addr => "add-long/2addr",
            Opcode::SubLong2Addr => "sub-long/2addr",
            Opcode::MulLong2Addr => "mul-long/2addr",
            Opcode::DivLong2Addr => "div-long/2addr",
            Opcode::RemLong2Addr => "rem-long/2addr",
            Opcode::AndLong2Addr => "and-long/2addr",
            Opcode::OrLong2Addr => "or-long/2addr",
            Opcode::XorLong2Addr => "xor-long/2addr",
            Opcode::ShlLong2Addr => "shl-long/2addr",
            Opcode::ShrLong2Addr => "shr-long/2addr",
            Opcode::UshrLong2Addr => "ushr-long/2addr",
            Opcode::AddFloat2Addr => "add-float/2addr",
            Opcode::SubFloat2Addr => "sub-float/2addr",
            Opcode::MulFloat2Addr => "mul-float/2addr",
            Opcode::DivFloat2Addr => "div-float/2addr",
            Opcode::RemFloat2Addr => "rem-float/2addr",
            Opcode::AddDouble2Addr => "add-double/2addr",
            Opcode::SubDouble2Addr => "sub-double/2addr",
            Opcode::MulDouble2Addr => "mul-double/2addr",
            Opcode::DivDouble2Addr => "div-double/2addr",
            Opcode::RemDouble2Addr => "rem-double/2addr",
            Opcode::AddIntLit16 => "add-int/lit16",
            Opcode::RsubInt => "rsub-int",
            Opcode::MulIntLit16 => "mul-int/lit16",
            Opcode::DivIntLit16 => "div-int/lit16",
            Opcode::RemIntLit16 => "rem-int/lit16",
            Opcode::AndIntLit16 => "and-int/lit16",
            Opcode::OrIntLit16 => "or-int/lit16",
            Opcode::XorIntLit16 => "xor-int/lit16",
            Opcode::AddIntLit8 => "add-int/lit8",
            Opcode::RsubIntLit8 => "rsub-int/lit8",
            Opcode::MulIntLit8 => "mul-int/lit8",
            Opcode::DivIntLit8 => "div-int/lit8",
            Opcode::RemIntLit8 => "rem-int/lit8",
            Opcode::AndIntLit8 => "and-int/lit8",
            Opcode::OrIntLit8 => "or-int/lit8",
            Opcode::XorIntLit8 => "xor-int/lit8",
            Opcode::ShlIntLit8 => "shl-int/lit8",
            Opcode::ShrIntLit8 => "shr-int/lit8",
            Opcode::UshrIntLit8 => "ushr-int/lit8",
            Opcode::InvokePolymorphic => "invoke-polymorphic",
            Opcode::InvokePolymorphicRange => "invoke-polymorphic/range",
            Opcode::InvokeCustom => "invoke-custom",
            Opcode::InvokeCustomRange => "invoke-custom/range",
            Opcode::ConstMethodHandle => "const-method-handle",
            Opcode::ConstMethodType => "const-method-type",
        }
    }
}

/// The operand layout of `op`.
pub fn insn_format(op: Opcode) -> (r: InsnFormat)
    ensures
        r == op.layout(),
{
    match op {
        Opcode::Nop | Opcode::ReturnVoid => InsnFormat::F10x,
        Opcode::Move | Opcode::MoveWide | Opcode::MoveObject | Opcode::ArrayLength
        | Opcode::NegInt | Opcode::NotInt | Opcode::NegLong | Opcode::NotLong | Opcode::NegFloat
        | Opcode::NegDouble | Opcode::IntToLong | Opcode::IntToFloat | Opcode::IntToDouble
        | Opcode::LongToInt | Opcode::LongToFloat | Opcode::LongToDouble | Opcode::FloatToInt
        | Opcode::FloatToLong | Opcode::FloatToDouble | Opcode::DoubleToInt
        | Opcode::DoubleToLong | Opcode::DoubleToFloat | Opcode::IntToByte | Opcode::IntToChar
        | Opcode::IntToShort | Opcode::AddInt2Addr | Opcode::SubInt2Addr | Opcode::MulInt2Addr
        | Opcode::DivInt2Addr | Opcode::RemInt2Addr | Opcode::AndInt2Addr | Opcode::OrInt2Addr
        | Opcode::XorInt2Addr | Opcode::ShlInt2Addr | Opcode::ShrInt2Addr | Opcode::UshrInt2Addr
        | Opcode::AddLong2Addr | Opcode::SubLong2Addr | Opcode::MulLong2Addr
        | Opcode::DivLong2Addr | Opcode::RemLong2Addr | Opcode::AndLong2Addr
        | Opcode::OrLong2Addr | Opcode::XorLong2Addr | Opcode::ShlLong2Addr
        | Opcode::ShrLong2Addr | Opcode::UshrLong2Addr | Opcode::AddFloat2Addr
        | Opcode::SubFloat2Addr | Opcode::MulFloat2Addr | Opcode::DivFloat2Addr
        | Opcode::RemFloat2Addr | Opcode::AddDouble2Addr | Opcode::SubDouble2Addr
        | Opcode::MulDouble2Addr | Opcode::DivDouble2Addr | Opcode::RemDouble2Addr => InsnFormat::F12x,
        Opcode::Const4 => InsnFormat::F11n,
        Opcode::MoveResult | Opcode::MoveResultWide | Opcode::MoveResultObject
        | Opcode::MoveException | Opcode::Return | Opcode::ReturnWide | Opcode::ReturnObject
        | Opcode::MonitorEnter | Opcode::MonitorExit | Opcode::Throw => InsnFormat::F11x,
        Opcode::Goto => InsnFormat::F10t,
        Opcode::Goto16 => InsnFormat::F20t,
        Opcode::MoveFrom16 | Opcode::MoveWideFrom16 | Opcode::MoveObjectFrom16 => InsnFormat::F22x,
        Opcode::IfEqz | Opcode::IfNez | Opcode::IfLtz | Opcode::IfGez | Opcode::IfGtz
        | Opcode::IfLez => InsnFormat::F21t,
        Opcode::Const16 | Opcode::ConstWide16 => InsnFormat::F21s,
        Opcode::ConstHigh16 | Opcode::ConstWideHigh16 => InsnFormat::F21h,
        Opcode::ConstString | Opcode::ConstClass | Opcode::CheckCast | Opcode::NewInstance
        | Opcode::Sget | Opcode::SgetWide | Opcode::SgetObject | Opcode::SgetBoolean
        | Opcode::SgetByte | Opcode::SgetChar | Opcode::SgetShort | Opcode::Sput
        | Opcode::SputWide | Opcode::SputObject | Opcode::SputBoolean | Opcode::SputByte
        | Opcode::SputChar | Opcode::SputShort | Opcode::ConstMethodHandle
        | Opcode::ConstMethodType => InsnFormat::F21c,
        Opcode::CmplFloat | Opcode::CmpgFloat | Opcode::CmplDouble | Opcode::CmpgDouble
        | Opcode::CmpLong | Opcode::Aget | Opcode::AgetWide | Opcode::AgetObject
        | Opcode::AgetBoolean | Opcode::AgetByte | Opcode::AgetChar | Opcode::AgetShort
        | Opcode::Aput | Opcode::AputWide | Opcode::AputObject | Opcode::AputBoolean
        | Opcode::AputByte | Opcode::AputChar | Opcode::AputShort | Opcode::AddInt
        | Opcode::SubInt | Opcode::MulInt | Opcode::DivInt | Opcode::RemInt | Opcode::AndInt
        | Opcode::OrInt | Opcode::XorInt | Opcode::ShlInt | Opcode::ShrInt | Opcode::UshrInt
        | Opcode::AddLong | Opcode::SubLong | Opcode::MulLong | Opcode::DivLong
        | Opcode::RemLong | Opcode::AndLong | Opcode::OrLong | Opcode::XorLong | Opcode::ShlLong
        | Opcode::ShrLong | Opcode::UshrLong | Opcode::AddFloat | Opcode::SubFloat
        | Opcode::MulFloat | Opcode::DivFloat | Opcode::RemFloat | Opcode::AddDouble
        | Opcode::SubDouble | Opcode::MulDouble | Opcode::DivDouble | Opcode::RemDouble => InsnFormat::F23x,
        Opcode::IfEq | Opcode::IfNe | Opcode::IfLt | Opcode::IfGe | Opcode::IfGt | Opcode::IfLe => InsnFormat::F22t,
        Opcode::AddIntLit16 | Opcode::RsubInt | Opcode::MulIntLit16 | Opcode::DivIntLit16
        | Opcode::RemIntLit16 | Opcode::AndIntLit16 | Opcode::OrIntLit16 | Opcode::XorIntLit16 => InsnFormat::F22s,
        Opcode::InstanceOf | Opcode::NewArray | Opcode::Iget | Opcode::IgetWide
        | Opcode::IgetObject | Opcode::IgetBoolean | Opcode::IgetByte | Opcode::IgetChar
        | Opcode::IgetShort | Opcode::Iput | Opcode::IputWide | Opcode::IputObject
        | Opcode::IputBoolean | Opcode::IputByte | Opcode::IputChar | Opcode::IputShort => InsnFormat::F22c,
        Opcode::AddIntLit8 | Opcode::RsubIntLit8 | Opcode::MulIntLit8 | Opcode::DivIntLit8
        | Opcode::RemIntLit8 | Opcode::AndIntLit8 | Opcode::OrIntLit8 | Opcode::XorIntLit8
        | Opcode::ShlIntLit8 | Opcode::ShrIntLit8 | Opcode::UshrIntLit8 => InsnFormat::F22b,
        Opcode::Goto32 => InsnFormat::F30t,
        Opcode::Move16 | Opcode::MoveWide16 | Opcode::MoveObject16 => InsnFormat::F32x,
        Opcode::Const | Opcode::ConstWide32 => InsnFormat::F31i,
        Opcode::FillArrayData | Opcode::PackedSwitch | Opcode::SparseSwitch => InsnFormat::F31t,
        Opcode::ConstStringJumbo => InsnFormat::F31c,
        Opcode::FilledNewArray | Opcode::InvokeVirtual | Opcode::InvokeSuper
        | Opcode::InvokeDirect | Opcode::InvokeStatic | Opcode::InvokeInterface
        | Opcode::InvokeCustom => InsnFormat::F35c,
        Opcode::FilledNewArrayRange | Opcode::InvokeVirtualRange | Opcode::InvokeSuperRange
        | Opcode::InvokeDirectRange | Opcode::InvokeStaticRange | Opcode::InvokeInterfaceRange
        | Opcode::InvokeCustomRange => InsnFormat::F3rc,
        Opcode::InvokePolymorphic => InsnFormat::F45cc,
        Opcode::InvokePolymorphicRange => InsnFormat::F4rcc,
        Opcode::ConstWide => InsnFormat::F51l,
    }
}

impl InsnFormat {
    /// Length in 16-bit code units.
    pub open spec fn units(self) -> nat {
        match self {
            InsnFormat::F10x | InsnFormat::F12x | InsnFormat::F11n | InsnFormat::F11x
            | InsnFormat::F10t => 1,
            InsnFormat::F20t | InsnFormat::F22x | InsnFormat::F21t | InsnFormat::F21s
            | InsnFormat::F21h | InsnFormat::F21c | InsnFormat::F23x | InsnFormat::F22t
            | InsnFormat::F22s | InsnFormat::F22c | InsnFormat::F22b => 2,
            InsnFormat::F30t | InsnFormat::F32x | InsnFormat::F31i | InsnFormat::F31t
            | InsnFormat::F31c | InsnFormat::F35c | InsnFormat::F3rc => 3,
            InsnFormat::F45cc | InsnFormat::F4rcc => 4,
            InsnFormat::F51l => 5,
        }
    }
}

/// Length of a format in 16-bit code units.
pub fn format_size(fmt: InsnFormat) -> (r: u8)
    ensures
        r == fmt.units(),
{
    match fmt {
        InsnFormat::F10x | InsnFormat::F12x | InsnFormat::F11n | InsnFormat::F11x
        | InsnFormat::F10t => 1,
        InsnFormat::F20t | InsnFormat::F22x | InsnFormat::F21t | InsnFormat::F21s
        | InsnFormat::F21h | InsnFormat::F21c | InsnFormat::F23x | InsnFormat::F22t
        | InsnFormat::F22s | InsnFormat::F22c | InsnFormat::F22b => 2,
        InsnFormat::F30t | InsnFormat::F32x | InsnFormat::F31i | InsnFormat::F31t
        | InsnFormat::F31c | InsnFormat::F35c | InsnFormat::F3rc => 3,
        InsnFormat::F45cc | InsnFormat::F4rcc => 4,
        InsnFormat::F51l => 5,
    }
}

/// No two operations share an opcode byte.
pub proof fn opcode_bytes_are_distinct(a: Opcode, b: Opcode)
    requires
        a.byte() == b.byte(),
    ensures
        a == b,
{
}

} // verus!
