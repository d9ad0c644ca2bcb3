//! What the emulated instructions are, and what they compute.
use vstd::prelude::*;

use crate::emulator::error::EmulatorError;
use crate::opcodes::Opcode;

verus! {

/// An operation on two integers.
#[derive(Debug, Clone, Copy, PartialEq, Eq, Structural)]
pub enum Operator {
    Add,
    Sub,
    /// The second less the first.
    Rsub,
    Mul,
    Div,
    Rem,
    And,
    Or,
    Xor,
    Shl,
    Shr,
    Ushr,
}

/// Where the operands of an operation are.
#[derive(Debug, Clone, Copy, PartialEq, Eq, Structural)]
pub enum Form {
    /// In two source registers.
    ThreeRegisters,
    /// In the destination and in one source register.
    TwoRegisters,
    /// In one source register and in an 8-bit literal.
    ShortLiteral,
    /// In one source register and in a 16-bit literal.
    LongLiteral,
}

/// The width of an array element.
#[derive(Debug, Clone, Copy, PartialEq, Eq, Structural)]
pub enum Lane {
    Int,
    Byte,
    Char,
    Boolean,
    Short,
}

/// A comparison.
#[derive(Debug, Clone, Copy, PartialEq, Eq, Structural)]
pub enum Test {
    Eq,
    Ne,
    Lt,
    Ge,
    Gt,
    Le,
}

/// What an instruction does.
#[derive(Debug, Clone, Copy, PartialEq, Eq, Structural)]
pub enum Kind {
    Nop,
    Const,
    ConstWide,
    ConstString,
    Move,
    MoveResult,
    ReturnVoid,
    Return,
    Compute(Form, Operator),
    NewArray,
    ArrayGet(Lane),
    ArrayPut(Lane),
    Branch(Test),
    BranchZero(Test),
    Goto,
    Call { receiver: bool },
    OtherCall,
    MoveException,
    Other,
}

/// What an instruction does.
pub open spec fn kind(op: Opcode) -> Kind {
    match op {
        Opcode::Nop => Kind::Nop,
        Opcode::Const4 | Opcode::Const16 | Opcode::Const | Opcode::ConstHigh16 => Kind::Const,
        Opcode::ConstWide16 | Opcode::ConstWide32 | Opcode::ConstWide | Opcode::ConstWideHigh16 => Kind::ConstWide,
        Opcode::ConstString | Opcode::ConstStringJumbo => Kind::ConstString,
        Opcode::Move | Opcode::MoveFrom16 | Opcode::Move16 | Opcode::MoveObject | Opcode::MoveObjectFrom16 | Opcode::MoveObject16 | Opcode::MoveWide | Opcode::MoveWideFrom16 | Opcode::MoveWide16 => Kind::Move,
        Opcode::MoveResult | Opcode::MoveResultWide | Opcode::MoveResultObject => Kind::MoveResult,
        Opcode::ReturnVoid => Kind::ReturnVoid,
        Opcode::Return | Opcode::ReturnObject | Opcode::ReturnWide => Kind::Return,
        Opcode::AddInt => Kind::Compute(Form::ThreeRegisters, Operator::Add),
        Opcode::SubInt => Kind::Compute(Form::ThreeRegisters, Operator::Sub),
        Opcode::MulInt => Kind::Compute(Form::ThreeRegisters, Operator::Mul),
        Opcode::DivInt => Kind::Compute(Form::ThreeRegisters, Operator::Div),
        Opcode::RemInt => Kind::Compute(Form::ThreeRegisters, Operator::Rem),
        Opcode::AndInt => Kind::Compute(Form::ThreeRegisters, Operator::And),
        Opcode::OrInt => Kind::Compute(Form::ThreeRegisters, Operator::Or),
        Opcode::XorInt => Kind::Compute(Form::ThreeRegisters, Operator::Xor),
        Opcode::ShlInt => Kind::Compute(Form::ThreeRegisters, Operator::Shl),
        Opcode::ShrInt => Kind::Compute(Form::ThreeRegisters, Operator::Shr),
        Opcode::UshrInt => Kind::Compute(Form::ThreeRegisters, Operator::Ushr),
        Opcode::AddInt2Addr => Kind::Compute(Form::TwoRegisters, Operator::Add),
        Opcode::SubInt2Addr => Kind::Compute(Form::TwoRegisters, Operator::Sub),
        Opcode::MulInt2Addr => Kind::Compute(Form::TwoRegisters, Operator::Mul),
        Opcode::DivInt2Addr => Kind::Compute(Form::TwoRegisters, Operator::Div),
        Opcode::RemInt2Addr => Kind::Compute(Form::TwoRegisters, Operator::Rem),
        Opcode::AndInt2Addr => Kind::Compute(Form::TwoRegisters, Operator::And),
        Opcode::OrInt2Addr => Kind::Compute(Form::TwoRegisters, Operator::Or),
        Opcode::XorInt2Addr => Kind::Compute(Form::TwoRegisters, Operator::Xor),
        Opcode::ShlInt2Addr => Kind::Compute(Form::TwoRegisters, Operator::Shl),
        Opcode::ShrInt2Addr => Kind::Compute(Form::TwoRegisters, Operator::Shr),
        Opcode::UshrInt2Addr => Kind::Compute(Form::TwoRegisters, Operator::Ushr),
        Opcode::AddIntLit8 => Kind::Compute(Form::ShortLiteral, Operator::Add),
        Opcode::RsubIntLit8 => Kind::Compute(Form::ShortLiteral, Operator::Rsub),
        Opcode::MulIntLit8 => Kind::Compute(Form::ShortLiteral, Operator::Mul),
        Opcode::DivIntLit8 => Kind::Compute(Form::ShortLiteral, Operator::Div),
        Opcode::RemIntLit8 => Kind::Compute(Form::ShortLiteral, Operator::Rem),
        Opcode::AndIntLit8 => Kind::Compute(Form::ShortLiteral, Operator::And),
        Opcode::OrIntLit8 => Kind::Compute(Form::ShortLiteral, Operator::Or),
        Opcode::XorIntLit8 => Kind::Compute(Form::ShortLiteral, Operator::Xor),
        Opcode::ShlIntLit8 => Kind::Compute(Form::ShortLiteral, Operator::Shl),
        Opcode::ShrIntLit8 => Kind::Compute(Form::ShortLiteral, Operator::Shr),
        Opcode::UshrIntLit8 => Kind::Compute(Form::ShortLiteral, Operator::Ushr),
        Opcode::AddIntLit16 => Kind::Compute(Form::LongLiteral, Operator::Add),
        Opcode::RsubInt => Kind::Compute(Form::LongLiteral, Operator::Rsub),
        Opcode::MulIntLit16 => Kind::Compute(Form::LongLiteral, Operator::Mul),
        Opcode::DivIntLit16 => Kind::Compute(Form::LongLiteral, Operator::Div),
        Opcode::RemIntLit16 => Kind::Compute(Form::LongLiteral, Operator::Rem),
        Opcode::AndIntLit16 => Kind::Compute(Form::LongLiteral, Operator::And),
        Opcode::OrIntLit16 => Kind::Compute(Form::LongLiteral, Operator::Or),
        Opcode::XorIntLit16 => Kind::Compute(Form::LongLiteral, Operator::Xor),
        Opcode::NewArray => Kind::NewArray,
        Opcode::Aget => Kind::ArrayGet(Lane::Int),
        Opcode::AgetByte => Kind::ArrayGet(Lane::Byte),
        Opcode::AgetChar => Kind::ArrayGet(Lane::Char),
        Opcode::AgetBoolean => Kind::ArrayGet(Lane::Boolean),
        Opcode::AgetShort => Kind::ArrayGet(Lane::Short),
        Opcode::Aput => Kind::ArrayPut(Lane::Int),
        Opcode::AputByte => Kind::ArrayPut(Lane::Byte),
        Opcode::AputChar => Kind::ArrayPut(Lane::Char),
        Opcode::AputBoolean => Kind::ArrayPut(Lane::Boolean),
        Opcode::AputShort => Kind::ArrayPut(Lane::Short),
        Opcode::IfEq => Kind::Branch(Test::Eq),
        Opcode::IfNe => Kind::Branch(Test::Ne),
        Opcode::IfLt => Kind::Branch(Test::Lt),
        Opcode::IfGe => Kind::Branch(Test::Ge),
        Opcode::IfGt => Kind::Branch(Test::Gt),
        Opcode::IfLe => Kind::Branch(Test::Le),
        Opcode::IfEqz => Kind::BranchZero(Test::Eq),
        Opcode::IfNez => Kind::BranchZero(Test::Ne),
        Opcode::IfLtz => Kind::BranchZero(Test::Lt),
        Opcode::IfGez => Kind::BranchZero(Test::Ge),
        Opcode::IfGtz => Kind::BranchZero(Test::Gt),
        Opcode::IfLez => Kind::BranchZero(Test::Le),
        Opcode::Goto | Opcode::Goto16 | Opcode::Goto32 => Kind::Goto,
        Opcode::InvokeVirtual | Opcode::InvokeDirect | Opcode::InvokeVirtualRange | Opcode::InvokeDirectRange => Kind::Call { receiver: true },
        Opcode::InvokeStatic | Opcode::InvokeStaticRange => Kind::Call { receiver: false },
        Opcode::InvokeSuper | Opcode::InvokeInterface | Opcode::InvokeSuperRange | Opcode::InvokeInterfaceRange | Opcode::InvokePolymorphic | Opcode::InvokePolymorphicRange | Opcode::InvokeCustom | Opcode::InvokeCustomRange => Kind::OtherCall,
        Opcode::MoveException => Kind::MoveException,
        _ => Kind::Other,
    }
}

/// What an instruction does.
pub fn kind_of(op: Opcode) -> (r: Kind)
    ensures
        r == kind(op),
{
    match op {
        Opcode::Nop => Kind::Nop,
        Opcode::Const4 | Opcode::Const16 | Opcode::Const | Opcode::ConstHigh16 => Kind::Const,
        Opcode::ConstWide16 | Opcode::ConstWide32 | Opcode::ConstWide | Opcode::ConstWideHigh16 => Kind::ConstWide,
        Opcode::ConstString | Opcode::ConstStringJumbo => Kind::ConstString,
        Opcode::Move | Opcode::MoveFrom16 | Opcode::Move16 | Opcode::MoveObject | Opcode::MoveObjectFrom16 | Opcode::MoveObject16 | Opcode::MoveWide | Opcode::MoveWideFrom16 | Opcode::MoveWide16 => Kind::Move,
        Opcode::MoveResult | Opcode::MoveResultWide | Opcode::MoveResultObject => Kind::MoveResult,
        Opcode::ReturnVoid => Kind::ReturnVoid,
        Opcode::Return | Opcode::ReturnObject | Opcode::ReturnWide => Kind::Return,
        Opcode::AddInt => Kind::Compute(Form::ThreeRegisters, Operator::Add),
        Opcode::SubInt => Kind::Compute(Form::ThreeRegisters, Operator::Sub),
        Opcode::MulInt => Kind::Compute(Form::ThreeRegisters, Operator::Mul),
        Opcode::DivInt => Kind::Compute(Form::ThreeRegisters, Operator::Div),
        Opcode::RemInt => Kind::Compute(Form::ThreeRegisters, Operator::Rem),
        Opcode::AndInt => Kind::Compute(Form::ThreeRegisters, Operator::And),
        Opcode::OrInt => Kind::Compute(Form::ThreeRegisters, Operator::Or),
        Opcode::XorInt => Kind::Compute(Form::ThreeRegisters, Operator::Xor),
        Opcode::ShlInt => Kind::Compute(Form::ThreeRegisters, Operator::Shl),
        Opcode::ShrInt => Kind::Compute(Form::ThreeRegisters, Operator::Shr),
        Opcode::UshrInt => Kind::Compute(Form::ThreeRegisters, Operator::Ushr),
        Opcode::AddInt2Addr => Kind::Compute(Form::TwoRegisters, Operator::Add),
        Opcode::SubInt2Addr => Kind::Compute(Form::TwoRegisters, Operator::Sub),
        Opcode::MulInt2Addr => Kind::Compute(Form::TwoRegisters, Operator::Mul),
        Opcode::DivInt2Addr => Kind::Compute(Form::TwoRegisters, Operator::Div),
        Opcode::RemInt2Addr => Kind::Compute(Form::TwoRegisters, Operator::Rem),
        Opcode::AndInt2Addr => Kind::Compute(Form::TwoRegisters, Operator::And),
        Opcode::OrInt2Addr => Kind::Compute(Form::TwoRegisters, Operator::Or),
        Opcode::XorInt2Addr => Kind::Compute(Form::TwoRegisters, Operator::Xor),
        Opcode::ShlInt2Addr => Kind::Compute(Form::TwoRegisters, Operator::Shl),
        Opcode::ShrInt2Addr => Kind::Compute(Form::TwoRegisters, Operator::Shr),
        Opcode::UshrInt2Addr => Kind::Compute(Form::TwoRegisters, Operator::Ushr),
        Opcode::AddIntLit8 => Kind::Compute(Form::ShortLiteral, Operator::Add),
        Opcode::RsubIntLit8 => Kind::Compute(Form::ShortLiteral, Operator::Rsub),
        Opcode::MulIntLit8 => Kind::Compute(Form::ShortLiteral, Operator::Mul),
        Opcode::DivIntLit8 => Kind::Compute(Form::ShortLiteral, Operator::Div),
        Opcode::RemIntLit8 => Kind::Compute(Form::ShortLiteral, Operator::Rem),
        Opcode::AndIntLit8 => Kind::Compute(Form::ShortLiteral, Operator::And),
        Opcode::OrIntLit8 => Kind::Compute(Form::ShortLiteral, Operator::Or),
        Opcode::XorIntLit8 => Kind::Compute(Form::ShortLiteral, Operator::Xor),
        Opcode::ShlIntLit8 => Kind::Compute(Form::ShortLiteral, Operator::Shl),
        Opcode::ShrIntLit8 => Kind::Compute(Form::ShortLiteral, Operator::Shr),
        Opcode::UshrIntLit8 => Kind::Compute(Form::ShortLiteral, Operator::Ushr),
        Opcode::AddIntLit16 => Kind::Compute(Form::LongLiteral, Operator::Add),
        Opcode::RsubInt => Kind::Compute(Form::LongLiteral, Operator::Rsub),
        Opcode::MulIntLit16 => Kind::Compute(Form::LongLiteral, Operator::Mul),
        Opcode::DivIntLit16 => Kind::Compute(Form::LongLiteral, Operator::Div),
        Opcode::RemIntLit16 => Kind::Compute(Form::LongLiteral, Operator::Rem),
        Opcode::AndIntLit16 => Kind::Compute(Form::LongLiteral, Operator::And),
        Opcode::OrIntLit16 => Kind::Compute(Form::LongLiteral, Operator::Or),
        Opcode::XorIntLit16 => Kind::Compute(Form::LongLiteral, Operator::Xor),
        Opcode::NewArray => Kind::NewArray,
        Opcode::Aget => Kind::ArrayGet(Lane::Int),
        Opcode::AgetByte => Kind::ArrayGet(Lane::Byte),
        Opcode::AgetChar => Kind::ArrayGet(Lane::Char),
        Opcode::AgetBoolean => Kind::ArrayGet(Lane::Boolean),
        Opcode::AgetShort => Kind::ArrayGet(Lane::Short),
        Opcode::Aput => Kind::ArrayPut(Lane::Int),
        Opcode::AputByte => Kind::ArrayPut(Lane::Byte),
        Opcode::AputChar => Kind::ArrayPut(Lane::Char),
        Opcode::AputBoolean => Kind::ArrayPut(Lane::Boolean),
        Opcode::AputShort => Kind::ArrayPut(Lane::Short),
        Opcode::IfEq => Kind::Branch(Test::Eq),
        Opcode::IfNe => Kind::Branch(Test::Ne),
        Opcode::IfLt => Kind::Branch(Test::Lt),
        Opcode::IfGe => Kind::Branch(Test::Ge),
        Opcode::IfGt => Kind::Branch(Test::Gt),
        Opcode::IfLe => Kind::Branch(Test::Le),
        Opcode::IfEqz => Kind::BranchZero(Test::Eq),
        Opcode::IfNez => Kind::BranchZero(Test::Ne),
        Opcode::IfLtz => Kind::BranchZero(Test::Lt),
        Opcode::IfGez => Kind::BranchZero(Test::Ge),
        Opcode::IfGtz => Kind::BranchZero(Test::Gt),
        Opcode::IfLez => Kind::BranchZero(Test::Le),
        Opcode::Goto | Opcode::Goto16 | Opcode::Goto32 => Kind::Goto,
        Opcode::InvokeVirtual | Opcode::InvokeDirect | Opcode::InvokeVirtualRange | Opcode::InvokeDirectRange => Kind::Call { receiver: true },
        Opcode::InvokeStatic | Opcode::InvokeStaticRange => Kind::Call { receiver: false },
        Opcode::InvokeSuper | Opcode::InvokeInterface | Opcode::InvokeSuperRange | Opcode::InvokeInterfaceRange | Opcode::InvokePolymorphic | Opcode::InvokePolymorphicRange | Opcode::InvokeCustom | Opcode::InvokeCustomRange => Kind::OtherCall,
        Opcode::MoveException => Kind::MoveException,
        _ => Kind::Other,
    }
}

/// The size of a number.
pub open spec fn magnitude(n: int) -> int {
    if n < 0 {
        -n
    } else {
        n
    }
}

/// The quotient, rounded toward zero. The one that does not fit in 32 bits wraps
/// around.
pub open spec fn quotient(a: i32, b: i32) -> i32 {
    let q = magnitude(a as int) / magnitude(b as int);
    if a == i32::MIN && b == -1 {
        i32::MIN
    } else if (a < 0) == (b < 0) {
        q as i32
    } else {
        (-q) as i32
    }
}

/// The remainder, with the sign of `a`.
pub open spec fn remainder(a: i32, b: i32) -> i32 {
    let r = magnitude(a as int) % magnitude(b as int);
    if a < 0 {
        (-r) as i32
    } else {
        r as i32
    }
}

/// The result of an operation. Only division by zero has none. Shift distances
/// count modulo 32.
pub open spec fn computed(op: Operator, a: i32, b: i32) -> Option<i32> {
    match op {
        Operator::Add => Some(a.wrapping_add(b)),
        Operator::Sub => Some(a.wrapping_sub(b)),
        Operator::Rsub => Some(b.wrapping_sub(a)),
        Operator::Mul => Some(a.wrapping_mul(b)),
        Operator::Div => if b == 0 {
            None
        } else {
            Some(quotient(a, b))
        },
        Operator::Rem => if b == 0 {
            None
        } else {
            Some(remainder(a, b))
        },
        Operator::And => Some(a & b),
        Operator::Or => Some(a | b),
        Operator::Xor => Some(a ^ b),
        Operator::Shl => Some(a << (b & 31)),
        Operator::Shr => Some(a >> (b & 31)),
        Operator::Ushr => Some(((a as u32) >> ((b & 31) as u32)) as i32),
    }
}

fn divide(a: i32, b: i32) -> (r: i32)
    requires
        b != 0,
    ensures
        r == quotient(a, b),
{
    if a == i32::MIN && b == -1 {
        return i32::MIN;
    }
    let x: u64 = if a < 0 { (-(a as i64)) as u64 } else { a as u64 };
    let y: u64 = if b < 0 { (-(b as i64)) as u64 } else { b as u64 };
    let q: u64 = x / y;
    assert(q <= x) by (nonlinear_arith)
        requires
            q == x / y,
            y >= 1,
    ;
    proof {
        if y >= 2 {
            assert(x / y <= x / 2) by (nonlinear_arith)
                requires
                    y >= 2,
            ;
        }
    }
    if (a < 0) == (b < 0) {
        q as i32
    } else {
        (-(q as i64)) as i32
    }
}

fn take_remainder(a: i32, b: i32) -> (r: i32)
    requires
        b != 0,
    ensures
        r == remainder(a, b),
{
    let x: u64 = if a < 0 { (-(a as i64)) as u64 } else { a as u64 };
    let y: u64 = if b < 0 { (-(b as i64)) as u64 } else { b as u64 };
    let m: u64 = x % y;
    assert(m < y && m <= x) by (nonlinear_arith)
        requires
            m == x % y,
            y >= 1,
    ;
    if a < 0 {
        (-(m as i64)) as i32
    } else {
        m as i32
    }
}

fn shift_distance(b: i32) -> (r: u32)
    ensures
        r == (b & 31) as u32,
        r == b & 31,
        r < 32,
{
    assert(0 <= (b & 31) < 32) by (bit_vector);
    (b & 31) as u32
}

/// Computes an operation.
pub fn compute(op: Operator, a: i32, b: i32) -> (r: Result<i32, EmulatorError>)
    ensures
        match computed(op, a, b) {
            Some(v) => r == Ok::<i32, EmulatorError>(v),
            None => r == Err::<i32, EmulatorError>(EmulatorError::DivisionByZero),
        },
{
    match op {
        Operator::Add => Ok(a.wrapping_add(b)),
        Operator::Sub => Ok(a.wrapping_sub(b)),
        Operator::Rsub => Ok(b.wrapping_sub(a)),
        Operator::Mul => Ok(a.wrapping_mul(b)),
        Operator::Div => if b == 0 {
            Err(EmulatorError::DivisionByZero)
        } else {
            Ok(divide(a, b))
        },
        Operator::Rem => if b == 0 {
            Err(EmulatorError::DivisionByZero)
        } else {
            Ok(take_remainder(a, b))
        },
        Operator::And => Ok(a & b),
        Operator::Or => Ok(a | b),
        Operator::Xor => Ok(a ^ b),
        Operator::Shl => {
            let k: u32 = shift_distance(b);
            Ok(a << k)
        },
        Operator::Shr => {
            let k: u32 = shift_distance(b);
            Ok(a >> k)
        },
        Operator::Ushr => {
            let k: u32 = shift_distance(b);
            Ok(((a as u32) >> k) as i32)
        },
    }
}

/// A number cut to the width of an array element.
pub open spec fn narrowed(lane: Lane, v: i32) -> i32 {
    match lane {
        Lane::Int => v,
        Lane::Byte => (v as i8) as i32,
        Lane::Char => v & 0xFFFF,
        Lane::Boolean => v & 1,
        Lane::Short => (v as i16) as i32,
    }
}

/// Cuts a number to the width of an array element.
pub fn narrow(lane: Lane, v: i32) -> (r: i32)
    ensures
        r == narrowed(lane, v),
{
    match lane {
        Lane::Int => v,
        Lane::Byte => (v as i8) as i32,
        Lane::Char => v & 0xFFFF,
        Lane::Boolean => v & 1,
        Lane::Short => (v as i16) as i32,
    }
}

/// A comparison holds.
pub open spec fn holds(test: Test, a: i32, b: i32) -> bool {
    match test {
        Test::Eq => a == b,
        Test::Ne => a != b,
        Test::Lt => a < b,
        Test::Ge => a >= b,
        Test::Gt => a > b,
        Test::Le => a <= b,
    }
}

/// Whether a comparison holds.
pub fn check(test: Test, a: i32, b: i32) -> (r: bool)
    ensures
        r == holds(test, a, b),
{
    match test {
        Test::Eq => a == b,
        Test::Ne => a != b,
        Test::Lt => a < b,
        Test::Ge => a >= b,
        Test::Gt => a > b,
        Test::Le => a <= b,
    }
}

// Laws

/// Quotient and remainder make up the dividend, and the remainder is nearer to zero
/// than the divisor. The one quotient that wraps around leaves no remainder.
pub proof fn division_is_exact(a: i32, b: i32)
    requires
        b != 0,
    ensures
        magnitude(remainder(a, b) as int) < magnitude(b as int),
        if a == i32::MIN && b == -1 {
            quotient(a, b) == i32::MIN && remainder(a, b) == 0
        } else {
            quotient(a, b) * b + remainder(a, b) == a
        },
{
    let m = magnitude(a as int);
    let n = magnitude(b as int);
    vstd::arithmetic::div_mod::lemma_fundamental_div_mod(m, n);
    vstd::arithmetic::div_mod::lemma_mod_bound(m, n);
    vstd::arithmetic::div_mod::lemma_div_is_ordered_by_denominator(m, 1, n);
    assert(m / 1 == m);
    let q = m / n;
    assert(0 <= q <= m) by {
        vstd::arithmetic::div_mod::lemma_div_pos_is_pos(m, n);
    }
    assert(n * q == q * n) by (nonlinear_arith);
    assert((-q) * b == -(q * b)) by (nonlinear_arith);
    assert(q * (-n) == -(q * n)) by (nonlinear_arith);
    if q == m && a == i32::MIN {
        assert(n == 1) by (nonlinear_arith)
            requires
                n * q + m % n == m,
                q == m,
                m == 0x8000_0000,
                0 <= m % n < n,
                n >= 1,
        ;
    }
}

/// What has the width of an array element keeps it: storing what was loaded stores the
/// same number, and loading what was stored loads it.
pub proof fn narrowing_again_changes_nothing(lane: Lane, v: i32)
    ensures
        narrowed(lane, narrowed(lane, v)) == narrowed(lane, v),
{
    assert(((v as i8) as i32) as i8 == v as i8) by (bit_vector);
    assert(((v as i16) as i32) as i16 == v as i16) by (bit_vector);
    assert((v & 0xFFFF) & 0xFFFF == v & 0xFFFF) by (bit_vector);
    assert((v & 1) & 1 == v & 1) by (bit_vector);
}

} // verus!
