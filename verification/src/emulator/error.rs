//! What can go wrong in an execution.
use vstd::prelude::*;

use crate::text::{decimal, push_decimal, push_signed, signed_decimal};

verus! {

/// What went wrong.
#[derive(Debug)]
pub enum EmulatorError {
    /// The method did not return within the allowed number of instructions.
    BudgetExceeded { budget: u32 },
    /// There is no such register.
    RegisterOutOfRange { reg: u16, size: u16 },
    /// There is no such element.
    ArrayOutOfBounds { index: i32, length: usize },
    /// Something that is not emulated.
    Unsupported { feature: &'static str },
    /// A division by zero.
    DivisionByZero,
    /// There is no such string.
    StringPoolOob { idx: u32, size: usize },
    /// The instructions make no sense.
    InstructionError { detail: &'static str },
    /// A register holds another kind of value.
    TypeMismatch { expected: &'static str, got: &'static str },
    /// An array was to have a negative length.
    NegativeArrayLength { length: i32 },
    /// An array was to be longer than allowed.
    ArrayTooLarge { length: usize, cap: usize },
    /// A method that nobody stands in for.
    UnsupportedMethod { class: String, name: String },
    /// A call whose method is not known.
    InvokeResolutionError { detail: &'static str },
}

impl EmulatorError {
    /// The text of the error.
    pub open spec fn text(self) -> Seq<char> {
        match self {
            EmulatorError::BudgetExceeded { budget } => "emulator budget exceeded after "@
                + decimal(budget as nat) + " instructions"@,
            EmulatorError::RegisterOutOfRange { reg, size } => "register "@ + decimal(reg as nat)
                + " out of range (register file size "@ + decimal(size as nat) + ")"@,
            EmulatorError::ArrayOutOfBounds { index, length } => "array index "@ + signed_decimal(
                index as int,
            ) + " out of bounds (array length "@ + decimal(length as nat) + ")"@,
            EmulatorError::Unsupported { feature } => "unsupported: "@ + feature@,
            EmulatorError::DivisionByZero => "division by zero"@,
            EmulatorError::StringPoolOob { idx, size } => "string pool index "@ + decimal(
                idx as nat,
            ) + " out of bounds (pool size "@ + decimal(size as nat) + ")"@,
            EmulatorError::InstructionError { detail } => "instruction stream error: "@ + detail@,
            EmulatorError::TypeMismatch { expected, got } => "type mismatch: expected "@
                + expected@ + ", got "@ + got@,
            EmulatorError::NegativeArrayLength { length } => "negative array length "@
                + signed_decimal(length as int),
            EmulatorError::ArrayTooLarge { length, cap } => "array length "@ + decimal(
                length as nat,
            ) + " exceeds emulator cap "@ + decimal(cap as nat),
            EmulatorError::UnsupportedMethod { class, name } => "unsupported method: "@ + class@
                + "."@ + name@,
            EmulatorError::InvokeResolutionError { detail } =>
                "invoke method resolution failed: "@ + detail@,
        }
    }

    /// The text of the error.
    pub fn message(&self) -> (r: String)
        ensures
            r@ == self.text(),
    {
        let mut s = String::new();
        match self {
            EmulatorError::BudgetExceeded { budget } => {
                s.append("emulator budget exceeded after ");
                push_decimal(&mut s, *budget as u64);
                s.append(" instructions");
            },
            EmulatorError::RegisterOutOfRange { reg, size } => {
                s.append("register ");
                push_decimal(&mut s, *reg as u64);
                s.append(" out of range (register file size ");
                push_decimal(&mut s, *size as u64);
                s.append(")");
            },
            EmulatorError::ArrayOutOfBounds { index, length } => {
                s.append("array index ");
                push_signed(&mut s, *index as i64);
                s.append(" out of bounds (array length ");
                push_decimal(&mut s, *length as u64);
                s.append(")");
            },
            EmulatorError::Unsupported { feature } => {
                s.append("unsupported: ");
                s.append(feature);
            },
            EmulatorError::DivisionByZero => {
                s.append("division by zero");
            },
            EmulatorError::StringPoolOob { idx, size } => {
                s.append("string pool index ");
                push_decimal(&mut s, *idx as u64);
                s.append(" out of bounds (pool size ");
                push_decimal(&mut s, *size as u64);
                s.append(")");
            },
            EmulatorError::InstructionError { detail } => {
                s.append("instruction stream error: ");
                s.append(detail);
            },
            EmulatorError::TypeMismatch { expected, got } => {
                s.append("type mismatch: expected ");
                s.append(expected);
                s.append(", got ");
                s.append(got);
            },
            EmulatorError::NegativeArrayLength { length } => {
                s.append("negative array length ");
                push_signed(&mut s, *length as i64);
            },
            EmulatorError::ArrayTooLarge { length, cap } => {
                s.append("array length ");
                push_decimal(&mut s, *length as u64);
                s.append(" exceeds emulator cap ");
                push_decimal(&mut s, *cap as u64);
            },
            EmulatorError::UnsupportedMethod { class, name } => {
                s.append("unsupported method: ");
                s.append(class.as_str());
                s.append(".");
                s.append(name.as_str());
            },
            EmulatorError::InvokeResolutionError { detail } => {
                s.append("invoke method resolution failed: ");
                s.append(detail);
            },
        }
        assert(s@ =~= self.text());
        s
    }
}

} // verus!
