//! Decoded method bodies: instructions, payloads, try blocks, class members.
use std::collections::BTreeMap;
use vstd::prelude::*;

use crate::ids::{CallSiteIdx, FieldIdx, MethodIdx, ProtoIdx, StringIdx, TypeIdx};
use crate::opcodes::Opcode;

verus! {

/// The source registers of an instruction. Up to five registers are held one by
/// one; a longer list is a run of consecutive registers of which the first five
/// are held.
#[derive(Debug, Clone, Copy, PartialEq, Eq)]
pub struct RegList {
    pub regs: [u16; 5],
    pub count: u8,
}

impl RegList {
    /// The registers that are held one by one.
    pub open spec fn held(self) -> Seq<u16> {
        self.regs@.take(if self.count <= 5 { self.count as int } else { 5 })
    }

    /// Every register of the list, a long list being a run from the first one.
    pub open spec fn listed(self) -> Seq<u16> {
        if self.count <= 5 {
            self.regs@.take(self.count as int)
        } else {
            Seq::new(self.count as nat, |i: int| ((self.regs@[0] + i) % 0x10000) as u16)
        }
    }

    /// No registers.
    pub fn empty() -> (r: RegList)
        ensures
            r.listed() == Seq::<u16>::empty(),
            r.held() == Seq::<u16>::empty(),
            r.regs@[0] == 0,
    {
        RegList { regs: [0, 0, 0, 0, 0], count: 0 }
    }

    /// One register.
    pub fn one(a: u16) -> (r: RegList)
        ensures
            r.listed() == seq![a],
            r.held() == seq![a],
    {
        RegList { regs: [a, 0, 0, 0, 0], count: 1 }
    }

    /// Two registers.
    pub fn two(a: u16, b: u16) -> (r: RegList)
        ensures
            r.listed() == seq![a, b],
            r.held() == seq![a, b],
    {
        RegList { regs: [a, b, 0, 0, 0], count: 2 }
    }

    /// The registers of `s`: all of them up to five, and a run that starts at the
    /// first for more. At most 255 registers are counted.
    pub fn from_slice(s: &[u16]) -> (r: RegList)
        ensures
            r.count == (if s@.len() <= 255 { s@.len() as int } else { 255 }),
            r.held() == s@.take(if s@.len() <= 5 { s@.len() as int } else { 5 }),
            s@.len() <= 5 ==> r.listed() == s@,
    {
        let count: u8 = if s.len() <= 255 { s.len() as u8 } else { 255 };
        let mut regs: [u16; 5] = [0, 0, 0, 0, 0];
        let n: usize = if s.len() <= 5 { s.len() } else { 5 };
        let mut i: usize = 0;
        while i < n
            invariant
                i <= n <= 5,
                n <= s@.len(),
                forall|j: int| 0 <= j < i ==> regs@[j] == s@[j],
            decreases n - i,
        {
            regs[i] = s[i];
            i = i + 1;
        }
        RegList { regs, count }
    }

    /// The registers that are held one by one, at most five.
    pub fn as_slice(&self) -> (r: &[u16])
        ensures
            r@ == self.held(),
    {
        let n: usize = if self.count <= 5 { self.count as usize } else { 5 };
        vstd::slice::slice_subrange(self.regs.as_slice(), 0, n)
    }

    /// Every register of the list in order.
    pub fn registers(&self) -> (r: Vec<u16>)
        ensures
            r@ == self.listed(),
    {
        let mut out: Vec<u16> = Vec::new();
        let mut i: usize = 0;
        let n: usize = self.count as usize;
        while i < n
            invariant
                i <= n == self.count <= 255,
                out@.len() == i,
                forall|j: int| 0 <= j < i ==> out@[j] == self.listed()[j],
            decreases n - i,
        {
            if n <= 5 {
                out.push(self.regs[i]);
            } else {
                let wide: u32 = self.regs[0] as u32 + i as u32;
                out.push((wide % 0x10000) as u16);
            }
            i = i + 1;
        }
        out
    }

    /// Number of registers in the list.
    pub fn len(&self) -> (r: usize)
        ensures
            r == self.listed().len(),
            r == self.count,
    {
        self.count as usize
    }

    /// Whether the list names no register.
    pub fn is_empty(&self) -> (r: bool)
        ensures
            r == (self.listed().len() == 0),
            r == (self.count == 0),
    {
        self.count == 0
    }

    /// The held register at position `i`, whatever the length of the list; 0 past
    /// the fifth position.
    pub fn raw_at(&self, i: usize) -> (r: u16)
        ensures
            r == (if i < 5 { self.regs@[i as int] } else { 0 }),
    {
        if i < 5 {
            self.regs[i]
        } else {
            0
        }
    }
}

/// Reference from an instruction into one of the id pools.
#[derive(Debug, Clone, Copy, PartialEq, Eq)]
pub enum PoolIndex {
    String(StringIdx),
    Type(TypeIdx),
    Field(FieldIdx),
    Method(MethodIdx),
    MethodAndProto(MethodIdx, ProtoIdx),
    CallSite(CallSiteIdx),
}

/// A decoded instruction. Addresses and targets count 16-bit code units.
#[derive(Debug, Clone, Copy, PartialEq, Eq)]
pub struct Instruction {
    pub addr: u32,
    pub op: Opcode,
    /// Length in code units.
    pub size: u8,
    pub dst: Option<u16>,
    pub src: RegList,
    pub literal: i64,
    pub target: Option<u32>,
    pub pool_idx: Option<PoolIndex>,
}

/// Data block referenced by a switch or fill-array-data instruction. Switch
/// targets are absolute code-unit addresses.
#[derive(Debug, Clone, PartialEq, Eq)]
pub enum PayloadData {
    PackedSwitch { first_key: i32, targets: Vec<u32> },
    SparseSwitch { keys: Vec<i32>, targets: Vec<u32> },
    FillArrayData { element_width: u16, data: Vec<u8> },
}

/// A protected range of instructions and the handler that covers it.
#[derive(Debug, Clone, Copy, PartialEq, Eq, Structural)]
pub struct TryItem {
    pub start_addr: u32,
    pub insn_count: u16,
    pub handler_idx: usize,
}

/// One typed catch clause.
#[derive(Debug, Clone, Copy, PartialEq, Eq, Structural)]
pub struct TypedCatch {
    pub exception_type: TypeIdx,
    pub handler_addr: u32,
}

/// The catch clauses of a try block.
#[derive(Debug, Clone, PartialEq, Eq)]
pub struct CatchHandler {
    pub catches: Vec<TypedCatch>,
    pub catch_all_addr: Option<u32>,
}

/// A field of a class.
#[derive(Debug, Clone, Copy, PartialEq, Eq, Structural)]
pub struct EncodedField {
    pub field_idx: FieldIdx,
    pub access_flags: u32,
}

/// A method of a class. A `code_off` of 0 means no body.
#[derive(Debug, Clone, Copy, PartialEq, Eq, Structural)]
pub struct EncodedMethod {
    pub method_idx: MethodIdx,
    pub access_flags: u32,
    pub code_off: u32,
}

/// The members of a class.
#[derive(Debug, Clone, PartialEq, Eq)]
pub struct ClassData {
    pub static_fields: Vec<EncodedField>,
    pub instance_fields: Vec<EncodedField>,
    pub direct_methods: Vec<EncodedMethod>,
    pub virtual_methods: Vec<EncodedMethod>,
}

/// An anomaly met while an instruction stream was decoded.
#[derive(Debug, Clone, Copy, PartialEq, Eq, Structural)]
pub enum CodeItemInvariantViolation {
    /// A byte that is no opcode: what follows it may be misaligned.
    UnknownOpcodeByte { source_pc: u32, opcode_byte: u8 },
    /// Any other anomaly; the stream stays aligned.
    Aligned { source_pc: u32 },
}

/// A method body.
#[derive(Debug, Clone)]
pub struct CodeItem {
    pub registers_size: u16,
    pub ins_size: u16,
    pub outs_size: u16,
    pub debug_info_off: u32,
    pub instructions: Vec<Instruction>,
    pub tries: Vec<TryItem>,
    pub catch_handlers: Vec<CatchHandler>,
    /// Payloads by code-unit address.
    pub payloads: BTreeMap<u32, PayloadData>,
    pub invariant_violations: Vec<CodeItemInvariantViolation>,
}

} // verus!
