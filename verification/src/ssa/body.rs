//! The form of a method in which every value has a name of its own.
use std::collections::BTreeMap;
use vstd::prelude::*;
use vstd::string::*;

use crate::cfg::BlockIdx;
use crate::decode::Instruction;
use crate::text::{decimal, push_decimal};

verus! {

/// The name of a value: the register that holds it and a number that tells it from
/// other values in the same register.
#[derive(Debug, Clone, Copy, PartialEq, Eq, PartialOrd, Ord, Hash, Structural)]
pub struct VarId {
    pub reg: u16,
    pub ver: u32,
}

impl VarId {
    /// The name with the given register and number.
    pub fn new(reg: u16, ver: u32) -> (r: VarId)
        ensures
            r.reg == reg,
            r.ver == ver,
    {
        VarId { reg, ver }
    }

    /// The register.
    pub fn reg(&self) -> (r: u16)
        ensures
            r == self.reg,
    {
        self.reg
    }

    /// The number.
    pub fn ver(&self) -> (r: u32)
        ensures
            r == self.ver,
    {
        self.ver
    }

    /// The name as text.
    pub open spec fn text(self) -> Seq<char> {
        "v"@ + decimal(self.reg as nat) + "_"@ + decimal(self.ver as nat)
    }

    /// The name as text, which is an identifier: a letter, the register, an underscore
    /// and the number.
    pub fn to_text(&self) -> (r: String)
        ensures
            r@ == self.text(),
    {
        let mut s = String::from_str("v");
        push_decimal(&mut s, self.reg as u64);
        s.append("_");
        push_decimal(&mut s, self.ver as u64);
        s
    }
}

/// A value that is one of several, depending on where the block was entered from.
#[derive(Debug, Clone)]
pub struct PhiNode {
    pub dst: VarId,
    /// The value for each block that the block may be entered from.
    pub operands: BTreeMap<BlockIdx, VarId>,
}

/// An instruction and the names of the values that it makes and uses.
#[derive(Debug, Clone)]
pub struct SsaInsn {
    pub insn: Instruction,
    pub dst: Option<VarId>,
    pub uses: Vec<VarId>,
}

/// A basic block.
#[derive(Debug, Clone)]
pub struct SsaBlock {
    pub id: BlockIdx,
    pub phis: Vec<PhiNode>,
    pub insns: Vec<SsaInsn>,
}

/// A method.
#[derive(Debug)]
pub struct SsaBody {
    pub blocks: BTreeMap<BlockIdx, SsaBlock>,
    pub entry: BlockIdx,
    /// How many names have been given.
    pub var_counter: u32,
    /// The parameters, in the order of their registers.
    pub param_vars: Vec<VarId>,
}

/// A phi, by content.
#[verifier::ext_equal]
pub struct Phi {
    pub dst: VarId,
    pub operands: Map<u32, VarId>,
}

/// An instruction, by content.
#[verifier::ext_equal]
pub struct Named {
    pub insn: Instruction,
    pub dst: Option<VarId>,
    pub uses: Seq<VarId>,
}

/// A basic block, by content.
#[verifier::ext_equal]
pub struct Block {
    pub id: u32,
    pub phis: Seq<Phi>,
    pub insns: Seq<Named>,
}

impl View for PhiNode {
    type V = Phi;

    open spec fn view(&self) -> Phi {
        Phi { dst: self.dst, operands: self.operands@ }
    }
}

impl View for SsaInsn {
    type V = Named;

    open spec fn view(&self) -> Named {
        Named { insn: self.insn, dst: self.dst, uses: self.uses@ }
    }
}

/// The contents of phis.
pub open spec fn phis_of(v: Seq<PhiNode>) -> Seq<Phi> {
    v.map_values(|p: PhiNode| p@)
}

/// The contents of instructions.
pub open spec fn insns_of(v: Seq<SsaInsn>) -> Seq<Named> {
    v.map_values(|i: SsaInsn| i@)
}

impl View for SsaBlock {
    type V = Block;

    open spec fn view(&self) -> Block {
        Block { id: self.id, phis: phis_of(self.phis@), insns: insns_of(self.insns@) }
    }
}

/// The contents of blocks.
pub open spec fn blocks_of(v: Seq<SsaBlock>) -> Seq<Block> {
    v.map_values(|b: SsaBlock| b@)
}

} // verus!
