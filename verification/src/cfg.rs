//! The basic blocks of a method.
use vstd::prelude::*;

use crate::decode::Instruction;

verus! {

/// A basic block is known by a number.
pub type BlockIdx = u32;

/// Instructions that run one after the other.
#[derive(Debug, Clone)]
pub struct BasicBlock {
    pub id: BlockIdx,
    pub instructions: Vec<Instruction>,
}

/// The basic blocks of a method and the one it starts with.
#[derive(Debug, Clone)]
pub struct Cfg {
    pub entry: BlockIdx,
    pub blocks: Vec<BasicBlock>,
}

} // verus!
