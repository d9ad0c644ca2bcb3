//! Methods in the form in which every value has a name.
use std::collections::BTreeMap;

use droidsaw_dex::cfg::{BasicBlock, Cfg};
use droidsaw_dex::decode::{CodeItem, Instruction, RegList};
use droidsaw_dex::emulator::make_code_item;
use droidsaw_dex::opcodes::Opcode;
use droidsaw_dex::ssa::naming::{name_requests, NameRequest, Names};
use droidsaw_dex::ssa::phis::remove_trivial_phis;
use droidsaw_dex::ssa::registers::classify_reg_use;
use droidsaw_dex::ssa::{PhiNode, SsaBlock, SsaBody, SsaInsn, VarId};

fn op(op: Opcode) -> Instruction {
    Instruction {
        addr: 0,
        op,
        size: 1,
        dst: None,
        src: RegList::empty(),
        literal: 0,
        target: None,
        pool_idx: None,
    }
}

fn set(code: Opcode, reg: u16) -> Instruction {
    Instruction { dst: Some(reg), ..op(code) }
}

fn v(reg: u16, ver: u32) -> VarId {
    VarId::new(reg, ver)
}

fn phi(dst: VarId, operands: &[(u32, VarId)]) -> PhiNode {
    PhiNode { dst, operands: operands.iter().copied().collect() }
}

fn block(id: u32, instructions: Vec<Instruction>) -> BasicBlock {
    BasicBlock { id, instructions }
}

/// Two arms write the register that the last block returns.
fn diamond() -> (CodeItem, Cfg) {
    let cfg = Cfg {
        entry: 0,
        blocks: vec![
            block(0, vec![set(Opcode::IfEqz, 1)]),
            block(1, vec![set(Opcode::Const4, 0)]),
            block(2, vec![set(Opcode::Const4, 0)]),
            block(3, vec![set(Opcode::Return, 0)]),
        ],
    };
    (make_code_item(2, 1, Vec::new()), cfg)
}

#[test]
fn requests_follow_the_instructions() {
    let (code, cfg) = diamond();
    assert_eq!(
        name_requests(&code, &cfg),
        [
            NameRequest::Fresh { reg: 1 },
            NameRequest::Write { block: 0, reg: 1 },
            NameRequest::Read { block: 0, reg: 1 },
            NameRequest::Fresh { reg: 0 },
            NameRequest::Write { block: 1, reg: 0 },
            NameRequest::Fresh { reg: 0 },
            NameRequest::Write { block: 2, reg: 0 },
            NameRequest::Read { block: 3, reg: 0 },
        ]
    );
}

#[test]
fn wide_values_name_both_registers() {
    let code = make_code_item(2, 0, Vec::new());
    let cfg = Cfg { entry: 0, blocks: vec![block(0, vec![set(Opcode::ConstWide, 0)])] };
    assert_eq!(
        name_requests(&code, &cfg),
        [
            NameRequest::Fresh { reg: 0 },
            NameRequest::Write { block: 0, reg: 0 },
            NameRequest::Write { block: 0, reg: 1 },
        ]
    );
    assert!(classify_reg_use(&set(Opcode::ConstWide, 0)).def_wide);
}

#[test]
fn a_merge_keeps_its_phi() {
    let (code, cfg) = diamond();
    let mut phis = BTreeMap::new();
    phis.insert(3, vec![phi(v(0, 3), &[(1, v(0, 1)), (2, v(0, 2))])]);
    let names = Names {
        answers: vec![v(1, 0), v(1, 0), v(0, 1), v(0, 2), v(0, 3)],
        phis,
        var_count: 4,
    };
    let body = SsaBody::build(&code, &cfg, &names).expect("every request is answered");
    assert_eq!(body.entry, 0);
    assert_eq!(body.var_counter, 4);
    assert_eq!(body.param_vars, [v(1, 0)]);
    assert_eq!(body.blocks.len(), 4);
    assert_eq!(body.blocks[&1].insns[0].dst, Some(v(0, 1)));
    assert_eq!(body.blocks[&3].phis.len(), 1);
    assert_eq!(body.blocks[&3].phis[0].dst, v(0, 3));
    assert_eq!(body.blocks[&3].insns[0].uses, [v(0, 3)]);
    assert_eq!(body.blocks[&0].insns[0].uses, [v(1, 0)]);
}

#[test]
fn a_phi_of_one_value_is_that_value() {
    let (code, cfg) = diamond();
    let mut phis = BTreeMap::new();
    phis.insert(3, vec![phi(v(0, 3), &[(1, v(0, 1)), (2, v(0, 1)), (3, v(0, 3))])]);
    let names = Names {
        answers: vec![v(1, 0), v(1, 0), v(0, 1), v(0, 2), v(0, 3)],
        phis,
        var_count: 4,
    };
    let body = SsaBody::build(&code, &cfg, &names).expect("every request is answered");
    assert!(body.blocks[&3].phis.is_empty());
    assert_eq!(body.blocks[&3].insns[0].uses, [v(0, 1)]);
}

#[test]
fn unanswered_requests_give_no_body() {
    let (code, cfg) = diamond();
    let names = Names { answers: vec![v(1, 0)], phis: BTreeMap::new(), var_count: 1 };
    assert!(SsaBody::build(&code, &cfg, &names).is_none());
}

fn simplified(phis: Vec<PhiNode>, uses: Vec<VarId>) -> SsaBlock {
    let insn = SsaInsn { insn: op(Opcode::Nop), dst: None, uses };
    let mut blocks = remove_trivial_phis(vec![SsaBlock { id: 0, phis, insns: vec![insn] }]);
    assert_eq!(blocks.len(), 1);
    blocks.remove(0)
}

#[test]
fn chains_of_phis_collapse() {
    let (x, a, b, c) = (v(0, 0), v(0, 1), v(0, 2), v(0, 3));
    let block = simplified(
        vec![phi(a, &[(1, x), (2, x)]), phi(b, &[(1, a), (2, a)]), phi(c, &[(1, b), (2, x)])],
        vec![a, b, c, x],
    );
    assert!(block.phis.is_empty());
    assert_eq!(block.insns[0].uses, [x, x, x, x]);
}

#[test]
fn phis_with_two_values_stay() {
    let (x, y, a, b) = (v(0, 0), v(0, 1), v(0, 2), v(0, 3));
    let block = simplified(
        vec![phi(a, &[(1, x), (2, y), (3, a)]), phi(b, &[(1, a), (2, a)])],
        vec![b],
    );
    assert_eq!(block.phis.len(), 1);
    assert_eq!(block.phis[0].dst, a);
    assert_eq!(block.insns[0].uses, [a]);
    let again = remove_trivial_phis(vec![block]);
    assert_eq!(again[0].phis.len(), 1);
}

#[test]
fn kept_phis_keep_their_names_and_blocks() {
    let (x, y, a, b, c) = (v(0, 0), v(0, 1), v(0, 2), v(0, 3), v(0, 4));
    let block = simplified(
        vec![
            phi(a, &[(1, x), (2, y)]),
            phi(b, &[(1, x), (7, x)]),
            phi(c, &[(3, b), (4, y), (9, a)]),
        ],
        vec![],
    );
    assert_eq!(block.phis.len(), 2);
    assert_eq!(block.phis[0].dst, a);
    assert_eq!(block.phis[1].dst, c);
    assert_eq!(block.phis[1].operands, BTreeMap::from([(3, x), (4, y), (9, a)]));
}

#[test]
fn removing_phis_again_changes_nothing() {
    let (x, y, a, b) = (v(0, 0), v(0, 1), v(0, 2), v(0, 3));
    let once = simplified(
        vec![phi(a, &[(1, x), (2, y)]), phi(b, &[(1, a), (2, b)])],
        vec![a, b, x],
    );
    assert_eq!(once.insns[0].uses, [a, a, x]);
    let twice = remove_trivial_phis(vec![once.clone()]).remove(0);
    assert_eq!(twice.phis.len(), once.phis.len());
    assert_eq!(twice.phis[0].operands, once.phis[0].operands);
    assert_eq!(twice.insns[0].uses, once.insns[0].uses);
}

#[test]
fn phis_in_a_cycle_leave_names_without_values() {
    let (a, b, c) = (v(0, 1), v(0, 2), v(0, 3));
    let block = simplified(
        vec![phi(a, &[(1, b)]), phi(b, &[(1, a)]), phi(c, &[(1, a)])],
        vec![a, b, c],
    );
    assert!(block.phis.is_empty());
    assert_eq!(block.insns[0].uses, [b, a, a]);
}

#[test]
fn each_answer_goes_to_its_instruction() {
    let (code, cfg) = diamond();
    let mut answers = Vec::new();
    for request in name_requests(&code, &cfg) {
        match request {
            NameRequest::Fresh { reg } | NameRequest::Read { reg, .. } => {
                answers.push(v(reg, answers.len() as u32));
            }
            NameRequest::Write { .. } => {}
        }
    }
    let names = Names { answers, phis: BTreeMap::new(), var_count: 0 };
    let body = SsaBody::build(&code, &cfg, &names).expect("one answer for each request");
    let mut next = code.ins_size as u32;
    for b in &cfg.blocks {
        for (insn, named) in b.instructions.iter().zip(&body.blocks[&b.id].insns) {
            let used = classify_reg_use(insn);
            assert_eq!(named.uses.len(), used.reads.len());
            for (reg, name) in used.reads.iter().zip(&named.uses) {
                assert_eq!(*name, v(*reg, next));
                next += 1;
            }
            assert_eq!(named.dst.is_some(), used.def.is_some());
            if let Some(reg) = used.def {
                assert_eq!(named.dst, Some(v(reg, next)));
                next += 1;
            }
        }
    }
    assert_eq!(next as usize, names.answers.len());
}
