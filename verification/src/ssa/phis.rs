//! Removal of phis that choose between no two values.
use std::collections::BTreeMap;
use vstd::prelude::*;

use crate::collections::{bind, entries, sorted_keys};
use crate::ssa::body::{
    blocks_of, insns_of, phis_of, Block, Named, Phi, PhiNode, SsaBlock, SsaInsn, VarId,
};
use crate::ssa::renaming::Renaming;

verus! {

/// `v` is the one value that a phi stands for: all its operands are `v` or the phi
/// itself.
pub open spec fn only(phi: Phi, v: VarId) -> bool {
    &&& v != phi.dst
    &&& exists|b: u32| #[trigger] phi.operands.contains_key(b) && phi.operands[b] == v
    &&& forall|b: u32| #[trigger]
        phi.operands.contains_key(b) ==> phi.operands[b] == v || phi.operands[b] == phi.dst
}

/// The one value that a phi stands for, if there is one.
pub open spec fn sole(phi: Phi) -> Option<VarId> {
    if exists|v: VarId| only(phi, v) {
        Some(choose|v: VarId| only(phi, v))
    } else {
        None
    }
}

/// What the first `n` phis stand for, on top of `known`.
pub open spec fn phis_found(phis: Seq<Phi>, n: nat, known: Map<VarId, VarId>) -> Map<VarId, VarId>
    decreases n,
{
    if n == 0 {
        known
    } else {
        let front = phis_found(phis, (n - 1) as nat, known);
        match sole(phis[n - 1]) {
            Some(v) => front.insert(phis[n - 1].dst, v),
            None => front,
        }
    }
}

/// What the phis of the first `n` blocks stand for.
pub open spec fn blocks_found(blocks: Seq<Block>, n: nat) -> Map<VarId, VarId>
    decreases n,
{
    if n == 0 {
        Map::empty()
    } else {
        phis_found(
            blocks[n - 1].phis,
            blocks[n - 1].phis.len(),
            blocks_found(blocks, (n - 1) as nat),
        )
    }
}

/// How many phis the first `n` blocks have.
pub open spec fn phi_count(blocks: Seq<Block>, n: nat) -> nat
    decreases n,
{
    if n == 0 {
        0
    } else {
        phi_count(blocks, (n - 1) as nat) + blocks[n - 1].phis.len()
    }
}

/// Where a chain of values ends within `steps` steps.
pub open spec fn chain_end(m: Map<VarId, VarId>, v: VarId, steps: nat) -> Option<VarId>
    decreases steps,
{
    if !m.contains_key(v) {
        Some(v)
    } else if steps == 0 {
        None
    } else {
        chain_end(m, m[v], (steps - 1) as nat)
    }
}

/// Every value mapped to the end of its chain. One whose chain does not end within
/// `steps` steps stays as it is.
pub open spec fn chained(m: Map<VarId, VarId>, steps: nat) -> Map<VarId, VarId> {
    Map::new(
        |v: VarId| m.contains_key(v),
        |v: VarId|
            match chain_end(m, v, steps) {
                Some(e) => e,
                None => m[v],
            },
    )
}

/// The value that stands for `v`.
pub open spec fn instead(m: Map<VarId, VarId>, v: VarId) -> VarId {
    if m.contains_key(v) {
        m[v]
    } else {
        v
    }
}

/// A phi with its operands replaced.
pub open spec fn phi_with(phi: Phi, m: Map<VarId, VarId>) -> Phi {
    Phi { dst: phi.dst, operands: phi.operands.map_values(|v: VarId| instead(m, v)) }
}

/// Those of the first `n` phis that are not replaced, with their operands replaced.
pub open spec fn phis_with(phis: Seq<Phi>, m: Map<VarId, VarId>, n: nat) -> Seq<Phi>
    decreases n,
{
    if n == 0 {
        Seq::empty()
    } else {
        let front = phis_with(phis, m, (n - 1) as nat);
        if m.contains_key(phis[n - 1].dst) {
            front
        } else {
            front.push(phi_with(phis[n - 1], m))
        }
    }
}

/// An instruction with the values that it uses replaced.
pub open spec fn insn_with(i: Named, m: Map<VarId, VarId>) -> Named {
    Named { uses: i.uses.map_values(|v: VarId| instead(m, v)), ..i }
}

/// A block with values replaced and without the phis that are.
pub open spec fn block_with(b: Block, m: Map<VarId, VarId>) -> Block {
    Block {
        id: b.id,
        phis: phis_with(b.phis, m, b.phis.len()),
        insns: b.insns.map_values(|i: Named| insn_with(i, m)),
    }
}

/// Blocks with values replaced and without the phis that are.
pub open spec fn blocks_with(blocks: Seq<Block>, m: Map<VarId, VarId>) -> Seq<Block> {
    blocks.map_values(|b: Block| block_with(b, m))
}

/// What is replaced in one round.
pub open spec fn replaced(blocks: Seq<Block>) -> Map<VarId, VarId> {
    chained(blocks_found(blocks, blocks.len()), phi_count(blocks, blocks.len()))
}

/// The blocks after all rounds: phis that stand for one value are replaced by it
/// until there are none.
pub open spec fn minimal(blocks: Seq<Block>) -> Seq<Block>
    decreases phi_count(blocks, blocks.len()),
{
    if blocks_found(blocks, blocks.len()) == Map::<VarId, VarId>::empty() {
        blocks
    } else {
        proof {
            rounds_remove_phis(blocks);
        }
        minimal(blocks_with(blocks, replaced(blocks)))
    }
}

proof fn found_phi(phis: Seq<Phi>, n: nat, known: Map<VarId, VarId>, v: VarId)
    requires
        phis_found(phis, n, known).contains_key(v),
        n <= phis.len(),
    ensures
        known.contains_key(v) || exists|j: int|
            0 <= j < n && (#[trigger] phis[j]).dst == v,
    decreases n,
{
    if n > 0 {
        if sole(phis[n - 1]) is Some && phis[n - 1].dst == v {
            assert(phis[n - 1].dst == v);
        } else {
            found_phi(phis, (n - 1) as nat, known, v);
        }
    }
}

proof fn kept_phis_len(phis: Seq<Phi>, m: Map<VarId, VarId>, n: nat)
    requires
        n <= phis.len(),
    ensures
        phis_with(phis, m, n).len() <= n,
        (exists|j: int| 0 <= j < n && m.contains_key((#[trigger] phis[j]).dst)) ==> phis_with(
            phis,
            m,
            n,
        ).len() < n,
    decreases n,
{
    if n > 0 {
        kept_phis_len(phis, m, (n - 1) as nat);
        if exists|j: int| 0 <= j < n && m.contains_key((#[trigger] phis[j]).dst) {
            let j = choose|j: int| 0 <= j < n && m.contains_key((#[trigger] phis[j]).dst);
            if j < n - 1 {
                assert(m.contains_key(phis[j].dst));
            }
        }
    }
}

proof fn found_in_blocks(blocks: Seq<Block>, n: nat, v: VarId) -> (at: (int, int))
    requires
        n <= blocks.len(),
        blocks_found(blocks, n).contains_key(v),
    ensures
        0 <= at.0 < n,
        0 <= at.1 < blocks[at.0].phis.len(),
        blocks[at.0].phis[at.1].dst == v,
    decreases n,
{
    let phis = blocks[n - 1].phis;
    let known = blocks_found(blocks, (n - 1) as nat);
    found_phi(phis, phis.len(), known, v);
    if known.contains_key(v) {
        found_in_blocks(blocks, (n - 1) as nat, v)
    } else {
        let j = choose|j: int| 0 <= j < phis.len() && (#[trigger] phis[j]).dst == v;
        (n - 1, j)
    }
}

proof fn kept_count(blocks: Seq<Block>, m: Map<VarId, VarId>, n: nat, at: int)
    requires
        n <= blocks.len(),
    ensures
        phi_count(blocks_with(blocks, m), n) <= phi_count(blocks, n),
        0 <= at < n && (exists|j: int|
            0 <= j < blocks[at].phis.len() && m.contains_key((#[trigger] blocks[at].phis[j]).dst))
            ==> phi_count(blocks_with(blocks, m), n) < phi_count(blocks, n),
    decreases n,
{
    if n > 0 {
        kept_count(blocks, m, (n - 1) as nat, at);
        let phis = blocks[n - 1].phis;
        kept_phis_len(phis, m, phis.len());
    }
}

/// Every round that replaces something removes a phi.
pub proof fn rounds_remove_phis(blocks: Seq<Block>)
    requires
        blocks_found(blocks, blocks.len()) != Map::<VarId, VarId>::empty(),
    ensures
        phi_count(
            blocks_with(blocks, replaced(blocks)),
            blocks_with(blocks, replaced(blocks)).len(),
        ) < phi_count(blocks, blocks.len()),
{
    let found = blocks_found(blocks, blocks.len());
    let m = replaced(blocks);
    if forall|v: VarId| !found.contains_key(v) {
        assert(found =~= Map::empty());
    }
    let v = choose|v: VarId| found.contains_key(v);
    assert(found.contains_key(v));
    let at = found_in_blocks(blocks, blocks.len(), v);
    assert(m.contains_key(blocks[at.0].phis[at.1].dst));
    kept_count(blocks, m, blocks.len(), at.0);
}

// Laws

/// A phi stands for at most one value.
pub proof fn sole_value_is_unique(phi: Phi, v: VarId)
    requires
        only(phi, v),
    ensures
        sole(phi) == Some(v),
{
    let w = choose|w: VarId| only(phi, w);
    assert(only(phi, w));
    let b = choose|b: u32| #[trigger] phi.operands.contains_key(b) && phi.operands[b] == v;
    assert(phi.operands[b] == w || phi.operands[b] == phi.dst);
}

proof fn nothing_found(phis: Seq<Phi>, n: nat, known: Map<VarId, VarId>, j: int)
    requires
        n <= phis.len(),
    ensures
        0 <= j < n && sole(phis[j]) is Some ==> phis_found(phis, n, known).contains_key(
            phis[j].dst,
        ),
        forall|v: VarId| known.contains_key(v) ==> phis_found(phis, n, known).contains_key(v),
    decreases n,
{
    if n > 0 {
        nothing_found(phis, (n - 1) as nat, known, j);
    }
}

/// A phi that stands for one value is found.
pub proof fn trivial_phis_are_found(blocks: Seq<Block>, n: nat, i: int, j: int)
    requires
        n <= blocks.len(),
    ensures
        0 <= i < n && 0 <= j < blocks[i].phis.len() && sole(blocks[i].phis[j]) is Some
            ==> blocks_found(blocks, n).contains_key(blocks[i].phis[j].dst),
    decreases n,
{
    if n > 0 {
        trivial_phis_are_found(blocks, (n - 1) as nat, i, j);
        nothing_found(
            blocks[n - 1].phis,
            blocks[n - 1].phis.len(),
            blocks_found(blocks, (n - 1) as nat),
            j,
        );
    }
}

/// After all rounds no phi is left that stands for one value.
pub proof fn no_trivial_phi_is_left(blocks: Seq<Block>, i: int, j: int)
    requires
        0 <= i < minimal(blocks).len(),
        0 <= j < minimal(blocks)[i].phis.len(),
    ensures
        sole(minimal(blocks)[i].phis[j]) is None,
    decreases phi_count(blocks, blocks.len()),
{
    if blocks_found(blocks, blocks.len()) == Map::<VarId, VarId>::empty() {
        trivial_phis_are_found(blocks, blocks.len(), i, j);
    } else {
        rounds_remove_phis(blocks);
        no_trivial_phi_is_left(blocks_with(blocks, replaced(blocks)), i, j);
    }
}

/// The removal of phis keeps the blocks and their instructions, with the values
/// that these make and as many values used; and no block gets more phis.
pub proof fn removal_keeps_instructions(blocks: Seq<Block>)
    ensures
        minimal(blocks).len() == blocks.len(),
        forall|i: int|
            #![trigger minimal(blocks)[i]]
            0 <= i < blocks.len() ==> minimal(blocks)[i].id == blocks[i].id
                && minimal(blocks)[i].insns.len() == blocks[i].insns.len()
                && minimal(blocks)[i].phis.len() <= blocks[i].phis.len(),
        forall|i: int, k: int|
            #![trigger minimal(blocks)[i].insns[k]]
            0 <= i < blocks.len() && 0 <= k < blocks[i].insns.len() ==> {
                let a = minimal(blocks)[i].insns[k];
                let b = blocks[i].insns[k];
                a.insn == b.insn && a.dst == b.dst && a.uses.len() == b.uses.len()
            },
    decreases phi_count(blocks, blocks.len()),
{
    if blocks_found(blocks, blocks.len()) != Map::<VarId, VarId>::empty() {
        let m = replaced(blocks);
        let next = blocks_with(blocks, m);
        rounds_remove_phis(blocks);
        removal_keeps_instructions(next);
        assert forall|i: int|
            #![trigger minimal(blocks)[i]]
            0 <= i < blocks.len() implies minimal(blocks)[i].id == blocks[i].id
            && minimal(blocks)[i].insns.len() == blocks[i].insns.len()
            && minimal(blocks)[i].phis.len() <= blocks[i].phis.len() by {
            kept_phis_len(blocks[i].phis, m, blocks[i].phis.len());
            assert(next[i] == block_with(blocks[i], m));
            assert(minimal(next)[i].id == next[i].id);
        }
        assert forall|i: int, k: int|
            #![trigger minimal(blocks)[i].insns[k]]
            0 <= i < blocks.len() && 0 <= k < blocks[i].insns.len() implies {
            let a = minimal(blocks)[i].insns[k];
            let b = blocks[i].insns[k];
            a.insn == b.insn && a.dst == b.dst && a.uses.len() == b.uses.len()
        } by {
            assert(next[i] == block_with(blocks[i], m));
            assert(next[i].insns[k] == insn_with(blocks[i].insns[k], m));
            let c = minimal(next)[i].insns[k];
        }
    }
}

// Execution

fn sole_value(phi: &PhiNode) -> (r: Option<VarId>)
    ensures
        r == sole(phi@),
{
    let list = entries(&phi.operands);
    let ghost keys = sorted_keys(phi.operands@);
    let mut same: Option<VarId> = None;
    let mut i: usize = 0;
    while i < list.len()
        invariant
            i <= list@.len() == keys.len(),
            keys == sorted_keys(phi.operands@),
            keys.to_set() == phi.operands@.dom(),
            forall|k: int|
                #![trigger list@[k]]
                0 <= k < list@.len() ==> list@[k].0 == keys[k] && phi.operands@.contains_key(keys[k])
                    && phi.operands@[keys[k]] == *list@[k].1,
            match same {
                None => forall|k: int|
                    0 <= k < i ==> phi.operands@[#[trigger] keys[k]] == phi.dst,
                Some(v) => {
                    &&& v != phi.dst
                    &&& exists|k: int| 0 <= k < i && phi.operands@[#[trigger] keys[k]] == v
                    &&& forall|k: int|
                        0 <= k < i ==> phi.operands@[#[trigger] keys[k]] == phi.dst
                            || phi.operands@[keys[k]] == v
                },
            },
        decreases list@.len() - i,
    {
        let operand: VarId = *list[i].1;
        assert(phi.operands@[keys[i as int]] == operand);
        if operand != phi.dst {
            match same {
                None => {
                    same = Some(operand);
                },
                Some(v) => {
                    if v != operand {
                        proof {
                            let k = choose|k: int|
                                0 <= k < i && phi.operands@[#[trigger] keys[k]] == v;
                            assert(list@[k].0 == keys[k]);
                            assert(phi@.operands.contains_key(keys[k]));
                            assert(phi@.operands.contains_key(keys[i as int]));
                            assert forall|w: VarId| !only(phi@, w) by {
                                if only(phi@, w) {
                                    assert(phi@.operands[keys[k]] == w);
                                    assert(phi@.operands[keys[i as int]] == w);
                                }
                            }
                        }
                        return None;
                    }
                },
            }
        }
        i = i + 1;
    }
    proof {
        assert forall|b: u32| #[trigger] phi@.operands.contains_key(b) implies exists|k: int|
            0 <= k < keys.len() && keys[k] == b by {
            assert(keys.to_set().contains(b));
        }
        match same {
            Some(v) => {
                let k = choose|k: int| 0 <= k < i && phi.operands@[#[trigger] keys[k]] == v;
                assert(list@[k].0 == keys[k]);
                assert(phi@.operands.contains_key(keys[k]));
                assert(only(phi@, v));
                sole_value_is_unique(phi@, v);
            },
            None => {
                assert forall|w: VarId| !only(phi@, w) by {
                    if only(phi@, w) {
                        let b = choose|b: u32| #[trigger]
                            phi@.operands.contains_key(b) && phi@.operands[b] == w;
                        let k = choose|k: int| 0 <= k < keys.len() && keys[k] == b;
                        assert(phi.operands@[keys[k]] == phi.dst);
                    }
                }
            },
        }
    }
    same
}

fn find_in_phis(phis: &Vec<PhiNode>, found: &mut Renaming)
    requires
        old(found).listed(),
    ensures
        final(found)@ == phis_found(phis_of(phis@), phis@.len(), old(found)@),
        final(found).listed(),
{
    let mut j: usize = 0;
    while j < phis.len()
        invariant
            j <= phis@.len(),
            found.listed(),
            found@ == phis_found(phis_of(phis@), j as nat, old(found)@),
        decreases phis@.len() - j,
    {
        assert(phis_of(phis@)[j as int] == phis@[j as int]@);
        match sole_value(&phis[j]) {
            Some(v) => {
                found.set(phis[j].dst, v);
            },
            None => {},
        }
        j = j + 1;
    }
}

fn find_all(blocks: &Vec<SsaBlock>) -> (r: Renaming)
    ensures
        r@ == blocks_found(blocks_of(blocks@), blocks@.len()),
        r.listed(),
{
    let mut found = Renaming::new();
    let mut i: usize = 0;
    while i < blocks.len()
        invariant
            i <= blocks@.len(),
            found.listed(),
            found@ == blocks_found(blocks_of(blocks@), i as nat),
        decreases blocks@.len() - i,
    {
        assert(blocks_of(blocks@)[i as int] == blocks@[i as int]@);
        find_in_phis(&blocks[i].phis, &mut found);
        i = i + 1;
    }
    found
}

/// Where the chain from `v` ends, if within as many steps as there are phis.
fn follow(m: &Renaming, v: VarId, blocks: &Vec<SsaBlock>) -> (r: Option<VarId>)
    ensures
        r == chain_end(m@, v, phi_count(blocks_of(blocks@), blocks@.len())),
{
    let ghost all = blocks_of(blocks@);
    let mut at: VarId = v;
    let mut i: usize = blocks.len();
    let mut j: usize = 0;
    while i > 0 || j > 0
        invariant
            i <= blocks@.len(),
            all == blocks_of(blocks@),
            chain_end(m@, v, phi_count(all, all.len())) == chain_end(
                m@,
                at,
                phi_count(all, i as nat) + j as nat,
            ),
        decreases i, j,
    {
        if j == 0 {
            i = i - 1;
            j = blocks[i].phis.len();
            assert(all[i as int] == blocks@[i as int]@);
        } else {
            match m.get(at) {
                None => {
                    return Some(at);
                },
                Some(w) => {
                    at = w;
                },
            }
            j = j - 1;
        }
    }
    match m.get(at) {
        None => Some(at),
        Some(_) => None,
    }
}

fn follow_all(m: &Renaming, blocks: &Vec<SsaBlock>) -> (r: Renaming)
    requires
        m.listed(),
    ensures
        r@ == chained(m@, phi_count(blocks_of(blocks@), blocks@.len())),
{
    let ghost goal = chained(m@, phi_count(blocks_of(blocks@), blocks@.len()));
    let mut out = Renaming::new();
    let mut i: usize = 0;
    while i < m.len()
        invariant
            i <= m.names().len(),
            m.listed(),
            out.listed(),
            goal == chained(m@, phi_count(blocks_of(blocks@), blocks@.len())),
            forall|v: VarId| #[trigger]
                out@.contains_key(v) ==> m@.contains_key(v) && out@[v] == goal[v],
            forall|k: int| 0 <= k < i ==> out@.contains_key(#[trigger] m.names()[k]),
        decreases m.names().len() - i,
    {
        let v: VarId = m.name(i);
        proof {
            m.names_are_mapped(v);
            assert(m.names()[i as int] == v);
        }
        match follow(m, v, blocks) {
            Some(e) => {
                out.set(v, e);
            },
            None => match m.get(v) {
                Some(w) => {
                    out.set(v, w);
                },
                None => {},
            },
        }
        i = i + 1;
    }
    assert forall|v: VarId| m@.contains_key(v) implies out@.contains_key(v) by {
        m.names_are_mapped(v);
        let k = choose|k: int| 0 <= k < m.names().len() && m.names()[k] == v;
        assert(out@.contains_key(m.names()[k]));
    }
    assert(out@ =~= goal);
    out
}

fn swap(m: &Renaming, v: VarId) -> (r: VarId)
    ensures
        r == instead(m@, v),
{
    match m.get(v) {
        Some(w) => w,
        None => v,
    }
}

fn rewrite_phi(phi: &PhiNode, m: &Renaming) -> (r: PhiNode)
    ensures
        r@ == phi_with(phi@, m@),
{
    let list = entries(&phi.operands);
    let ghost keys = sorted_keys(phi.operands@);
    let ghost goal = phi_with(phi@, m@).operands;
    let mut operands: BTreeMap<u32, VarId> = BTreeMap::new();
    let mut i: usize = 0;
    while i < list.len()
        invariant
            i <= list@.len() == keys.len(),
            keys == sorted_keys(phi.operands@),
            goal == phi_with(phi@, m@).operands,
            forall|k: int|
                #![trigger list@[k]]
                0 <= k < list@.len() ==> list@[k].0 == keys[k] && phi.operands@.contains_key(keys[k])
                    && phi.operands@[keys[k]] == *list@[k].1,
            forall|b: u32| #[trigger]
                operands@.contains_key(b) ==> goal.contains_key(b) && operands@[b] == goal[b],
            forall|k: int| 0 <= k < i ==> operands@.contains_key(#[trigger] keys[k]),
        decreases list@.len() - i,
    {
        let entry: (u32, &VarId) = list[i];
        assert(list@[i as int].0 == keys[i as int]);
        bind(&mut operands, entry.0, swap(m, *entry.1));
        i = i + 1;
    }
    assert forall|b: u32| goal.contains_key(b) implies operands@.contains_key(b) by {
        assert(keys.to_set().contains(b));
        let k = choose|k: int| 0 <= k < keys.len() && keys[k] == b;
        assert(operands@.contains_key(keys[k]));
    }
    assert(operands@ =~= goal);
    PhiNode { dst: phi.dst, operands }
}

fn rewrite_phis(phis: &Vec<PhiNode>, m: &Renaming) -> (r: Vec<PhiNode>)
    ensures
        phis_of(r@) == phis_with(phis_of(phis@), m@, phis@.len()),
{
    let mut out: Vec<PhiNode> = Vec::new();
    let mut j: usize = 0;
    assert(phis_of(out@) =~= Seq::empty());
    while j < phis.len()
        invariant
            j <= phis@.len(),
            phis_of(out@) == phis_with(phis_of(phis@), m@, j as nat),
        decreases phis@.len() - j,
    {
        assert(phis_of(phis@)[j as int] == phis@[j as int]@);
        match m.get(phis[j].dst) {
            Some(_) => {},
            None => {
                let ghost before = out@;
                let phi = rewrite_phi(&phis[j], m);
                out.push(phi);
                assert(phis_of(out@) =~= phis_of(before).push(phi@));
            },
        }
        j = j + 1;
    }
    out
}

fn rewrite_insn(insn: &SsaInsn, m: &Renaming) -> (r: SsaInsn)
    ensures
        r@ == insn_with(insn@, m@),
{
    let mut uses: Vec<VarId> = Vec::new();
    let mut i: usize = 0;
    while i < insn.uses.len()
        invariant
            i <= insn.uses@.len(),
            uses@ =~= insn_with(insn@, m@).uses.take(i as int),
        decreases insn.uses@.len() - i,
    {
        uses.push(swap(m, insn.uses[i]));
        i = i + 1;
    }
    assert(uses@ =~= insn_with(insn@, m@).uses);
    SsaInsn { insn: insn.insn, dst: insn.dst, uses }
}

fn rewrite_block(block: &SsaBlock, m: &Renaming) -> (r: SsaBlock)
    ensures
        r@ == block_with(block@, m@),
{
    let phis = rewrite_phis(&block.phis, m);
    let mut insns: Vec<SsaInsn> = Vec::new();
    let mut i: usize = 0;
    while i < block.insns.len()
        invariant
            i <= block.insns@.len(),
            insns@.len() == i,
            insns_of(insns@) =~= block_with(block@, m@).insns.take(i as int),
        decreases block.insns@.len() - i,
    {
        let ghost before = insns@;
        let insn = rewrite_insn(&block.insns[i], m);
        insns.push(insn);
        i = i + 1;
        assert(insns_of(insns@) =~= insns_of(before).push(insn@));
        assert(insns_of(insns@) =~= block_with(block@, m@).insns.take(i as int));
    }
    assert(insns_of(insns@) =~= block_with(block@, m@).insns);
    SsaBlock { id: block.id, phis, insns }
}

fn rewrite_blocks(blocks: &Vec<SsaBlock>, m: &Renaming) -> (r: Vec<SsaBlock>)
    ensures
        blocks_of(r@) == blocks_with(blocks_of(blocks@), m@),
{
    let mut out: Vec<SsaBlock> = Vec::new();
    let mut i: usize = 0;
    while i < blocks.len()
        invariant
            i <= blocks@.len(),
            out@.len() == i,
            blocks_of(out@) =~= blocks_with(blocks_of(blocks@), m@).take(i as int),
        decreases blocks@.len() - i,
    {
        let ghost before = out@;
        let block = rewrite_block(&blocks[i], m);
        out.push(block);
        i = i + 1;
        assert(blocks_of(out@) =~= blocks_of(before).push(block@));
        assert(blocks_of(out@) =~= blocks_with(blocks_of(blocks@), m@).take(i as int));
    }
    assert(blocks_of(out@) =~= blocks_with(blocks_of(blocks@), m@));
    out
}

/// Replaces phis that stand for one value by that value until there are none.
pub fn remove_trivial_phis(blocks: Vec<SsaBlock>) -> (r: Vec<SsaBlock>)
    ensures
        blocks_of(r@) == minimal(blocks_of(blocks@)),
{
    let ghost goal = minimal(blocks_of(blocks@));
    let mut cur: Vec<SsaBlock> = blocks;
    loop
        invariant
            goal == minimal(blocks_of(cur@)),
        ensures
            goal == blocks_of(cur@),
        decreases phi_count(blocks_of(cur@), cur@.len()),
    {
        let found = find_all(&cur);
        if found.len() == 0 {
            assert(found@ =~= Map::empty()) by {
                assert forall|v: VarId| !found@.contains_key(v) by {
                    found.names_are_mapped(v);
                }
            }
            break;
        }
        proof {
            let v = found.names()[0];
            found.names_are_mapped(v);
            assert(found.names().contains(v));
            rounds_remove_phis(blocks_of(cur@));
        }
        let m = follow_all(&found, &cur);
        cur = rewrite_blocks(&cur, &m);
    }
    cur
}

} // verus!
