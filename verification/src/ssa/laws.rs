//! What the removal of phis owes.
use vstd::prelude::*;

use crate::ssa::body::{Block, Phi, VarId};
use crate::ssa::phis::{
    block_with, blocks_found, blocks_with, chain_end, chained, insn_with, instead, minimal,
    no_trivial_phi_is_left, only, phi_count, phi_with, phis_found, phis_with, replaced,
    rounds_remove_phis, sole, sole_value_is_unique, trivial_phis_are_found,
};

verus! {

/// Removing phis from what is left after the removal changes nothing.
pub proof fn removing_again_changes_nothing(blocks: Seq<Block>)
    ensures
        minimal(minimal(blocks)) == minimal(blocks),
    decreases phi_count(blocks, blocks.len()),
{
    if blocks_found(blocks, blocks.len()) != Map::<VarId, VarId>::empty() {
        rounds_remove_phis(blocks);
        removing_again_changes_nothing(blocks_with(blocks, replaced(blocks)));
    }
}

// The phis that are left

/// The phis in `left` are those at the positions `at` in `phis`, in their order, with
/// the same names and for the same blocks.
pub open spec fn taken_from(left: Seq<Phi>, phis: Seq<Phi>, at: Seq<int>) -> bool {
    &&& at.len() == left.len()
    &&& forall|k: int|
        #![trigger at[k]]
        0 <= k < at.len() ==> 0 <= at[k] < phis.len() && left[k].dst == phis[at[k]].dst
            && left[k].operands.dom() == phis[at[k]].operands.dom()
    &&& forall|k: int, l: int| 0 <= k < l < at.len() ==> #[trigger] at[k] < #[trigger] at[l]
}

proof fn lemma_round_takes(phis: Seq<Phi>, m: Map<VarId, VarId>, n: nat) -> (at: Seq<int>)
    requires
        n <= phis.len(),
    ensures
        taken_from(phis_with(phis, m, n), phis, at),
        forall|k: int| 0 <= k < at.len() ==> #[trigger] at[k] < n,
    decreases n,
{
    if n == 0 {
        Seq::empty()
    } else {
        let front = lemma_round_takes(phis, m, (n - 1) as nat);
        if m.contains_key(phis[n - 1].dst) {
            front
        } else {
            let at = front.push(n - 1);
            assert(phi_with(phis[n - 1], m).operands.dom() =~= phis[n - 1].operands.dom());
            at
        }
    }
}

/// Every phi that is left is one that was there, in the same order, with its name and
/// with an operand for each of the same blocks.
pub proof fn kept_phis_keep_name_and_blocks(blocks: Seq<Block>, i: int) -> (at: Seq<int>)
    requires
        0 <= i < blocks.len(),
    ensures
        minimal(blocks).len() == blocks.len(),
        taken_from(minimal(blocks)[i].phis, blocks[i].phis, at),
    decreases phi_count(blocks, blocks.len()),
{
    if blocks_found(blocks, blocks.len()) == Map::<VarId, VarId>::empty() {
        Seq::new(blocks[i].phis.len(), |k: int| k)
    } else {
        let m = replaced(blocks);
        let next = blocks_with(blocks, m);
        rounds_remove_phis(blocks);
        let first = lemma_round_takes(blocks[i].phis, m, blocks[i].phis.len());
        assert(next[i] == block_with(blocks[i], m));
        let rest = kept_phis_keep_name_and_blocks(next, i);
        let at = Seq::new(rest.len(), |k: int| first[rest[k]]);
        let left = minimal(blocks)[i].phis;
        assert forall|k: int|
            #![trigger at[k]]
            0 <= k < at.len() implies 0 <= at[k] < blocks[i].phis.len() && left[k].dst
            == blocks[i].phis[at[k]].dst && left[k].operands.dom()
            == blocks[i].phis[at[k]].operands.dom() by {
            let r = rest[k];
            let f = first[r];
        }
        assert forall|k: int, l: int| 0 <= k < l < at.len() implies #[trigger] at[k]
            < #[trigger] at[l] by {
            assert(rest[k] < rest[l]);
            assert(first[rest[k]] < first[rest[l]]);
        }
        at
    }
}

// Chains of replacements

/// The chain of replacements that starts at `v` ends.
pub open spec fn ends(m: Map<VarId, VarId>, v: VarId) -> bool {
    exists|n: nat| chain_end(m, v, n) is Some
}

proof fn lemma_longer(m: Map<VarId, VarId>, v: VarId, n: nat, k: nat)
    requires
        chain_end(m, v, n) is Some,
        n <= k,
    ensures
        chain_end(m, v, k) == chain_end(m, v, n),
    decreases n,
{
    if m.contains_key(v) {
        lemma_longer(m, m[v], (n - 1) as nat, (k - 1) as nat);
    }
}

proof fn lemma_end_is_free(m: Map<VarId, VarId>, v: VarId, n: nat)
    ensures
        chain_end(m, v, n) matches Some(e) ==> !m.contains_key(e) && (e == v || exists|x: VarId|
         #[trigger] m.contains_key(x) && m[x] == e),
    decreases n,
{
    if m.contains_key(v) && n > 0 {
        lemma_end_is_free(m, m[v], (n - 1) as nat);
        if chain_end(m, v, n) == Some(m[v]) {
            assert(m.contains_key(v) && m[v] == m[v]);
        }
    }
}

proof fn lemma_around(m: Map<VarId, VarId>, v: VarId, w: VarId, k: nat)
    requires
        chain_end(m, w, k) is Some,
        chain_end(m, v, k) is None,
    ensures
        chain_end(m.remove(v), w, k) == chain_end(m, w, k),
    decreases k,
{
    if m.contains_key(w) {
        assert(w != v);
        if chain_end(m, v, (k - 1) as nat) is Some {
            lemma_longer(m, v, (k - 1) as nat, k);
        }
        lemma_around(m, v, m[w], (k - 1) as nat);
        assert(m.remove(v)[w] == m[w]);
    }
}

proof fn lemma_back(m: Map<VarId, VarId>, v: VarId, w: VarId, k: nat, e: VarId)
    requires
        chain_end(m.remove(v), w, k) == Some(e),
        !m.contains_key(e),
    ensures
        chain_end(m, w, k) == Some(e),
    decreases k,
{
    if m.remove(v).contains_key(w) {
        assert(m.remove(v)[w] == m[w]);
        lemma_back(m, v, m[w], (k - 1) as nat, e);
    }
}

proof fn lemma_chain_len(m: Map<VarId, VarId>, v: VarId, n: nat)
    requires
        m.dom().finite(),
        chain_end(m, v, n) is Some,
    ensures
        chain_end(m, v, m.dom().len()) is Some,
    decreases m.dom().len(), n,
{
    if m.contains_key(v) {
        if chain_end(m, v, (n - 1) as nat) is Some {
            lemma_chain_len(m, v, (n - 1) as nat);
        } else {
            let less = m.remove(v);
            let k = (n - 1) as nat;
            let w = m[v];
            let e = chain_end(m, w, k)->Some_0;
            lemma_around(m, v, w, k);
            assert(less.dom() =~= m.dom().remove(v));
            lemma_chain_len(less, w, k);
            let d = less.dom().len();
            if d <= k {
                lemma_longer(less, w, d, k);
            } else {
                lemma_longer(less, w, k, d);
            }
            lemma_end_is_free(m, w, k);
            lemma_back(m, v, w, d, e);
        }
    }
}

proof fn lemma_found_len(phis: Seq<Phi>, n: nat, known: Map<VarId, VarId>)
    requires
        n <= phis.len(),
        known.dom().finite(),
    ensures
        phis_found(phis, n, known).dom().finite(),
        phis_found(phis, n, known).dom().len() <= known.dom().len() + n,
    decreases n,
{
    if n > 0 {
        lemma_found_len(phis, (n - 1) as nat, known);
        let front = phis_found(phis, (n - 1) as nat, known);
        if sole(phis[n - 1]) is Some {
            let dst = phis[n - 1].dst;
            assert(phis_found(phis, n, known).dom() =~= front.dom().insert(dst));
        }
    }
}

proof fn lemma_found_count(blocks: Seq<Block>, n: nat)
    requires
        n <= blocks.len(),
    ensures
        blocks_found(blocks, n).dom().finite(),
        blocks_found(blocks, n).dom().len() <= phi_count(blocks, n),
    decreases n,
{
    if n > 0 {
        lemma_found_count(blocks, (n - 1) as nat);
        lemma_found_len(
            blocks[n - 1].phis,
            blocks[n - 1].phis.len(),
            blocks_found(blocks, (n - 1) as nat),
        );
    } else {
        assert(blocks_found(blocks, 0).dom() =~= Set::empty());
    }
}

/// A chain of replacements that ends does so within as many steps as there are phis: one
/// that does not runs into a cycle.
pub proof fn chains_end_within_the_phis(blocks: Seq<Block>, v: VarId)
    requires
        ends(blocks_found(blocks, blocks.len()), v),
    ensures
        chain_end(blocks_found(blocks, blocks.len()), v, phi_count(blocks, blocks.len())) is Some,
{
    let m = blocks_found(blocks, blocks.len());
    let n = choose|n: nat| chain_end(m, v, n) is Some;
    lemma_found_count(blocks, blocks.len());
    lemma_chain_len(m, v, n);
    lemma_longer(m, v, m.dom().len(), phi_count(blocks, blocks.len()));
}

// Names of phis that are gone

/// A phi makes the value `v`.
pub open spec fn made_by_phi(blocks: Seq<Block>, v: VarId) -> bool {
    exists|i: int, j: int|
        0 <= i < blocks.len() && 0 <= j < blocks[i].phis.len() && (
        #[trigger] blocks[i].phis[j]).dst == v
}

/// No phi and no instruction uses the value `v`.
pub open spec fn unused(blocks: Seq<Block>, v: VarId) -> bool {
    &&& forall|i: int, j: int, b: u32|
        0 <= i < blocks.len() && 0 <= j < blocks[i].phis.len()
            && #[trigger] blocks[i].phis[j].operands.contains_key(b)
            ==> blocks[i].phis[j].operands[b] != v
    &&& forall|i: int, k: int, u: int|
        0 <= i < blocks.len() && 0 <= k < blocks[i].insns.len() && 0 <= u
            < blocks[i].insns[k].uses.len() ==> #[trigger] blocks[i].insns[k].uses[u] != v
}

/// In no round is `v` replaced by a chain that runs into a cycle.
pub open spec fn in_no_cycle(blocks: Seq<Block>, v: VarId) -> bool
    decreases phi_count(blocks, blocks.len()),
{
    let found = blocks_found(blocks, blocks.len());
    if found == Map::<VarId, VarId>::empty() {
        true
    } else {
        proof {
            rounds_remove_phis(blocks);
        }
        &&& found.contains_key(v) ==> ends(found, v)
        &&& in_no_cycle(blocks_with(blocks, replaced(blocks)), v)
    }
}

/// Every value that `m` gives differs from `v`.
spec fn never_gives(m: Map<VarId, VarId>, v: VarId) -> bool {
    forall|x: VarId| #[trigger] m.contains_key(x) ==> m[x] != v
}

proof fn lemma_with_phi(phis: Seq<Phi>, m: Map<VarId, VarId>, n: nat, j: int)
    requires
        n <= phis.len(),
        0 <= j < phis_with(phis, m, n).len(),
    ensures
        exists|k: int| 0 <= k < n && phis_with(phis, m, n)[j] == phi_with(#[trigger] phis[k], m),
    decreases n,
{
    if n > 0 {
        let front = phis_with(phis, m, (n - 1) as nat);
        if j < front.len() {
            lemma_with_phi(phis, m, (n - 1) as nat, j);
            let k = choose|k: int| 0 <= k < n - 1 && front[j] == phi_with(#[trigger] phis[k], m);
            assert(phis_with(phis, m, n)[j] == phi_with(phis[k], m));
        } else {
            assert(phis_with(phis, m, n)[j] == phi_with(phis[n - 1], m));
        }
    }
}

proof fn lemma_stays_unused(blocks: Seq<Block>, m: Map<VarId, VarId>, v: VarId)
    requires
        m.contains_key(v) || unused(blocks, v),
        never_gives(m, v),
    ensures
        unused(blocks_with(blocks, m), v),
{
    let next = blocks_with(blocks, m);
    assert forall|i: int, j: int, b: u32|
        0 <= i < next.len() && 0 <= j < next[i].phis.len()
            && #[trigger] next[i].phis[j].operands.contains_key(b) implies
        next[i].phis[j].operands[b] != v by {
        assert(next[i] == block_with(blocks[i], m));
        let phis = blocks[i].phis;
        lemma_with_phi(phis, m, phis.len(), j);
        let k = choose|k: int|
            0 <= k < phis.len() && next[i].phis[j] == phi_with(#[trigger] phis[k], m);
        assert(blocks[i].phis[k].operands.contains_key(b));
        let op = blocks[i].phis[k].operands[b];
        assert(next[i].phis[j].operands[b] == instead(m, op));
        assert(m.contains_key(op) ==> m[op] != v);
    }
    assert forall|i: int, k: int, u: int|
        0 <= i < next.len() && 0 <= k < next[i].insns.len() && 0 <= u
            < next[i].insns[k].uses.len() implies #[trigger] next[i].insns[k].uses[u] != v by {
        assert(next[i] == block_with(blocks[i], m));
        assert(next[i].insns[k] == insn_with(blocks[i].insns[k], m));
        let x = blocks[i].insns[k].uses[u];
        assert(next[i].insns[k].uses[u] == instead(m, x));
        assert(m.contains_key(x) ==> m[x] != v);
    }
}

proof fn lemma_phis_found_used(phis: Seq<Phi>, n: nat, known: Map<VarId, VarId>, v: VarId)
    requires
        n <= phis.len(),
        never_gives(known, v),
        forall|j: int, b: u32|
            0 <= j < phis.len() && #[trigger] phis[j].operands.contains_key(b)
                ==> phis[j].operands[b] != v,
    ensures
        never_gives(phis_found(phis, n, known), v),
    decreases n,
{
    if n > 0 {
        lemma_phis_found_used(phis, (n - 1) as nat, known, v);
        let phi = phis[n - 1];
        if sole(phi) is Some {
            let w = choose|w: VarId| only(phi, w);
            assert(only(phi, w));
            let b = choose|b: u32| #[trigger] phi.operands.contains_key(b) && phi.operands[b] == w;
            assert(phis[n - 1].operands.contains_key(b));
        }
    }
}

proof fn lemma_found_used(blocks: Seq<Block>, n: nat, v: VarId)
    requires
        n <= blocks.len(),
        unused(blocks, v),
    ensures
        never_gives(blocks_found(blocks, n), v),
    decreases n,
{
    if n > 0 {
        lemma_found_used(blocks, (n - 1) as nat, v);
        let phis = blocks[n - 1].phis;
        assert forall|j: int, b: u32|
            0 <= j < phis.len() && #[trigger] phis[j].operands.contains_key(b) implies
            phis[j].operands[b] != v by {
            assert(blocks[n - 1].phis[j].operands.contains_key(b));
        }
        lemma_phis_found_used(phis, phis.len(), blocks_found(blocks, (n - 1) as nat), v);
    }
}

proof fn lemma_chained_gives(m: Map<VarId, VarId>, steps: nat, v: VarId)
    requires
        never_gives(m, v),
    ensures
        never_gives(chained(m, steps), v),
{
    let c = chained(m, steps);
    assert forall|x: VarId| #[trigger] c.contains_key(x) implies c[x] != v by {
        assert(m.contains_key(x));
        lemma_end_is_free(m, x, steps);
    }
}

proof fn lemma_unused_for_good(blocks: Seq<Block>, v: VarId)
    requires
        unused(blocks, v),
    ensures
        unused(minimal(blocks), v),
    decreases phi_count(blocks, blocks.len()),
{
    let found = blocks_found(blocks, blocks.len());
    if found != Map::<VarId, VarId>::empty() {
        let m = replaced(blocks);
        rounds_remove_phis(blocks);
        lemma_found_used(blocks, blocks.len(), v);
        lemma_chained_gives(found, phi_count(blocks, blocks.len()), v);
        lemma_stays_unused(blocks, m, v);
        lemma_unused_for_good(blocks_with(blocks, m), v);
    }
}

proof fn lemma_phi_stays(phis: Seq<Phi>, m: Map<VarId, VarId>, n: nat, j: int)
    requires
        n <= phis.len(),
        0 <= j < n,
        !m.contains_key(phis[j].dst),
    ensures
        exists|k: int|
            0 <= k < phis_with(phis, m, n).len() && (#[trigger] phis_with(phis, m, n)[k]).dst
                == phis[j].dst,
    decreases n,
{
    let front = phis_with(phis, m, (n - 1) as nat);
    let all = phis_with(phis, m, n);
    if j < n - 1 {
        lemma_phi_stays(phis, m, (n - 1) as nat, j);
        let k = choose|k: int| 0 <= k < front.len() && (#[trigger] front[k]).dst == phis[j].dst;
        assert(all[k].dst == phis[j].dst);
    } else {
        assert(all[front.len() as int].dst == phis[j].dst);
    }
}

/// Nothing uses the value of a phi that was removed, unless the phi was to be replaced by
/// a chain that runs into a cycle: then there is no value to put in its place.
pub proof fn removed_phis_are_not_used(blocks: Seq<Block>, v: VarId)
    requires
        made_by_phi(blocks, v),
        !made_by_phi(minimal(blocks), v),
        in_no_cycle(blocks, v),
    ensures
        unused(minimal(blocks), v),
    decreases phi_count(blocks, blocks.len()),
{
    let found = blocks_found(blocks, blocks.len());
    if found != Map::<VarId, VarId>::empty() {
        let steps = phi_count(blocks, blocks.len());
        let m = replaced(blocks);
        let next = blocks_with(blocks, m);
        rounds_remove_phis(blocks);
        if m.contains_key(v) {
            chains_end_within_the_phis(blocks, v);
            assert forall|x: VarId| #[trigger] m.contains_key(x) implies m[x] != v by {
                lemma_end_is_free(found, x, steps);
                if chain_end(found, x, steps) is None && found[x] == v {
                    let n = choose|n: nat| chain_end(found, v, n) is Some;
                    assert(chain_end(found, x, n + 1) is Some);
                    chains_end_within_the_phis(blocks, x);
                }
            }
            lemma_stays_unused(blocks, m, v);
            lemma_unused_for_good(next, v);
        } else {
            let (i, j) = choose|i: int, j: int|
                0 <= i < blocks.len() && 0 <= j < blocks[i].phis.len() && (
                #[trigger] blocks[i].phis[j]).dst == v;
            let phis = blocks[i].phis;
            lemma_phi_stays(phis, m, phis.len(), j);
            assert(next[i] == block_with(blocks[i], m));
            let k = choose|k: int|
                0 <= k < next[i].phis.len() && (#[trigger] phis_with(phis, m, phis.len())[k]).dst
                    == v;
            assert(next[i].phis[k].dst == v);
            removed_phis_are_not_used(next, v);
        }
    }
}

// What the removal removes

/// All operands of the phi are `v` or the phi itself, and `v` is among them.
pub open spec fn chooses_nothing_but(phi: Phi, v: VarId) -> bool {
    &&& v != phi.dst
    &&& exists|b: u32| #[trigger] phi.operands.contains_key(b) && phi.operands[b] == v
    &&& forall|b: u32| #[trigger]
        phi.operands.contains_key(b) ==> phi.operands[b] == v || phi.operands[b] == phi.dst
}

proof fn lemma_sole(phi: Phi, v: VarId)
    ensures
        chooses_nothing_but(phi, v) <==> sole(phi) == Some(v),
{
    if chooses_nothing_but(phi, v) {
        assert(only(phi, v));
        sole_value_is_unique(phi, v);
    }
    if sole(phi) == Some(v) {
        let w = choose|w: VarId| only(phi, w);
        assert(only(phi, w));
    }
}

/// What is left holds no phi that chooses nothing but one value.
pub proof fn every_phi_left_has_a_choice(blocks: Seq<Block>, i: int, j: int, v: VarId)
    requires
        0 <= i < minimal(blocks).len(),
        0 <= j < minimal(blocks)[i].phis.len(),
    ensures
        !chooses_nothing_but(minimal(blocks)[i].phis[j], v),
{
    no_trivial_phi_is_left(blocks, i, j);
    lemma_sole(minimal(blocks)[i].phis[j], v);
}

proof fn lemma_found_by_phi(phis: Seq<Phi>, n: nat, known: Map<VarId, VarId>, d: VarId)
    requires
        n <= phis.len(),
        phis_found(phis, n, known).contains_key(d),
    ensures
        (exists|j: int|
            0 <= j < n && (#[trigger] phis[j]).dst == d && chooses_nothing_but(
                phis[j],
                phis_found(phis, n, known)[d],
            )) || known.contains_key(d) && known[d] == phis_found(phis, n, known)[d],
    decreases n,
{
    if n > 0 {
        let last = phis[n - 1];
        if sole(last) is Some && last.dst == d {
            lemma_sole(last, sole(last)->0);
            assert(phis[n - 1].dst == d);
        } else {
            lemma_found_by_phi(phis, (n - 1) as nat, known, d);
            if exists|j: int|
                0 <= j < n - 1 && (#[trigger] phis[j]).dst == d && chooses_nothing_but(
                    phis[j],
                    phis_found(phis, (n - 1) as nat, known)[d],
                ) {
                let j = choose|j: int|
                    0 <= j < n - 1 && (#[trigger] phis[j]).dst == d && chooses_nothing_but(
                        phis[j],
                        phis_found(phis, (n - 1) as nat, known)[d],
                    );
                assert(phis[j].dst == d);
            }
        }
    }
}

/// Only a phi that chooses nothing but one value is replaced, and by that value.
pub proof fn replaced_phis_had_no_choice(blocks: Seq<Block>, n: nat, d: VarId)
    requires
        n <= blocks.len(),
        blocks_found(blocks, n).contains_key(d),
    ensures
        exists|i: int, j: int|
            0 <= i < n && 0 <= j < blocks[i].phis.len() && (#[trigger] blocks[i].phis[j]).dst == d
                && chooses_nothing_but(blocks[i].phis[j], blocks_found(blocks, n)[d]),
    decreases n,
{
    let v = blocks_found(blocks, n)[d];
    let phis = blocks[n - 1].phis;
    let known = blocks_found(blocks, (n - 1) as nat);
    lemma_found_by_phi(phis, phis.len(), known, d);
    if exists|j: int|
        0 <= j < phis.len() && (#[trigger] phis[j]).dst == d && chooses_nothing_but(phis[j], v) {
        let j = choose|j: int|
            0 <= j < phis.len() && (#[trigger] phis[j]).dst == d && chooses_nothing_but(phis[j], v);
        assert(blocks[n - 1].phis[j].dst == d);
    } else {
        replaced_phis_had_no_choice(blocks, (n - 1) as nat, d);
        let (i, j) = choose|i: int, j: int|
            0 <= i < n - 1 && 0 <= j < blocks[i].phis.len() && (#[trigger] blocks[i].phis[j]).dst
                == d && chooses_nothing_but(blocks[i].phis[j], known[d]);
        assert(blocks[i].phis[j].dst == d);
    }
}

/// Blocks in which every phi has a choice stay as they are.
pub proof fn phis_with_a_choice_stay(blocks: Seq<Block>)
    requires
        forall|i: int, j: int, v: VarId|
            0 <= i < blocks.len() && 0 <= j < blocks[i].phis.len() ==> !#[trigger]
            chooses_nothing_but(blocks[i].phis[j], v),
    ensures
        minimal(blocks) == blocks,
{
    let found = blocks_found(blocks, blocks.len());
    assert forall|d: VarId| !found.contains_key(d) by {
        if found.contains_key(d) {
            replaced_phis_had_no_choice(blocks, blocks.len(), d);
            let (i, j) = choose|i: int, j: int|
                0 <= i < blocks.len() && 0 <= j < blocks[i].phis.len() && (
                #[trigger] blocks[i].phis[j]).dst == d && chooses_nothing_but(
                    blocks[i].phis[j],
                    found[d],
                );
            assert(chooses_nothing_but(blocks[i].phis[j], found[d]));
        }
    }
    assert(found =~= Map::empty());
}

proof fn lemma_not_replaced(blocks: Seq<Block>, v: VarId)
    requires
        !made_by_phi(blocks, v),
    ensures
        !blocks_found(blocks, blocks.len()).contains_key(v),
        !made_by_phi(blocks_with(blocks, replaced(blocks)), v),
{
    let found = blocks_found(blocks, blocks.len());
    let m = replaced(blocks);
    let next = blocks_with(blocks, m);
    if found.contains_key(v) {
        replaced_phis_had_no_choice(blocks, blocks.len(), v);
    }
    if made_by_phi(next, v) {
        let (i, j) = choose|i: int, j: int|
            0 <= i < next.len() && 0 <= j < next[i].phis.len() && (
            #[trigger] next[i].phis[j]).dst == v;
        assert(next[i] == block_with(blocks[i], m));
        lemma_with_phi(blocks[i].phis, m, blocks[i].phis.len(), j);
        let k = choose|k: int|
            0 <= k < blocks[i].phis.len() && next[i].phis[j] == phi_with(
                #[trigger] blocks[i].phis[k],
                m,
            );
        assert(blocks[i].phis[k].dst == v);
    }
}

/// A value that no phi makes is used wherever it was used.
pub proof fn other_values_stay(blocks: Seq<Block>, i: int, k: int, u: int)
    requires
        0 <= i < blocks.len(),
        0 <= k < blocks[i].insns.len(),
        0 <= u < blocks[i].insns[k].uses.len(),
        !made_by_phi(blocks, blocks[i].insns[k].uses[u]),
    ensures
        minimal(blocks)[i].insns[k].uses[u] == blocks[i].insns[k].uses[u],
    decreases phi_count(blocks, blocks.len()),
{
    let v = blocks[i].insns[k].uses[u];
    if blocks_found(blocks, blocks.len()) != Map::<VarId, VarId>::empty() {
        let m = replaced(blocks);
        let next = blocks_with(blocks, m);
        rounds_remove_phis(blocks);
        lemma_not_replaced(blocks, v);
        assert(next[i] == block_with(blocks[i], m));
        assert(next[i].insns[k] == insn_with(blocks[i].insns[k], m));
        assert(next[i].insns[k].uses[u] == instead(m, v));
        other_values_stay(next, i, k, u);
    }
}

/// Where a phi is the only one of its name and chooses nothing but a value that no phi makes,
/// that value is used in its place.
pub proof fn a_phi_without_a_choice_is_its_value(
    blocks: Seq<Block>,
    x: int,
    y: int,
    v: VarId,
    i: int,
    k: int,
    u: int,
)
    requires
        0 <= x < blocks.len(),
        0 <= y < blocks[x].phis.len(),
        chooses_nothing_but(blocks[x].phis[y], v),
        !made_by_phi(blocks, v),
        forall|a: int, b: int|
            0 <= a < blocks.len() && 0 <= b < blocks[a].phis.len() && !(a == x && b == y) ==> (
            #[trigger] blocks[a].phis[b]).dst != blocks[x].phis[y].dst,
        0 <= i < blocks.len(),
        0 <= k < blocks[i].insns.len(),
        0 <= u < blocks[i].insns[k].uses.len(),
        blocks[i].insns[k].uses[u] == blocks[x].phis[y].dst,
    ensures
        minimal(blocks)[i].insns[k].uses[u] == v,
{
    let d = blocks[x].phis[y].dst;
    let found = blocks_found(blocks, blocks.len());
    let steps = phi_count(blocks, blocks.len());
    let m = replaced(blocks);
    let next = blocks_with(blocks, m);
    lemma_sole(blocks[x].phis[y], v);
    trivial_phis_are_found(blocks, blocks.len(), x, y);
    assert(found.contains_key(d));
    replaced_phis_had_no_choice(blocks, blocks.len(), d);
    let (a, b) = choose|a: int, b: int|
        0 <= a < blocks.len() && 0 <= b < blocks[a].phis.len() && (#[trigger] blocks[a].phis[b]).dst
            == d && chooses_nothing_but(blocks[a].phis[b], found[d]);
    assert(a == x && b == y);
    lemma_sole(blocks[x].phis[y], found[d]);
    assert(found[d] == v);
    lemma_not_replaced(blocks, v);
    rounds_remove_phis(blocks);
    assert(steps > 0);
    assert(chain_end(found, d, steps) == chain_end(found, v, (steps - 1) as nat));
    assert(m[d] == v);
    assert(next[i] == block_with(blocks[i], m));
    assert(next[i].insns[k] == insn_with(blocks[i].insns[k], m));
    assert(next[i].insns[k].uses[u] == instead(m, d));
    other_values_stay(next, i, k, u);
}

} // verus!
