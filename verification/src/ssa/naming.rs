//! Giving names to the values of a method.
//!
//! Which name a register has at a point of a method depends on all ways to that
//! point. Whoever knows them is asked for names by a list of requests, and the
//! answers go into the method.
use std::collections::BTreeMap;
use vstd::prelude::*;

use crate::cfg::{BasicBlock, BlockIdx, Cfg};
use crate::collections::{bind, bound};
use crate::decode::{CodeItem, Instruction};
use crate::ssa::body::{
    blocks_of, insns_of, phis_of, Block, Named, Phi, PhiNode, SsaBlock, SsaBody, SsaInsn, VarId,
};
use crate::ssa::phis::{minimal, remove_trivial_phis};
use crate::ssa::registers::{classify_reg_use, read, usage, written};

verus! {

/// A request about the names of values. Fresh names and names that are read are
/// answered by a name.
#[derive(Debug, Clone, Copy, PartialEq, Eq, Structural)]
pub enum NameRequest {
    /// A new name for a value in a register.
    Fresh { reg: u16 },
    /// From here on in a block, a register has the name given last.
    Write { block: BlockIdx, reg: u16 },
    /// The name that a register has here.
    Read { block: BlockIdx, reg: u16 },
}

// Requests

/// The register of a parameter.
pub open spec fn param_reg(code: CodeItem, i: int) -> u16 {
    (i + if code.registers_size >= code.ins_size {
        code.registers_size - code.ins_size
    } else {
        0
    }) as u16
}

/// The requests for the first `n` parameters.
pub open spec fn param_requests(code: CodeItem, entry: u32, n: nat) -> Seq<NameRequest>
    decreases n,
{
    if n == 0 {
        Seq::empty()
    } else {
        let reg = param_reg(code, n - 1);
        param_requests(code, entry, (n - 1) as nat) + seq![
            NameRequest::Fresh { reg },
            NameRequest::Write { block: entry, reg },
        ]
    }
}

/// The requests for what an instruction reads.
pub open spec fn read_requests(block: u32, regs: Seq<u16>) -> Seq<NameRequest> {
    regs.map_values(|reg: u16| NameRequest::Read { block, reg })
}

/// The requests for what an instruction writes.
pub open spec fn write_requests(block: u32, insn: Instruction) -> Seq<NameRequest> {
    match written(insn) {
        None => Seq::empty(),
        Some(reg) => if usage(insn.op).wide {
            seq![
                NameRequest::Fresh { reg },
                NameRequest::Write { block, reg },
                NameRequest::Write { block, reg: (reg + 1) as u16 },
            ]
        } else {
            seq![NameRequest::Fresh { reg }, NameRequest::Write { block, reg }]
        },
    }
}

/// The requests for the first `n` instructions of a block.
pub open spec fn insn_requests(block: u32, insns: Seq<Instruction>, n: nat) -> Seq<NameRequest>
    decreases n,
{
    if n == 0 {
        Seq::empty()
    } else {
        insn_requests(block, insns, (n - 1) as nat) + read_requests(block, read(insns[n - 1]))
            + write_requests(block, insns[n - 1])
    }
}

/// The requests for the first `n` blocks.
pub open spec fn block_requests(blocks: Seq<BasicBlock>, n: nat) -> Seq<NameRequest>
    decreases n,
{
    if n == 0 {
        Seq::empty()
    } else {
        let b = blocks[n - 1];
        block_requests(blocks, (n - 1) as nat) + insn_requests(
            b.id,
            b.instructions@,
            b.instructions@.len(),
        )
    }
}

/// The requests for a method: for its parameters, then for its instructions.
pub open spec fn requests(code: CodeItem, cfg: Cfg) -> Seq<NameRequest> {
    param_requests(code, cfg.entry, code.ins_size as nat) + block_requests(
        cfg.blocks@,
        cfg.blocks@.len(),
    )
}

/// No instruction writes two registers from the last one on.
pub open spec fn wide_values_fit(cfg: Cfg) -> bool {
    forall|i: int, j: int|
        #![trigger cfg.blocks@[i].instructions@[j]]
        0 <= i < cfg.blocks@.len() && 0 <= j < cfg.blocks@[i].instructions@.len() ==> {
            let insn = cfg.blocks@[i].instructions@[j];
            usage(insn.op).wide && written(insn) is Some ==> written(insn)->0 < u16::MAX
        }
}

fn request_insn(out: &mut Vec<NameRequest>, block: u32, insn: &Instruction)
    requires
        usage(insn.op).wide && written(*insn) is Some ==> written(*insn)->0 < u16::MAX,
    ensures
        final(out)@ == old(out)@ + read_requests(block, read(*insn)) + write_requests(
            block,
            *insn,
        ),
{
    let u = classify_reg_use(insn);
    let mut i: usize = 0;
    while i < u.reads.len()
        invariant
            i <= u.reads@.len(),
            out@ =~= old(out)@ + read_requests(block, u.reads@.take(i as int)),
        decreases u.reads@.len() - i,
    {
        out.push(NameRequest::Read { block, reg: u.reads[i] });
        i = i + 1;
        assert(u.reads@.take(i as int) =~= u.reads@.take(i - 1).push(u.reads@[i - 1]));
    }
    assert(u.reads@.take(i as int) =~= u.reads@);
    let ghost before = out@;
    match u.def {
        None => {},
        Some(reg) => {
            out.push(NameRequest::Fresh { reg });
            out.push(NameRequest::Write { block, reg });
            if u.def_wide {
                out.push(NameRequest::Write { block, reg: reg + 1 });
            }
        },
    }
    assert(out@ =~= before + write_requests(block, *insn));
}

/// The requests for a method.
pub fn name_requests(code: &CodeItem, cfg: &Cfg) -> (r: Vec<NameRequest>)
    requires
        wide_values_fit(*cfg),
    ensures
        r@ == requests(*code, *cfg),
{
    let mut out: Vec<NameRequest> = Vec::new();
    let first: u16 = code.registers_size.saturating_sub(code.ins_size);
    let mut i: u16 = 0;
    while i < code.ins_size
        invariant
            i <= code.ins_size,
            first == param_reg(*code, 0),
            out@ == param_requests(*code, cfg.entry, i as nat),
        decreases code.ins_size - i,
    {
        let reg: u16 = first + i;
        let ghost before = out@;
        out.push(NameRequest::Fresh { reg });
        out.push(NameRequest::Write { block: cfg.entry, reg });
        i = i + 1;
        assert(out@ =~= param_requests(*code, cfg.entry, i as nat));
    }
    let ghost params = out@;
    let mut i: usize = 0;
    assert(out@ =~= params + block_requests(cfg.blocks@, 0));
    while i < cfg.blocks.len()
        invariant
            i <= cfg.blocks@.len(),
            wide_values_fit(*cfg),
            out@ == params + block_requests(cfg.blocks@, i as nat),
        decreases cfg.blocks@.len() - i,
    {
        let b: &BasicBlock = &cfg.blocks[i];
        let ghost before = out@;
        let mut j: usize = 0;
        assert(out@ =~= before + insn_requests(b.id, b.instructions@, 0));
        while j < b.instructions.len()
            invariant
                i < cfg.blocks@.len(),
                *b == cfg.blocks@[i as int],
                j <= b.instructions@.len(),
                wide_values_fit(*cfg),
                out@ == before + insn_requests(b.id, b.instructions@, j as nat),
            decreases b.instructions@.len() - j,
        {
            let insn: Instruction = b.instructions[j];
            assert(insn == cfg.blocks@[i as int].instructions@[j as int]);
            request_insn(&mut out, b.id, &insn);
            j = j + 1;
            assert(out@ =~= before + insn_requests(b.id, b.instructions@, j as nat));
        }
        i = i + 1;
        assert(out@ =~= params + block_requests(cfg.blocks@, i as nat));
    }
    out
}

// Answers

/// How many answers an instruction takes: one for each register that it reads, and
/// one for the value that it makes.
pub open spec fn answers_for(insn: Instruction) -> nat {
    read(insn).len() + if written(insn) is Some {
        1nat
    } else {
        0nat
    }
}

/// How many answers the first `n` instructions take.
pub open spec fn insn_answers(insns: Seq<Instruction>, n: nat) -> nat
    decreases n,
{
    if n == 0 {
        0
    } else {
        insn_answers(insns, (n - 1) as nat) + answers_for(insns[n - 1])
    }
}

/// How many answers the first `n` blocks take.
pub open spec fn block_answers(blocks: Seq<BasicBlock>, n: nat) -> nat
    decreases n,
{
    if n == 0 {
        0
    } else {
        block_answers(blocks, (n - 1) as nat) + insn_answers(
            blocks[n - 1].instructions@,
            blocks[n - 1].instructions@.len(),
        )
    }
}

/// How many answers a method takes.
pub open spec fn answer_count(code: CodeItem, cfg: Cfg) -> nat {
    code.ins_size as nat + block_answers(cfg.blocks@, cfg.blocks@.len())
}

/// An instruction with its names, which are the answers from position `k` on.
pub open spec fn named(insn: Instruction, answers: Seq<VarId>, k: int) -> Named {
    let n = read(insn).len() as int;
    Named {
        insn,
        dst: if written(insn) is Some {
            Some(answers[k + n])
        } else {
            None
        },
        uses: answers.subrange(k, k + n),
    }
}

/// The first `n` instructions of a block with their names, which are the answers
/// from position `k` on.
pub open spec fn insns_named(
    insns: Seq<Instruction>,
    answers: Seq<VarId>,
    k: int,
    n: nat,
) -> Seq<Named>
    decreases n,
{
    if n == 0 {
        Seq::empty()
    } else {
        insns_named(insns, answers, k, (n - 1) as nat).push(
            named(insns[n - 1], answers, k + insn_answers(insns, (n - 1) as nat)),
        )
    }
}

/// The phis of a block.
pub open spec fn phis_at(phis: Map<u32, Vec<PhiNode>>, id: u32) -> Seq<Phi> {
    if phis.contains_key(id) {
        phis_of(phis[id]@)
    } else {
        Seq::empty()
    }
}

/// A block put among blocks in the order of their numbers, in place of one with the
/// same number.
pub open spec fn with_block(blocks: Seq<Block>, b: Block) -> Seq<Block>
    decreases blocks.len(),
{
    if blocks.len() == 0 || blocks.last().id < b.id {
        blocks.push(b)
    } else if blocks.last().id == b.id {
        blocks.drop_last().push(b)
    } else {
        with_block(blocks.drop_last(), b).push(blocks.last())
    }
}

/// The first `n` blocks with their names and phis, in the order of their numbers.
/// Of blocks with one number the last counts.
pub open spec fn drafted(
    blocks: Seq<BasicBlock>,
    answers: Seq<VarId>,
    phis: Map<u32, Vec<PhiNode>>,
    k: int,
    n: nat,
) -> Seq<Block>
    decreases n,
{
    if n == 0 {
        Seq::empty()
    } else {
        let b = blocks[n - 1];
        with_block(
            drafted(blocks, answers, phis, k, (n - 1) as nat),
            Block {
                id: b.id,
                phis: phis_at(phis, b.id),
                insns: insns_named(
                    b.instructions@,
                    answers,
                    k + block_answers(blocks, (n - 1) as nat),
                    b.instructions@.len(),
                ),
            },
        )
    }
}

/// The answers to the requests for a method, the phis that came up, and how many
/// names were given.
#[derive(Debug)]
pub struct Names {
    pub answers: Vec<VarId>,
    pub phis: BTreeMap<BlockIdx, Vec<PhiNode>>,
    pub var_count: u32,
}

/// A map holds just these blocks.
pub open spec fn holds(m: Map<u32, SsaBlock>, blocks: Seq<Block>) -> bool {
    &&& forall|i: int|
        #![trigger blocks[i]]
        0 <= i < blocks.len() ==> m.contains_key(blocks[i].id) && m[blocks[i].id]@ == blocks[i]
    &&& forall|id: u32| #[trigger]
        m.contains_key(id) ==> exists|i: int|
            0 <= i < blocks.len() && (#[trigger] blocks[i]).id == id
}

proof fn insn_answers_grow(insns: Seq<Instruction>, n: nat, total: nat)
    requires
        n <= total,
    ensures
        insn_answers(insns, n) <= insn_answers(insns, total),
    decreases total - n,
{
    if n < total {
        insn_answers_grow(insns, n, (total - 1) as nat);
    }
}

proof fn block_answers_grow(blocks: Seq<BasicBlock>, n: nat, total: nat)
    requires
        n <= total,
    ensures
        block_answers(blocks, n) <= block_answers(blocks, total),
    decreases total - n,
{
    if n < total {
        block_answers_grow(blocks, n, (total - 1) as nat);
    }
}

proof fn with_block_at(blocks: Seq<Block>, b: Block, k: int)
    requires
        0 <= k <= blocks.len(),
        k == 0 || blocks[k - 1].id <= b.id,
        forall|j: int| k <= j < blocks.len() ==> (#[trigger] blocks[j]).id > b.id,
    ensures
        with_block(blocks, b) == (if k > 0 && blocks[k - 1].id == b.id {
            blocks.update(k - 1, b)
        } else {
            blocks.insert(k, b)
        }),
    decreases blocks.len(),
{
    if k < blocks.len() {
        with_block_at(blocks.drop_last(), b, k);
        if k > 0 && blocks[k - 1].id == b.id {
            assert(blocks.drop_last().update(k - 1, b).push(blocks.last()) =~= blocks.update(
                k - 1,
                b,
            ));
        } else {
            assert(blocks.drop_last().insert(k, b).push(blocks.last()) =~= blocks.insert(k, b));
        }
    } else if k > 0 && blocks[k - 1].id == b.id {
        assert(blocks.drop_last().push(b) =~= blocks.update(k - 1, b));
    } else {
        assert(blocks.push(b) =~= blocks.insert(k, b));
    }
}

fn put_block(blocks: &mut Vec<SsaBlock>, b: SsaBlock)
    ensures
        blocks_of(final(blocks)@) == with_block(blocks_of(old(blocks)@), b@),
{
    let ghost before = blocks@;
    let ghost content = b@;
    let mut k: usize = blocks.len();
    while k > 0 && blocks[k - 1].id > b.id
        invariant
            k <= blocks@.len(),
            blocks@ == before,
            forall|j: int| k <= j < blocks@.len() ==> (#[trigger] blocks@[j]).id > b.id,
        decreases k,
    {
        k = k - 1;
    }
    proof {
        assert forall|j: int| k <= j < blocks_of(before).len() implies (#[trigger] blocks_of(
            before,
        )[j]).id > content.id by {
            assert(blocks_of(before)[j] == before[j]@);
        }
        with_block_at(blocks_of(before), content, k as int);
    }
    if k > 0 && blocks[k - 1].id == b.id {
        blocks.set(k - 1, b);
        assert(blocks_of(blocks@) =~= blocks_of(before).update(k - 1, content));
    } else {
        blocks.insert(k, b);
        assert(blocks_of(blocks@) =~= blocks_of(before).insert(k as int, content));
    }
}

fn copy_phis(phis: &BTreeMap<BlockIdx, Vec<PhiNode>>, id: BlockIdx) -> (r: Vec<PhiNode>)
    ensures
        phis_of(r@) == phis_at(phis@, id),
{
    let mut out: Vec<PhiNode> = Vec::new();
    assert(phis_of(out@) =~= Seq::empty());
    match bound(phis, id) {
        None => {},
        Some(list) => {
            let mut i: usize = 0;
            while i < list.len()
                invariant
                    i <= list@.len(),
                    out@.len() == i,
                    phis_of(out@) =~= phis_of(list@).take(i as int),
                decreases list@.len() - i,
            {
                let ghost before = out@;
                let phi = PhiNode { dst: list[i].dst, operands: list[i].operands.clone() };
                assert(phi@ == list@[i as int]@);
                out.push(phi);
                i = i + 1;
                assert(phis_of(out@) =~= phis_of(before).push(phi@));
                assert(phis_of(out@) =~= phis_of(list@).take(i as int));
            }
            assert(phis_of(out@) =~= phis_of(list@));
        },
    }
    out
}

/// The instructions of a block with their names, from position `k` of the answers
/// on, and the position after them. There is none where the answers do not suffice.
fn name_insns(insns: &Vec<Instruction>, answers: &Vec<VarId>, k: usize) -> (r: Option<
    (Vec<SsaInsn>, usize),
>)
    requires
        k <= answers@.len(),
    ensures
        match r {
            Some((v, next)) => next == k + insn_answers(insns@, insns@.len()) && next
                <= answers@.len() && insns_of(v@) == insns_named(
                insns@,
                answers@,
                k as int,
                insns@.len(),
            ),
            None => k + insn_answers(insns@, insns@.len()) > answers@.len(),
        },
{
    let mut out: Vec<SsaInsn> = Vec::new();
    let mut at: usize = k;
    let mut j: usize = 0;
    assert(insns_of(out@) =~= Seq::empty());
    while j < insns.len()
        invariant
            j <= insns@.len(),
            k <= at <= answers@.len(),
            at == k + insn_answers(insns@, j as nat),
            insns_of(out@) == insns_named(insns@, answers@, k as int, j as nat),
        decreases insns@.len() - j,
    {
        let insn: Instruction = insns[j];
        let u = classify_reg_use(&insn);
        let n: usize = u.reads.len();
        let defines: usize = if u.def.is_some() {
            1
        } else {
            0
        };
        proof {
            insn_answers_grow(insns@, (j + 1) as nat, insns@.len());
        }
        if n > answers.len() - at || defines > answers.len() - at - n {
            return None;
        }
        let mut uses: Vec<VarId> = Vec::new();
        uses.extend_from_slice(vstd::slice::slice_subrange(answers.as_slice(), at, at + n));
        assert(uses@ =~= answers@.subrange(at as int, at + n));
        let dst: Option<VarId> = if u.def.is_some() {
            Some(answers[at + n])
        } else {
            None
        };
        let ghost before = out@;
        let named_insn = SsaInsn { insn, dst, uses };
        assert(named_insn@ =~= named(insn, answers@, at as int));
        out.push(named_insn);
        assert(insns_of(out@) =~= insns_of(before).push(named_insn@));
        at = at + n + defines;
        j = j + 1;
    }
    Some((out, at))
}

impl SsaBody {
    /// A method with names for its values. There is none where there are not just as
    /// many answers as it takes. Phis that stand for one value are replaced by it.
    pub fn build(code: &CodeItem, cfg: &Cfg, names: &Names) -> (r: Option<SsaBody>)
        ensures
            match r {
                None => names.answers@.len() != answer_count(*code, *cfg),
                Some(body) => {
                    &&& names.answers@.len() == answer_count(*code, *cfg)
                    &&& body.entry == cfg.entry
                    &&& body.var_counter == names.var_count
                    &&& body.param_vars@ == names.answers@.take(code.ins_size as int)
                    &&& holds(
                        body.blocks@,
                        minimal(
                            drafted(
                                cfg.blocks@,
                                names.answers@,
                                names.phis@,
                                code.ins_size as int,
                                cfg.blocks@.len(),
                            ),
                        ),
                    )
                },
            },
    {
        let params: usize = code.ins_size as usize;
        if params > names.answers.len() {
            return None;
        }
        let mut param_vars: Vec<VarId> = Vec::new();
        param_vars.extend_from_slice(
            vstd::slice::slice_subrange(names.answers.as_slice(), 0, params),
        );
        assert(param_vars@ =~= names.answers@.take(params as int));
        let mut blocks: Vec<SsaBlock> = Vec::new();
        let mut at: usize = params;
        let mut i: usize = 0;
        assert(blocks_of(blocks@) =~= Seq::empty());
        while i < cfg.blocks.len()
            invariant
                i <= cfg.blocks@.len(),
                params == code.ins_size,
                params <= at <= names.answers@.len(),
                at == params + block_answers(cfg.blocks@, i as nat),
                blocks_of(blocks@) == drafted(
                    cfg.blocks@,
                    names.answers@,
                    names.phis@,
                    params as int,
                    i as nat,
                ),
            decreases cfg.blocks@.len() - i,
        {
            let b: &BasicBlock = &cfg.blocks[i];
            proof {
                block_answers_grow(cfg.blocks@, (i + 1) as nat, cfg.blocks@.len());
            }
            match name_insns(&b.instructions, &names.answers, at) {
                None => {
                    return None;
                },
                Some((insns, next)) => {
                    let block = SsaBlock { id: b.id, phis: copy_phis(&names.phis, b.id), insns };
                    put_block(&mut blocks, block);
                    at = next;
                },
            }
            i = i + 1;
        }
        if at != names.answers.len() {
            return None;
        }
        let ghost draft = blocks_of(blocks@);
        proof {
            drafted_ascends(
                cfg.blocks@,
                names.answers@,
                names.phis@,
                params as int,
                cfg.blocks@.len(),
            );
            crate::ssa::phis::removal_keeps_instructions(draft);
        }
        let done = remove_trivial_phis(blocks);
        assert(ids_ascend(blocks_of(done@))) by {
            let last = minimal(draft);
            assert forall|x: int, y: int| 0 <= x < y < last.len() implies last[x].id < last[y].id by {
                assert(last[x].id == draft[x].id);
                assert(last[y].id == draft[y].id);
            }
        }
        let map = map_blocks(done);
        Some(
            SsaBody { blocks: map, entry: cfg.entry, var_counter: names.var_count, param_vars },
        )
    }
}

/// The numbers of blocks ascend.
pub open spec fn ids_ascend(blocks: Seq<Block>) -> bool {
    forall|i: int, j: int| 0 <= i < j < blocks.len() ==> blocks[i].id < blocks[j].id
}

proof fn with_block_ascends(blocks: Seq<Block>, b: Block)
    requires
        ids_ascend(blocks),
    ensures
        ids_ascend(with_block(blocks, b)),
        forall|i: int|
            0 <= i < with_block(blocks, b).len() ==> (#[trigger] with_block(blocks, b)[i]).id == b.id
                || exists|j: int| 0 <= j < blocks.len() && (#[trigger] blocks[j]).id == with_block(
                blocks,
                b,
            )[i].id,
    decreases blocks.len(),
{
    let w = with_block(blocks, b);
    if blocks.len() == 0 || blocks.last().id < b.id {
        assert forall|i: int| 0 <= i < w.len() implies (#[trigger] w[i]).id == b.id || exists|j: int|
            0 <= j < blocks.len() && (#[trigger] blocks[j]).id == w[i].id by {
            if i < blocks.len() {
                assert(blocks[i].id == w[i].id);
            }
        }
        assert forall|i: int, j: int| 0 <= i < j < w.len() implies w[i].id < w[j].id by {
            if j == blocks.len() {
                if i < blocks.len() - 1 {
                    assert(blocks[i].id < blocks[blocks.len() - 1].id);
                }
            }
        }
    } else if blocks.last().id == b.id {
        let front = blocks.drop_last();
        assert(w =~= blocks.update(blocks.len() - 1, b));
        assert forall|i: int| 0 <= i < w.len() implies (#[trigger] w[i]).id == b.id || exists|j: int|
            0 <= j < blocks.len() && (#[trigger] blocks[j]).id == w[i].id by {
            if i < blocks.len() - 1 {
                assert(blocks[i].id == w[i].id);
            }
        }
    } else {
        let front = blocks.drop_last();
        let last = blocks.last();
        with_block_ascends(front, b);
        let v = with_block(front, b);
        assert forall|i: int| 0 <= i < v.len() implies (#[trigger] v[i]).id < last.id by {
            if v[i].id != b.id {
                let j = choose|j: int| 0 <= j < front.len() && (#[trigger] front[j]).id == v[i].id;
                assert(blocks[j].id < blocks[blocks.len() - 1].id);
            }
        }
        assert forall|i: int| 0 <= i < w.len() implies (#[trigger] w[i]).id == b.id || exists|j: int|
            0 <= j < blocks.len() && (#[trigger] blocks[j]).id == w[i].id by {
            if i < v.len() {
                if v[i].id != b.id {
                    let j = choose|j: int|
                        0 <= j < front.len() && (#[trigger] front[j]).id == v[i].id;
                    assert(blocks[j].id == w[i].id);
                }
            } else {
                assert(blocks[blocks.len() - 1].id == w[i].id);
            }
        }
    }
}

proof fn drafted_ascends(
    blocks: Seq<BasicBlock>,
    answers: Seq<VarId>,
    phis: Map<u32, Vec<PhiNode>>,
    k: int,
    n: nat,
)
    ensures
        ids_ascend(drafted(blocks, answers, phis, k, n)),
    decreases n,
{
    if n > 0 {
        drafted_ascends(blocks, answers, phis, k, (n - 1) as nat);
        let b = blocks[n - 1];
        with_block_ascends(
            drafted(blocks, answers, phis, k, (n - 1) as nat),
            Block {
                id: b.id,
                phis: phis_at(phis, b.id),
                insns: insns_named(
                    b.instructions@,
                    answers,
                    k + block_answers(blocks, (n - 1) as nat),
                    b.instructions@.len(),
                ),
            },
        );
    }
}

fn map_blocks(blocks: Vec<SsaBlock>) -> (r: BTreeMap<BlockIdx, SsaBlock>)
    requires
        ids_ascend(blocks_of(blocks@)),
    ensures
        holds(r@, blocks_of(blocks@)),
{
    let ghost all = blocks_of(blocks@);
    let mut rest: Vec<SsaBlock> = blocks;
    let mut out: BTreeMap<BlockIdx, SsaBlock> = BTreeMap::new();
    assert(out@ =~= Map::empty());
    while rest.len() > 0
        invariant
            ids_ascend(all),
            rest@.len() <= all.len(),
            blocks_of(rest@) =~= all.take(rest@.len() as int),
            forall|i: int|
                #![trigger all[i]]
                rest@.len() <= i < all.len() ==> out@.contains_key(all[i].id)
                    && out@[all[i].id]@ == all[i],
            forall|id: u32| #[trigger]
                out@.contains_key(id) ==> exists|i: int|
                    rest@.len() <= i < all.len() && (#[trigger] all[i]).id == id,
        decreases rest@.len(),
    {
        let ghost before = rest@;
        let ghost known = out@;
        match rest.pop() {
            None => {},
            Some(b) => {
                let ghost n = before.len() - 1;
                assert(all[n] == b@) by {
                    assert(blocks_of(before)[n] == before[n]@);
                }
                assert(blocks_of(rest@) =~= all.take(n));
                bind(&mut out, b.id, b);
                assert forall|i: int| n <= i < all.len() implies out@.contains_key(
                    (#[trigger] all[i]).id,
                ) && out@[all[i].id]@ == all[i] by {
                    if i > n {
                        assert(all[n].id < all[i].id);
                    }
                }
                assert forall|id: u32| #[trigger] out@.contains_key(id) implies exists|i: int|
                    n <= i < all.len() && (#[trigger] all[i]).id == id by {
                    if id == b.id {
                        assert(all[n].id == id);
                    } else {
                        assert(known.contains_key(id));
                    }
                }
            },
        }
    }
    out
}

} // verus!
