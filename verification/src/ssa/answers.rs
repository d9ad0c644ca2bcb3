//! Requests for names and their answers belong together.
use vstd::prelude::*;

use crate::cfg::{BasicBlock, Cfg};
use crate::decode::{CodeItem, Instruction};
use crate::ssa::body::{Block, PhiNode, VarId};
use crate::ssa::naming::{
    answer_count, answers_for, block_answers, block_requests, drafted, insn_answers, insn_requests,
    insns_named, named, param_reg, param_requests, phis_at, read_requests, requests, with_block,
    write_requests, NameRequest,
};
use crate::ssa::registers::{read, usage, written};

verus! {

/// Those of the requests that are answered by a name, in order.
pub open spec fn answered(s: Seq<NameRequest>) -> Seq<NameRequest>
    decreases s.len(),
{
    if s.len() == 0 {
        Seq::empty()
    } else if s.last() is Write {
        answered(s.drop_last())
    } else {
        answered(s.drop_last()).push(s.last())
    }
}

proof fn lemma_joined(a: Seq<NameRequest>, b: Seq<NameRequest>)
    ensures
        answered(a + b) == answered(a) + answered(b),
    decreases b.len(),
{
    if b.len() == 0 {
        assert(a + b =~= a);
        assert(answered(a) + answered(b) =~= answered(a));
    } else {
        lemma_joined(a, b.drop_last());
        assert((a + b).drop_last() =~= a + b.drop_last());
        assert((a + b).last() == b.last());
        assert(answered(a + b) =~= answered(a) + answered(b));
    }
}

proof fn lemma_reads(block: u32, regs: Seq<u16>)
    ensures
        answered(read_requests(block, regs)) == read_requests(block, regs),
    decreases regs.len(),
{
    let s = read_requests(block, regs);
    if regs.len() == 0 {
        assert(s =~= Seq::empty());
    } else {
        lemma_reads(block, regs.drop_last());
        assert(s.drop_last() =~= read_requests(block, regs.drop_last()));
        assert(s.drop_last().push(s.last()) =~= s);
    }
}

/// The request for the value that an instruction makes.
spec fn made(insn: Instruction) -> Seq<NameRequest> {
    match written(insn) {
        None => Seq::empty(),
        Some(reg) => seq![NameRequest::Fresh { reg }],
    }
}

proof fn lemma_writes(block: u32, insn: Instruction)
    ensures
        answered(write_requests(block, insn)) == made(insn),
{
    if let Some(reg) = written(insn) {
        let fresh = NameRequest::Fresh { reg };
        let first = NameRequest::Write { block, reg };
        let one = seq![fresh];
        let two = seq![fresh, first];
        assert(one.drop_last() =~= Seq::empty());
        assert(answered(one) =~= one) by {
            assert(answered(one.drop_last()) =~= Seq::empty());
        }
        assert(two.drop_last() =~= one);
        assert(answered(two) == one);
        if usage(insn.op).wide {
            let s = write_requests(block, insn);
            assert(s.drop_last() =~= two);
            assert(s.last() is Write);
        }
    }
}

proof fn lemma_params(code: CodeItem, entry: u32, n: nat)
    ensures
        answered(param_requests(code, entry, n)) == Seq::new(
            n,
            |i: int| NameRequest::Fresh { reg: param_reg(code, i) },
        ),
    decreases n,
{
    let goal = Seq::new(n, |i: int| NameRequest::Fresh { reg: param_reg(code, i) });
    if n == 0 {
        assert(goal =~= Seq::empty());
    } else {
        let reg = param_reg(code, n - 1);
        let fresh = NameRequest::Fresh { reg };
        let s = param_requests(code, entry, n);
        let front = param_requests(code, entry, (n - 1) as nat);
        lemma_params(code, entry, (n - 1) as nat);
        assert(s.drop_last() =~= front.push(fresh));
        assert(s.last() is Write);
        assert(front.push(fresh).drop_last() =~= front);
        assert(answered(s) == answered(front.push(fresh)));
        assert(answered(front.push(fresh)) == answered(front).push(fresh));
        assert(answered(front).push(fresh) =~= goal);
    }
}

/// The requests that an instruction has answered.
spec fn of_insn(block: u32, insn: Instruction) -> Seq<NameRequest> {
    read_requests(block, read(insn)) + made(insn)
}

proof fn lemma_insns(block: u32, insns: Seq<Instruction>, n: nat)
    ensures
        answered(insn_requests(block, insns, n)).len() == insn_answers(insns, n),
        n > 0 ==> answered(insn_requests(block, insns, n)) == answered(
            insn_requests(block, insns, (n - 1) as nat),
        ) + of_insn(block, insns[n - 1]),
    decreases n,
{
    if n > 0 {
        let front = insn_requests(block, insns, (n - 1) as nat);
        let reads = read_requests(block, read(insns[n - 1]));
        let writes = write_requests(block, insns[n - 1]);
        lemma_insns(block, insns, (n - 1) as nat);
        lemma_joined(front + reads, writes);
        lemma_joined(front, reads);
        lemma_reads(block, read(insns[n - 1]));
        lemma_writes(block, insns[n - 1]);
        assert(answered(front) + reads + made(insns[n - 1]) =~= answered(front) + (reads + made(
            insns[n - 1],
        )));
    }
}

/// What a method has at a stretch of its requests that are answered: those of an
/// instruction from position `k` on.
pub open spec fn asks_for(
    asked: Seq<NameRequest>,
    k: int,
    block: u32,
    insn: Instruction,
) -> bool {
    let n = read(insn).len();
    &&& 0 <= k
    &&& k + answers_for(insn) <= asked.len()
    &&& forall|u: int|
        #![trigger read(insn)[u]]
        0 <= u < n ==> asked[k + u] == (NameRequest::Read { block, reg: read(insn)[u] })
    &&& written(insn) matches Some(reg) ==> asked[k + n] == (NameRequest::Fresh { reg })
}

proof fn lemma_further(
    a: Seq<NameRequest>,
    b: Seq<NameRequest>,
    c: Seq<NameRequest>,
    k: int,
    block: u32,
    insn: Instruction,
)
    requires
        asks_for(b, k, block, insn),
    ensures
        asks_for(a + b + c, a.len() + k, block, insn),
{
    let s = a + b + c;
    assert forall|i: int| 0 <= i < b.len() implies #[trigger] b[i] == s[a.len() + i] by {}
    assert forall|u: int| #![trigger read(insn)[u]] 0 <= u < read(insn).len() implies s[a.len() + k
        + u] == (NameRequest::Read { block, reg: read(insn)[u] }) by {
        assert(b[k + u] == s[a.len() + (k + u)]);
    }
    if written(insn) is Some {
        assert(b[k + read(insn).len()] == s[a.len() + (k + read(insn).len())]);
    }
}

proof fn lemma_insn_at(block: u32, insns: Seq<Instruction>, n: nat, j: int)
    requires
        0 <= j < n <= insns.len(),
    ensures
        asks_for(
            answered(insn_requests(block, insns, n)),
            insn_answers(insns, j as nat) as int,
            block,
            insns[j],
        ),
    decreases n,
{
    let front = answered(insn_requests(block, insns, (n - 1) as nat));
    let last = of_insn(block, insns[n - 1]);
    lemma_insns(block, insns, n);
    lemma_insns(block, insns, (n - 1) as nat);
    assert(front + last =~= front + last + Seq::empty());
    assert(Seq::<NameRequest>::empty() + front + last =~= front + last);
    if j < n - 1 {
        lemma_insn_at(block, insns, (n - 1) as nat, j);
        lemma_further(
            Seq::empty(),
            front,
            last,
            insn_answers(insns, j as nat) as int,
            block,
            insns[j],
        );
    } else {
        assert(asks_for(last, 0, block, insns[j]));
        lemma_further(front, last, Seq::empty(), 0, block, insns[j]);
    }
}

proof fn lemma_blocks(blocks: Seq<BasicBlock>, n: nat)
    requires
        n <= blocks.len(),
    ensures
        answered(block_requests(blocks, n)).len() == block_answers(blocks, n),
        n > 0 ==> answered(block_requests(blocks, n)) == answered(
            block_requests(blocks, (n - 1) as nat),
        ) + answered(
            insn_requests(
                blocks[n - 1].id,
                blocks[n - 1].instructions@,
                blocks[n - 1].instructions@.len(),
            ),
        ),
    decreases n,
{
    if n > 0 {
        let b = blocks[n - 1];
        let own = insn_requests(b.id, b.instructions@, b.instructions@.len());
        lemma_blocks(blocks, (n - 1) as nat);
        lemma_insns(b.id, b.instructions@, b.instructions@.len());
        lemma_joined(block_requests(blocks, (n - 1) as nat), own);
    }
}

proof fn lemma_block_at(blocks: Seq<BasicBlock>, n: nat, i: int, j: int)
    requires
        0 <= i < n <= blocks.len(),
        0 <= j < blocks[i].instructions@.len(),
    ensures
        asks_for(
            answered(block_requests(blocks, n)),
            (block_answers(blocks, i as nat) + insn_answers(
                blocks[i].instructions@,
                j as nat,
            )) as int,
            blocks[i].id,
            blocks[i].instructions@[j],
        ),
    decreases n,
{
    let b = blocks[n - 1];
    let front = answered(block_requests(blocks, (n - 1) as nat));
    let last = answered(insn_requests(b.id, b.instructions@, b.instructions@.len()));
    lemma_blocks(blocks, n);
    lemma_blocks(blocks, (n - 1) as nat);
    assert(front + last =~= front + last + Seq::empty());
    assert(Seq::<NameRequest>::empty() + front + last =~= front + last);
    if i < n - 1 {
        lemma_block_at(blocks, (n - 1) as nat, i, j);
        lemma_further(
            Seq::empty(),
            front,
            last,
            (block_answers(blocks, i as nat) + insn_answers(
                blocks[i].instructions@,
                j as nat,
            )) as int,
            blocks[i].id,
            blocks[i].instructions@[j],
        );
    } else {
        lemma_insn_at(b.id, b.instructions@, b.instructions@.len(), j);
        lemma_further(
            front,
            last,
            Seq::empty(),
            insn_answers(b.instructions@, j as nat) as int,
            b.id,
            b.instructions@[j],
        );
    }
}

/// A method takes just as many answers as it has requests that are answered by a name.
pub proof fn each_request_takes_one_answer(code: CodeItem, cfg: Cfg)
    ensures
        answered(requests(code, cfg)).len() == answer_count(code, cfg),
{
    let params = param_requests(code, cfg.entry, code.ins_size as nat);
    let own = block_requests(cfg.blocks@, cfg.blocks@.len());
    lemma_joined(params, own);
    lemma_params(code, cfg.entry, code.ins_size as nat);
    lemma_blocks(cfg.blocks@, cfg.blocks@.len());
}

/// The requests for the parameters come first, one for each.
pub proof fn parameters_are_asked_for_first(code: CodeItem, cfg: Cfg, i: int)
    requires
        0 <= i < code.ins_size,
    ensures
        i < answered(requests(code, cfg)).len(),
        answered(requests(code, cfg))[i] == (NameRequest::Fresh { reg: param_reg(code, i) }),
{
    let params = param_requests(code, cfg.entry, code.ins_size as nat);
    let own = block_requests(cfg.blocks@, cfg.blocks@.len());
    lemma_joined(params, own);
    lemma_params(code, cfg.entry, code.ins_size as nat);
}

/// The position of the first answer for an instruction.
pub open spec fn answer_place(code: CodeItem, cfg: Cfg, i: int, j: int) -> int {
    code.ins_size + block_answers(cfg.blocks@, i as nat) + insn_answers(
        cfg.blocks@[i].instructions@,
        j as nat,
    )
}

/// The requests for an instruction stand where its answers are taken from: one for each
/// register that it reads, in order, and then one for the value that it makes.
pub proof fn instructions_are_asked_for_in_place(code: CodeItem, cfg: Cfg, i: int, j: int)
    requires
        0 <= i < cfg.blocks@.len(),
        0 <= j < cfg.blocks@[i].instructions@.len(),
    ensures
        asks_for(
            answered(requests(code, cfg)),
            answer_place(code, cfg, i, j),
            cfg.blocks@[i].id,
            cfg.blocks@[i].instructions@[j],
        ),
{
    let params = param_requests(code, cfg.entry, code.ins_size as nat);
    let own = block_requests(cfg.blocks@, cfg.blocks@.len());
    lemma_joined(params, own);
    lemma_params(code, cfg.entry, code.ins_size as nat);
    lemma_block_at(cfg.blocks@, cfg.blocks@.len(), i, j);
    assert(answered(params) + answered(own) =~= answered(params) + answered(own) + Seq::empty());
    lemma_further(
        answered(params),
        answered(own),
        Seq::empty(),
        (block_answers(cfg.blocks@, i as nat) + insn_answers(
            cfg.blocks@[i].instructions@,
            j as nat,
        )) as int,
        cfg.blocks@[i].id,
        cfg.blocks@[i].instructions@[j],
    );
}

// Where the answers go

proof fn lemma_named_at(insns: Seq<Instruction>, answers: Seq<VarId>, k: int, n: nat, j: int)
    ensures
        insns_named(insns, answers, k, n).len() == n,
        0 <= j < n ==> insns_named(insns, answers, k, n)[j] == named(
            insns[j],
            answers,
            k + insn_answers(insns, j as nat),
        ),
    decreases n,
{
    if n > 0 {
        lemma_named_at(insns, answers, k, (n - 1) as nat, j);
    }
}

/// Blocks come in the order of their numbers.
spec fn ordered(blocks: Seq<Block>) -> bool {
    forall|x: int, y: int| 0 <= x < y < blocks.len() ==> blocks[x].id < blocks[y].id
}

proof fn lemma_with_block(blocks: Seq<Block>, b: Block)
    requires
        ordered(blocks),
    ensures
        ordered(with_block(blocks, b)),
        with_block(blocks, b).contains(b),
        forall|c: Block| #[trigger]
            blocks.contains(c) && c.id != b.id ==> with_block(blocks, b).contains(c),
        forall|c: Block| #[trigger]
            with_block(blocks, b).contains(c) ==> c == b || blocks.contains(c),
    decreases blocks.len(),
{
    let all = with_block(blocks, b);
    if blocks.len() == 0 || blocks.last().id < b.id {
        assert(all[blocks.len() as int] == b);
        assert forall|c: Block| #[trigger] blocks.contains(c) implies all.contains(c) by {
            let j = choose|j: int| 0 <= j < blocks.len() && blocks[j] == c;
            assert(all[j] == c);
        }
    } else if blocks.last().id == b.id {
        assert(all[blocks.len() - 1] == b);
        assert forall|c: Block| #[trigger]
            blocks.contains(c) && c.id != b.id implies all.contains(c) by {
            let j = choose|j: int| 0 <= j < blocks.len() && blocks[j] == c;
            assert(all[j] == c);
        }
    } else {
        let front = blocks.drop_last();
        let rest = with_block(front, b);
        lemma_with_block(front, b);
        let i = choose|i: int| 0 <= i < rest.len() && rest[i] == b;
        assert(all[i] == b);
        assert(all[rest.len() as int] == blocks.last());
        assert forall|c: Block| #[trigger]
            blocks.contains(c) && c.id != b.id implies all.contains(c) by {
            let j = choose|j: int| 0 <= j < blocks.len() && blocks[j] == c;
            if j < front.len() {
                assert(front[j] == c);
                assert(front.contains(c));
                let l = choose|l: int| 0 <= l < rest.len() && rest[l] == c;
                assert(all[l] == c);
            }
        }
        assert forall|c: Block| #[trigger] all.contains(c) implies c == b || blocks.contains(c) by {
            let l = choose|l: int| 0 <= l < all.len() && all[l] == c;
            if l < rest.len() {
                assert(rest.contains(c));
                if c != b {
                    let j = choose|j: int| 0 <= j < front.len() && front[j] == c;
                    assert(blocks[j] == c);
                }
            } else {
                assert(blocks[blocks.len() - 1] == c);
            }
        }
        assert forall|x: int, y: int| 0 <= x < y < all.len() implies all[x].id < all[y].id by {
            assert(rest.contains(rest[x]));
            if y == rest.len() {
                if rest[x] != b {
                    let j = choose|j: int| 0 <= j < front.len() && front[j] == rest[x];
                    assert(blocks[j].id < blocks[blocks.len() - 1].id);
                }
            }
        }
    }
}

/// A block as it is drafted: with its phis, and with the answers from its place on.
pub open spec fn draft_of(
    code: CodeItem,
    cfg: Cfg,
    answers: Seq<VarId>,
    phis: Map<u32, Vec<PhiNode>>,
    i: int,
) -> Block {
    let b = cfg.blocks@[i];
    Block {
        id: b.id,
        phis: phis_at(phis, b.id),
        insns: insns_named(
            b.instructions@,
            answers,
            code.ins_size + block_answers(cfg.blocks@, i as nat),
            b.instructions@.len(),
        ),
    }
}

proof fn lemma_drafted(
    code: CodeItem,
    cfg: Cfg,
    answers: Seq<VarId>,
    phis: Map<u32, Vec<PhiNode>>,
    n: nat,
    i: int,
)
    requires
        n <= cfg.blocks@.len(),
    ensures
        ordered(drafted(cfg.blocks@, answers, phis, code.ins_size as int, n)),
        0 <= i < n && (forall|l: int| i < l < n ==> (#[trigger] cfg.blocks@[l]).id
            != cfg.blocks@[i].id) ==> drafted(
            cfg.blocks@,
            answers,
            phis,
            code.ins_size as int,
            n,
        ).contains(draft_of(code, cfg, answers, phis, i)),
    decreases n,
{
    if n > 0 {
        let front = drafted(cfg.blocks@, answers, phis, code.ins_size as int, (n - 1) as nat);
        lemma_drafted(code, cfg, answers, phis, (n - 1) as nat, i);
        lemma_with_block(front, draft_of(code, cfg, answers, phis, n - 1));
        if 0 <= i < n - 1 && (forall|l: int| i < l < n ==> (#[trigger] cfg.blocks@[l]).id
            != cfg.blocks@[i].id) {
            assert(cfg.blocks@[n - 1].id != cfg.blocks@[i].id);
            assert(front.contains(draft_of(code, cfg, answers, phis, i)));
        }
    }
}

/// The answers to the requests for an instruction become its names: what it uses are the
/// answers to its reads, in order, and what it makes is the answer to its request for a new
/// name. The block is the last one with its number, and has the phis that came up for it.
pub proof fn answers_become_the_names(
    code: CodeItem,
    cfg: Cfg,
    answers: Seq<VarId>,
    phis: Map<u32, Vec<PhiNode>>,
    i: int,
    j: int,
)
    requires
        answers.len() == answer_count(code, cfg),
        0 <= i < cfg.blocks@.len(),
        forall|l: int|
            i < l < cfg.blocks@.len() ==> (#[trigger] cfg.blocks@[l]).id != cfg.blocks@[i].id,
        0 <= j < cfg.blocks@[i].instructions@.len(),
    ensures
        ({
            let b = draft_of(code, cfg, answers, phis, i);
            let insn = cfg.blocks@[i].instructions@[j];
            let k = answer_place(code, cfg, i, j);
            let n = read(insn).len();
            &&& drafted(
                cfg.blocks@,
                answers,
                phis,
                code.ins_size as int,
                cfg.blocks@.len(),
            ).contains(b)
            &&& b.id == cfg.blocks@[i].id
            &&& if phis.contains_key(b.id) {
                b.phis.len() == phis[b.id]@.len() && forall|p: int|
                    0 <= p < b.phis.len() ==> (#[trigger] b.phis[p]).dst == phis[b.id]@[p].dst
                        && b.phis[p].operands == phis[b.id]@[p].operands@
            } else {
                b.phis.len() == 0
            }
            &&& b.insns.len() == cfg.blocks@[i].instructions@.len()
            &&& b.insns[j].insn == insn
            &&& b.insns[j].uses.len() == n
            &&& forall|u: int| 0 <= u < n ==> #[trigger] b.insns[j].uses[u] == answers[k + u]
            &&& b.insns[j].dst == if written(insn) is Some {
                Some(answers[k + n])
            } else {
                None
            }
        }),
{
    let insns = cfg.blocks@[i].instructions@;
    let insn = insns[j];
    let k = answer_place(code, cfg, i, j);
    lemma_drafted(code, cfg, answers, phis, cfg.blocks@.len(), i);
    lemma_named_at(
        insns,
        answers,
        code.ins_size + block_answers(cfg.blocks@, i as nat),
        insns.len(),
        j,
    );
    instructions_are_asked_for_in_place(code, cfg, i, j);
    each_request_takes_one_answer(code, cfg);
    assert(k + read(insn).len() <= answers.len());
}

} // verus!
