//! What is asked for, and in which order.
use vstd::prelude::*;
use vstd::string::*;

use crate::cfg::{BasicBlock, Cfg};
use crate::decode::{CodeItem, Instruction};
use crate::ssa::body::VarId;
use crate::ssa::naming::{
    block_requests, insn_requests, param_reg, param_requests, read_requests, requests,
    write_requests, NameRequest,
};
use crate::ssa::registers::{read, usage, written};
use crate::text::{decimal, number_read, numbers_read_back, numeral};

verus! {

// Parameters

/// The parameters are in the last registers, or in the first ones where there are fewer
/// registers than parameters. Each is asked for in turn, before anything else, and is what its
/// register holds at the start of the method.
pub proof fn parameters_are_in_the_last_registers(code: CodeItem, cfg: Cfg, i: int)
    requires
        0 <= i < code.ins_size,
    ensures
        ({
            let s = requests(code, cfg);
            let reg = param_reg(code, i);
            &&& code.ins_size <= code.registers_size ==> reg == code.registers_size - code.ins_size
                + i
            &&& code.ins_size > code.registers_size ==> reg == i
            &&& s.len() >= 2 * code.ins_size
            &&& s[2 * i] == (NameRequest::Fresh { reg })
            &&& s[2 * i + 1] == (NameRequest::Write { block: cfg.entry, reg })
        }),
{
    lemma_params(code, cfg.entry, code.ins_size as nat, i);
}

proof fn lemma_params(code: CodeItem, entry: u32, n: nat, i: int)
    ensures
        param_requests(code, entry, n).len() == 2 * n,
        0 <= i < n ==> param_requests(code, entry, n)[2 * i] == (NameRequest::Fresh {
            reg: param_reg(code, i),
        }) && param_requests(code, entry, n)[2 * i + 1] == (NameRequest::Write {
            block: entry,
            reg: param_reg(code, i),
        }),
    decreases n,
{
    if n > 0 {
        lemma_params(code, entry, (n - 1) as nat, i);
    }
}

// Instructions

/// How many requests an instruction makes: one for each register that it reads, and two for a
/// value that it makes, or three for one that takes two registers.
pub open spec fn asks(insn: Instruction) -> int {
    read(insn).len() + match written(insn) {
        None => 0int,
        Some(_) => if usage(insn.op).wide {
            3
        } else {
            2
        },
    }
}

/// How many requests the first `n` instructions make.
pub open spec fn insns_ask(insns: Seq<Instruction>, n: int) -> int
    decreases n,
{
    if n <= 0 {
        0
    } else {
        insns_ask(insns, n - 1) + asks(insns[n - 1])
    }
}

/// How many requests the first `n` blocks make.
pub open spec fn blocks_ask(blocks: Seq<BasicBlock>, n: int) -> int
    decreases n,
{
    if n <= 0 {
        0
    } else {
        blocks_ask(blocks, n - 1) + insns_ask(
            blocks[n - 1].instructions@,
            blocks[n - 1].instructions@.len() as int,
        )
    }
}

/// From position `k` on, an instruction of a block first asks for what it reads, in order.
/// For what it makes it then asks for a new name, which its register has from there on, and so
/// has the next register where the value takes two.
pub open spec fn asks_at(s: Seq<NameRequest>, k: int, block: u32, insn: Instruction) -> bool {
    let n = read(insn).len();
    &&& 0 <= k <= k + asks(insn) <= s.len()
    &&& forall|u: int|
        #![trigger read(insn)[u]]
        0 <= u < n ==> s[k + u] == (NameRequest::Read { block, reg: read(insn)[u] })
    &&& written(insn) matches Some(reg) ==> {
        &&& s[k + n] == (NameRequest::Fresh { reg })
        &&& s[k + n + 1] == (NameRequest::Write { block, reg })
        &&& usage(insn.op).wide && reg < u16::MAX ==> (s[k + n + 2] matches NameRequest::Write {
            block: b,
            reg: r,
        } && b == block && r == reg + 1)
    }
}

proof fn lemma_insn_len(block: u32, insn: Instruction)
    ensures
        (read_requests(block, read(insn)) + write_requests(block, insn)).len() == asks(insn),
        asks_at(read_requests(block, read(insn)) + write_requests(block, insn), 0, block, insn),
{
    let s = read_requests(block, read(insn)) + write_requests(block, insn);
    let n = read(insn).len();
    assert forall|u: int| #![trigger read(insn)[u]] 0 <= u < n implies s[u] == (NameRequest::Read {
        block,
        reg: read(insn)[u],
    }) by {
        assert(s[u] == read_requests(block, read(insn))[u]);
    }
}

proof fn lemma_shift(
    a: Seq<NameRequest>,
    b: Seq<NameRequest>,
    c: Seq<NameRequest>,
    k: int,
    block: u32,
    insn: Instruction,
)
    requires
        asks_at(b, k, block, insn),
    ensures
        asks_at(a + b + c, a.len() + k, block, insn),
{
    let s = a + b + c;
    let n = read(insn).len();
    assert forall|i: int| 0 <= i < b.len() implies #[trigger] b[i] == s[a.len() + i] by {}
    assert forall|u: int| #![trigger read(insn)[u]] 0 <= u < n implies s[a.len() + k + u] == (
    NameRequest::Read { block, reg: read(insn)[u] }) by {
        assert(b[k + u] == s[a.len() + (k + u)]);
    }
    if written(insn) is Some {
        assert(b[k + n] == s[a.len() + (k + n)]);
        assert(b[k + n + 1] == s[a.len() + (k + n + 1)]);
        if usage(insn.op).wide {
            assert(b[k + n + 2] == s[a.len() + (k + n + 2)]);
        }
    }
}

proof fn lemma_insns(block: u32, insns: Seq<Instruction>, n: nat, j: int)
    requires
        n <= insns.len(),
    ensures
        insn_requests(block, insns, n).len() == insns_ask(insns, n as int),
        0 <= j < n ==> asks_at(
            insn_requests(block, insns, n),
            insns_ask(insns, j),
            block,
            insns[j],
        ),
    decreases n,
{
    if n > 0 {
        let front = insn_requests(block, insns, (n - 1) as nat);
        let own = read_requests(block, read(insns[n - 1])) + write_requests(block, insns[n - 1]);
        let none = Seq::<NameRequest>::empty();
        lemma_insns(block, insns, (n - 1) as nat, j);
        lemma_insn_len(block, insns[n - 1]);
        let s = insn_requests(block, insns, n);
        assert(s =~= front + own + none);
        assert(s =~= none + front + own);
        if j == n - 1 {
            lemma_shift(front, own, none, 0, block, insns[j]);
        } else if 0 <= j < n {
            lemma_shift(none, front, own, insns_ask(insns, j), block, insns[j]);
        }
    }
}

proof fn lemma_blocks(blocks: Seq<BasicBlock>, n: nat, i: int, j: int)
    requires
        n <= blocks.len(),
    ensures
        block_requests(blocks, n).len() == blocks_ask(blocks, n as int),
        0 <= i < n && 0 <= j < blocks[i].instructions@.len() ==> asks_at(
            block_requests(blocks, n),
            blocks_ask(blocks, i) + insns_ask(blocks[i].instructions@, j),
            blocks[i].id,
            blocks[i].instructions@[j],
        ),
    decreases n,
{
    if n > 0 {
        let b = blocks[n - 1];
        let front = block_requests(blocks, (n - 1) as nat);
        let own = insn_requests(b.id, b.instructions@, b.instructions@.len());
        let none = Seq::<NameRequest>::empty();
        lemma_blocks(blocks, (n - 1) as nat, i, j);
        lemma_insns(b.id, b.instructions@, b.instructions@.len(), j);
        let s = block_requests(blocks, n);
        assert(s =~= front + own + none);
        assert(s =~= none + front + own);
        if 0 <= i < n && 0 <= j < blocks[i].instructions@.len() {
            if i == n - 1 {
                lemma_shift(
                    front,
                    own,
                    none,
                    insns_ask(b.instructions@, j),
                    b.id,
                    b.instructions@[j],
                );
            } else {
                lemma_shift(
                    none,
                    front,
                    own,
                    blocks_ask(blocks, i) + insns_ask(blocks[i].instructions@, j),
                    blocks[i].id,
                    blocks[i].instructions@[j],
                );
            }
        }
    }
}

/// Behind the parameters, the instructions ask one after the other, block by block, and nothing
/// else is asked.
pub proof fn instructions_ask_in_turn(code: CodeItem, cfg: Cfg, i: int, j: int)
    ensures
        requests(code, cfg).len() == 2 * code.ins_size + blocks_ask(
            cfg.blocks@,
            cfg.blocks@.len() as int,
        ),
        0 <= i < cfg.blocks@.len() && 0 <= j < cfg.blocks@[i].instructions@.len() ==> asks_at(
            requests(code, cfg),
            2 * code.ins_size + blocks_ask(cfg.blocks@, i) + insns_ask(
                cfg.blocks@[i].instructions@,
                j,
            ),
            cfg.blocks@[i].id,
            cfg.blocks@[i].instructions@[j],
        ),
{
    let params = param_requests(code, cfg.entry, code.ins_size as nat);
    let own = block_requests(cfg.blocks@, cfg.blocks@.len());
    let none = Seq::<NameRequest>::empty();
    lemma_params(code, cfg.entry, code.ins_size as nat, 0);
    lemma_blocks(cfg.blocks@, cfg.blocks@.len(), i, j);
    assert(requests(code, cfg) =~= params + own + none);
    if 0 <= i < cfg.blocks@.len() && 0 <= j < cfg.blocks@[i].instructions@.len() {
        lemma_shift(
            params,
            own,
            none,
            blocks_ask(cfg.blocks@, i) + insns_ask(cfg.blocks@[i].instructions@, j),
            cfg.blocks@[i].id,
            cfg.blocks@[i].instructions@[j],
        );
    }
}

/// An instruction without a destination uses what it would with register 0 for one.
pub proof fn no_destination_is_register_zero(insn: Instruction)
    requires
        insn.dst is None,
    ensures
        read(insn) == read(Instruction { dst: Some(0), ..insn }),
        written(insn) == written(Instruction { dst: Some(0), ..insn }),
{
}

// Names as text

proof fn lemma_digits(n: nat, i: int)
    requires
        0 <= i < decimal(n).len(),
    ensures
        decimal(n)[i] != '_',
    decreases n,
{
    if n >= 10 {
        let front = numeral(n / 10, 10);
        if i < front.len() {
            lemma_digits(n / 10, i);
        }
    }
}

/// Names that read alike are the same.
pub proof fn names_read_apart(a: VarId, b: VarId)
    requires
        a.text() == b.text(),
    ensures
        a == b,
{
    reveal_strlit("v");
    reveal_strlit("_");
    let x = decimal(a.reg as nat);
    let y = decimal(b.reg as nat);
    let m = x.len() as int;
    let n = y.len() as int;
    let s = a.text();
    assert(s[1 + m] == '_');
    assert(s[1 + n] == '_') by {
        assert(b.text()[1 + n] == '_');
    }
    if m < n {
        lemma_digits(b.reg as nat, m);
        assert(b.text()[1 + m] == y[m]);
    }
    if n < m {
        lemma_digits(a.reg as nat, n);
        assert(s[1 + n] == x[n]);
    }
    assert(s.subrange(1, 1 + m) =~= x);
    assert(b.text().subrange(1, 1 + n) =~= y);
    assert(s.skip(2 + m) =~= decimal(a.ver as nat));
    assert(b.text().skip(2 + n) =~= decimal(b.ver as nat));
    numbers_read_back(a.reg as nat, 10);
    numbers_read_back(b.reg as nat, 10);
    numbers_read_back(a.ver as nat, 10);
    numbers_read_back(b.ver as nat, 10);
    assert(number_read(x, 10) == number_read(y, 10));
}

} // verus!
