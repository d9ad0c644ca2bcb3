//! What the emulated instructions do, in terms of registers and numbers.
use vstd::prelude::*;

use crate::decode::{CodeItem, Instruction, PoolIndex};
use crate::dex_file::DexFile;
use crate::emulator::error::EmulatorError;
use crate::emulator::execution::{answered, initial, run_of, End};
use crate::emulator::machine::{position, regs_read, stepped, State, Step};
use crate::emulator::operation::{
    computed, division_is_exact, holds, magnitude, narrowed, quotient, remainder, Lane, Operator,
    Test,
};
use crate::emulator::value::Datum;
use crate::opcodes::Opcode;

verus! {

// Comparisons

/// The comparisons are those of the integers: each holds just where its opposite does not,
/// turning one around exchanges less and greater, and of less, equal and greater just one
/// holds.
pub proof fn comparisons_are_those_of_integers(a: i32, b: i32)
    ensures
        holds(Test::Eq, a, b) <==> a as int == b as int,
        holds(Test::Lt, a, b) <==> (a as int) < (b as int),
        holds(Test::Gt, a, b) <==> (a as int) > (b as int),
        holds(Test::Ne, a, b) == !holds(Test::Eq, a, b),
        holds(Test::Ge, a, b) == !holds(Test::Lt, a, b),
        holds(Test::Le, a, b) == !holds(Test::Gt, a, b),
        holds(Test::Lt, a, b) == holds(Test::Gt, b, a),
        holds(Test::Le, a, b) == holds(Test::Ge, b, a),
{
}

/// The execution goes on at the last instruction that stands at `target`, with nothing
/// else changed.
pub open spec fn goes_to(insns: Seq<Instruction>, s: State, target: u32, step: Step) -> bool {
    &&& step is Go
    &&& step->Go_0.regs == s.regs
    &&& step->Go_0.result == s.result
    &&& step->Go_0.at < insns.len()
    &&& insns[step->Go_0.at as int].addr == target
    &&& forall|j: int| step->Go_0.at < j < insns.len() ==> (#[trigger] insns[j]).addr != target
}

/// The execution goes on behind the instruction, with nothing else changed.
pub open spec fn goes_on(s: State, step: Step) -> bool {
    &&& step is Go
    &&& step->Go_0.regs == s.regs
    &&& step->Go_0.result == s.result
    &&& step->Go_0.at == s.at + 1
}

/// The execution goes on behind the instruction, with `d` in register `r` and nothing else
/// changed.
pub open spec fn sets(s: State, r: u16, d: Datum, step: Step) -> bool {
    &&& step is Go
    &&& step->Go_0.result == s.result
    &&& step->Go_0.at == s.at + 1
    &&& step->Go_0.regs.len() == s.regs.len()
    &&& r < s.regs.len()
    &&& step->Go_0.regs[r as int] == d
    &&& forall|i: int|
        0 <= i < s.regs.len() && i != r ==> #[trigger] step->Go_0.regs[i] == s.regs[i]
}

/// Register `r` holds the integer `v`.
pub open spec fn has_int(s: State, r: u16, v: i32) -> bool {
    r < s.regs.len() && s.regs[r as int] == Datum::Int(v)
}

/// Some instruction stands at `addr`.
pub open spec fn stands(insns: Seq<Instruction>, addr: u32) -> bool {
    exists|i: int| 0 <= i < insns.len() && (#[trigger] insns[i]).addr == addr
}

proof fn lemma_position(insns: Seq<Instruction>, addr: u32, n: nat)
    requires
        n <= insns.len(),
    ensures
        match position(insns, addr, n) {
            Some(i) => i < n && insns[i as int].addr == addr && forall|j: int|
                i < j < n ==> (#[trigger] insns[j]).addr != addr,
            None => forall|j: int| 0 <= j < n ==> (#[trigger] insns[j]).addr != addr,
        },
    decreases n,
{
    if n > 0 {
        lemma_position(insns, addr, (n - 1) as nat);
    }
}

/// A branch on two registers goes to its target just where the numbers compare so, and on
/// behind itself otherwise.
pub proof fn branches_compare_two_registers(
    insns: Seq<Instruction>,
    dex: Option<DexFile>,
    s: State,
    a: i32,
    b: i32,
    target: u32,
)
    requires
        s.at < insns.len(),
        insns[s.at as int].src.held().len() >= 2,
        has_int(s, insns[s.at as int].src.held()[0], a),
        has_int(s, insns[s.at as int].src.held()[1], b),
        insns[s.at as int].target == Some(target),
        stands(insns, target),
    ensures
        ({
            let op = insns[s.at as int].op;
            let step = stepped(insns, dex, s);
            let there = goes_to(insns, s, target, step);
            let on = goes_on(s, step);
            &&& op == Opcode::IfEq ==> if a as int == b as int { there } else { on }
            &&& op == Opcode::IfNe ==> if a as int == b as int { on } else { there }
            &&& op == Opcode::IfLt ==> if (a as int) < b as int { there } else { on }
            &&& op == Opcode::IfGe ==> if (a as int) < b as int { on } else { there }
            &&& op == Opcode::IfGt ==> if a as int > b as int { there } else { on }
            &&& op == Opcode::IfLe ==> if a as int > b as int { on } else { there }
        }),
{
    lemma_position(insns, target, insns.len());
}

/// A branch on one register goes to its target just where the number compares so with zero,
/// and on behind itself otherwise.
pub proof fn branches_compare_with_zero(
    insns: Seq<Instruction>,
    dex: Option<DexFile>,
    s: State,
    r: u16,
    a: i32,
    target: u32,
)
    requires
        s.at < insns.len(),
        insns[s.at as int].dst == Some(r),
        has_int(s, r, a),
        insns[s.at as int].target == Some(target),
        stands(insns, target),
    ensures
        ({
            let op = insns[s.at as int].op;
            let step = stepped(insns, dex, s);
            let there = goes_to(insns, s, target, step);
            let on = goes_on(s, step);
            &&& op == Opcode::IfEqz ==> if a == 0 { there } else { on }
            &&& op == Opcode::IfNez ==> if a == 0 { on } else { there }
            &&& op == Opcode::IfLtz ==> if a < 0 { there } else { on }
            &&& op == Opcode::IfGez ==> if a < 0 { on } else { there }
            &&& op == Opcode::IfGtz ==> if a > 0 { there } else { on }
            &&& op == Opcode::IfLez ==> if a > 0 { on } else { there }
        }),
{
    lemma_position(insns, target, insns.len());
}

/// Every form of goto goes to its target; to an address at which no instruction stands
/// nothing goes.
pub proof fn gotos_go(insns: Seq<Instruction>, dex: Option<DexFile>, s: State, target: u32)
    requires
        s.at < insns.len(),
        insns[s.at as int].op == Opcode::Goto || insns[s.at as int].op == Opcode::Goto16
            || insns[s.at as int].op == Opcode::Goto32,
        insns[s.at as int].target == Some(target),
    ensures
        if stands(insns, target) {
            goes_to(insns, s, target, stepped(insns, dex, s))
        } else {
            stepped(insns, dex, s) matches Step::Fault(e) && e is InstructionError
        },
{
    lemma_position(insns, target, insns.len());
}

// Arithmetic

/// The number that stands for `v` in 32 bits: it differs by a multiple of 2^32.
pub open spec fn stands_for(r: i32, v: int) -> bool {
    (r - v) % 0x1_0000_0000 == 0
}

/// `r` is the quotient of `a` and `b`, rounded toward zero.
pub open spec fn is_quotient(r: int, a: int, b: int) -> bool {
    let m = a - r * b;
    &&& -magn(b) < m < magn(b)
    &&& m == 0 || (m < 0) == (a < 0)
}

/// The size of a number.
pub open spec fn magn(n: int) -> int {
    if n < 0 {
        -n
    } else {
        n
    }
}

proof fn lemma_wraps(a: i32, b: i32)
    ensures
        stands_for(a.wrapping_add(b), a + b),
        stands_for(a.wrapping_sub(b), a - b),
        stands_for(b.wrapping_sub(a), b - a),
        stands_for(a.wrapping_mul(b), a * b),
{
    assert(stands_for(a.wrapping_mul(b), a * b)) by {
        lemma_wrap_mul(a, b);
    }
}

proof fn lemma_wrap_mul(a: i32, b: i32)
    ensures
        stands_for(a.wrapping_mul(b), a * b),
{
    let v = a * b;
    let m = v % 0x1_0000_0000;
    assert(v == 0x1_0000_0000 * (v / 0x1_0000_0000) + m);
}

/// `v` doubled `k` times.
pub open spec fn doubled(v: int, k: nat) -> int
    decreases k,
{
    if k == 0 {
        v
    } else {
        2 * doubled(v, (k - 1) as nat)
    }
}

/// `v` halved `k` times, each time rounded down.
pub open spec fn halved(v: int, k: nat) -> int
    decreases k,
{
    if k == 0 {
        v
    } else {
        halved(v, (k - 1) as nat) / 2
    }
}

/// The unsigned number with the same 32 bits.
pub open spec fn unsigned(v: i32) -> int {
    if v < 0 {
        v + 0x1_0000_0000
    } else {
        v as int
    }
}

proof fn lemma_distance(b: i32)
    ensures
        0 <= (b & 31) < 32,
        (b & 31) as int == b as int % 32,
{
    assert(0 <= (b & 31) < 32) by (bit_vector);
    assert((b & 31) as u32 == (b as u32) % 32u32) by (bit_vector);
    assert(b >= 0 ==> (b as u32) as i64 == b as i64) by (bit_vector);
    assert(b < 0 ==> (b as u32) as i64 == b as i64 + 0x1_0000_0000) by (bit_vector);
}

proof fn lemma_left(a: i32, k: u32)
    requires
        0 <= k < 32,
    ensures
        stands_for(a << k, doubled(a as int, k as nat)),
    decreases k,
{
    if k == 0 {
        assert(a << 0u32 == a) by (bit_vector);
    } else {
        let j: u32 = (k - 1) as u32;
        let x: i32 = a << j;
        lemma_left(a, j);
        assert(a << k == x << 1u32) by (bit_vector)
            requires
                0 < k < 32,
                j == k - 1,
                x == a << j,
        ;
        lemma_twice(x);
        let y = x << 1u32;
        let v = doubled(a as int, j as nat);
        assert((2 * x - 2 * v) % 0x1_0000_0000 == 0) by {
            let q = (x - v) / 0x1_0000_0000;
            assert(x - v == 0x1_0000_0000 * q);
            assert(2 * x - 2 * v == 0x1_0000_0000 * (2 * q));
        }
        assert(y - 2 * v == (y - 2 * x) + (2 * x - 2 * v));
    }
}

proof fn lemma_twice(x: i32)
    ensures
        stands_for(x << 1u32, 2 * x),
{
    assert(-0x4000_0000 <= x < 0x4000_0000 ==> (x << 1u32) as i64 == 2 * (x as i64))
        by (bit_vector);
    assert(x >= 0x4000_0000 ==> (x << 1u32) as i64 == 2 * (x as i64) - 0x1_0000_0000)
        by (bit_vector);
    assert(x < -0x4000_0000 ==> (x << 1u32) as i64 == 2 * (x as i64) + 0x1_0000_0000)
        by (bit_vector);
}

proof fn lemma_right(a: i32, k: u32)
    requires
        0 <= k < 32,
    ensures
        (a >> k) as int == halved(a as int, k as nat),
    decreases k,
{
    if k == 0 {
        assert(a >> 0u32 == a) by (bit_vector);
    } else {
        let j: u32 = (k - 1) as u32;
        let x: i32 = a >> j;
        lemma_right(a, j);
        assert(a >> k == x >> 1u32) by (bit_vector)
            requires
                0 < k < 32,
                j == k - 1,
                x == a >> j,
        ;
        let y: i32 = x >> 1u32;
        assert(2 * (y as i64) == x as i64 || 2 * (y as i64) + 1 == x as i64) by (bit_vector)
            requires
                y == x >> 1u32,
        ;
    }
}

proof fn lemma_right_unsigned(a: u32, k: u32)
    requires
        0 <= k < 32,
    ensures
        (a >> k) as int == halved(a as int, k as nat),
    decreases k,
{
    if k == 0 {
        assert(a >> 0u32 == a) by (bit_vector);
    } else {
        let j: u32 = (k - 1) as u32;
        let x: u32 = a >> j;
        lemma_right_unsigned(a, j);
        assert(a >> k == x >> 1u32) by (bit_vector)
            requires
                0 < k < 32,
                j == k - 1,
                x == a >> j,
        ;
        assert(x >> 1u32 == x / 2) by (bit_vector);
    }
}

proof fn lemma_same_bits(a: i32)
    ensures
        (a as u32) as int == unsigned(a),
{
    assert(a >= 0 ==> (a as u32) as i64 == a as i64) by (bit_vector);
    assert(a < 0 ==> (a as u32) as i64 == a as i64 + 0x1_0000_0000) by (bit_vector);
}

proof fn lemma_signed_bits(a: u32)
    ensures
        stands_for(a as i32, a as int),
{
    assert(a < 0x8000_0000 ==> (a as i32) as i64 == a as i64) by (bit_vector);
    assert(a >= 0x8000_0000 ==> (a as i32) as i64 == a as i64 - 0x1_0000_0000) by (bit_vector);
}

/// Shifts double and halve: to the left as far as 32 bits hold, to the right rounded down,
/// and unsigned to the right as the unsigned number with the same bits. Distances count
/// modulo 32.
pub proof fn shifts_double_and_halve(a: i32, b: i32)
    ensures
        computed(Operator::Shl, a, b) matches Some(r) && stands_for(
            r,
            doubled(a as int, (b as int % 32) as nat),
        ),
        computed(Operator::Shr, a, b) matches Some(r) && r as int == halved(
            a as int,
            (b as int % 32) as nat,
        ),
        computed(Operator::Ushr, a, b) matches Some(r) && stands_for(
            r,
            halved(unsigned(a), (b as int % 32) as nat),
        ),
{
    lemma_distance(b);
    lemma_left(a, (b & 31) as u32);
    lemma_right(a, (b & 31) as u32);
    lemma_same_bits(a);
    lemma_right_unsigned(a as u32, (b & 31) as u32);
    lemma_signed_bits((a as u32) >> ((b & 31) as u32));
}

/// An operation that adds.
pub open spec fn adds(op: Opcode) -> bool {
    op is AddInt || op is AddInt2Addr || op is AddIntLit8 || op is AddIntLit16
}

/// An operation that takes its second operand from its first.
pub open spec fn subtracts(op: Opcode) -> bool {
    op is SubInt || op is SubInt2Addr
}

/// An operation that takes its first operand from its second.
pub open spec fn subtracts_from_literal(op: Opcode) -> bool {
    op is RsubInt || op is RsubIntLit8
}

/// An operation that multiplies.
pub open spec fn multiplies(op: Opcode) -> bool {
    op is MulInt || op is MulInt2Addr || op is MulIntLit8 || op is MulIntLit16
}

/// An operation that divides for the quotient.
pub open spec fn divides(op: Opcode) -> bool {
    op is DivInt || op is DivInt2Addr || op is DivIntLit8 || op is DivIntLit16
}

/// An operation that divides for the remainder.
pub open spec fn takes_remainder(op: Opcode) -> bool {
    op is RemInt || op is RemInt2Addr || op is RemIntLit8 || op is RemIntLit16
}

/// An operation that keeps the bits that both operands have.
pub open spec fn intersects(op: Opcode) -> bool {
    op is AndInt || op is AndInt2Addr || op is AndIntLit8 || op is AndIntLit16
}

/// An operation that keeps the bits that an operand has.
pub open spec fn unites(op: Opcode) -> bool {
    op is OrInt || op is OrInt2Addr || op is OrIntLit8 || op is OrIntLit16
}

/// An operation that keeps the bits in which the operands differ.
pub open spec fn differs(op: Opcode) -> bool {
    op is XorInt || op is XorInt2Addr || op is XorIntLit8 || op is XorIntLit16
}

/// An operation that shifts to the left.
pub open spec fn shifts_left(op: Opcode) -> bool {
    op is ShlInt || op is ShlInt2Addr || op is ShlIntLit8
}

/// An operation that shifts to the right and keeps the sign.
pub open spec fn shifts_right(op: Opcode) -> bool {
    op is ShrInt || op is ShrInt2Addr || op is ShrIntLit8
}

/// An operation that shifts to the right and fills with zeros.
pub open spec fn shifts_right_unsigned(op: Opcode) -> bool {
    op is UshrInt || op is UshrInt2Addr || op is UshrIntLit8
}

/// Both operands are in source registers.
pub open spec fn in_registers(op: Opcode) -> bool {
    op is AddInt || op is SubInt || op is MulInt || op is DivInt || op is RemInt || op is AndInt
        || op is OrInt || op is XorInt || op is ShlInt || op is ShrInt || op is UshrInt
}

/// The first operand is in the destination register.
pub open spec fn in_destination(op: Opcode) -> bool {
    op is AddInt2Addr || op is SubInt2Addr || op is MulInt2Addr || op is DivInt2Addr
        || op is RemInt2Addr || op is AndInt2Addr || op is OrInt2Addr || op is XorInt2Addr
        || op is ShlInt2Addr || op is ShrInt2Addr || op is UshrInt2Addr
}

/// The second operand is in the instruction.
pub open spec fn in_literal(op: Opcode) -> bool {
    op is AddIntLit8 || op is RsubIntLit8 || op is MulIntLit8 || op is DivIntLit8
        || op is RemIntLit8 || op is AndIntLit8 || op is OrIntLit8 || op is XorIntLit8
        || op is ShlIntLit8 || op is ShrIntLit8 || op is UshrIntLit8 || op is AddIntLit16
        || op is RsubInt || op is MulIntLit16 || op is DivIntLit16 || op is RemIntLit16
        || op is AndIntLit16 || op is OrIntLit16 || op is XorIntLit16
}

/// The operands of an operation are `a` and `b`, and its result goes to `d`.
pub open spec fn takes(insn: Instruction, s: State, d: u16, a: i32, b: i32) -> bool {
    let held = insn.src.held();
    &&& insn.dst == Some(d)
    &&& d < s.regs.len()
    &&& {
        ||| in_registers(insn.op) && held.len() >= 2 && has_int(s, held[0], a) && has_int(
            s,
            held[1],
            b,
        )
        ||| in_destination(insn.op) && held.len() >= 1 && has_int(s, d, a) && has_int(
            s,
            held[0],
            b,
        )
        ||| in_literal(insn.op) && held.len() >= 1 && has_int(s, held[0], a) && insn.literal == b
    }
}

/// `r` is what the operation makes of `a` and `b`.
pub open spec fn is_result(op: Opcode, a: i32, b: i32, r: i32) -> bool {
    let k = (b as int % 32) as nat;
    &&& adds(op) ==> stands_for(r, a + b)
    &&& subtracts(op) ==> stands_for(r, a - b)
    &&& subtracts_from_literal(op) ==> stands_for(r, b - a)
    &&& multiplies(op) ==> stands_for(r, a * b)
    &&& divides(op) ==> if a == i32::MIN && b == -1 {
        r == i32::MIN
    } else {
        is_quotient(r as int, a as int, b as int)
    }
    &&& takes_remainder(op) ==> exists|q: int| is_quotient(q, a as int, b as int) && r == a - #[trigger] (q * b)
    &&& intersects(op) ==> r == a & b
    &&& unites(op) ==> r == a | b
    &&& differs(op) ==> r == a ^ b
    &&& shifts_left(op) ==> stands_for(r, doubled(a as int, k))
    &&& shifts_right(op) ==> r as int == halved(a as int, k)
    &&& shifts_right_unsigned(op) ==> stands_for(r, halved(unsigned(a), k))
}

proof fn lemma_division(a: i32, b: i32)
    requires
        b != 0,
    ensures
        !(a == i32::MIN && b == -1) ==> is_quotient(quotient(a, b) as int, a as int, b as int),
        exists|q: int| is_quotient(q, a as int, b as int) && remainder(a, b) == a - #[trigger] (q * b),
{
    division_is_exact(a, b);
    let r = remainder(a, b) as int;
    if a == i32::MIN && b == -1 {
        let q = 0x8000_0000int;
        assert(q * b == -0x8000_0000) by (nonlinear_arith)
            requires
                q == 0x8000_0000,
                b == -1,
        ;
        assert(is_quotient(q, a as int, b as int) && remainder(a, b) == a - q * b);
    } else {
        let q = quotient(a, b) as int;
        let m = magnitude(a as int) % magnitude(b as int);
        assert(0 <= m);
        assert(is_quotient(q, a as int, b as int) && remainder(a, b) == a - q * b);
    }
}

/// Every arithmetic instruction puts the result of its operation into its destination
/// register and goes on. Only dividing by zero stops it.
pub proof fn arithmetic_is_that_of_integers(
    insns: Seq<Instruction>,
    dex: Option<DexFile>,
    s: State,
    d: u16,
    a: i32,
    b: i32,
)
    requires
        s.at < insns.len(),
        takes(insns[s.at as int], s, d, a, b),
    ensures
        ({
            let op = insns[s.at as int].op;
            let step = stepped(insns, dex, s);
            if (divides(op) || takes_remainder(op)) && b == 0 {
                step == Step::Fault(EmulatorError::DivisionByZero)
            } else {
                &&& step is Go
                &&& step->Go_0.regs[d as int] is Int
                &&& sets(s, d, step->Go_0.regs[d as int], step)
                &&& is_result(op, a, b, step->Go_0.regs[d as int]->Int_0)
            }
        }),
{
    lemma_wraps(a, b);
    shifts_double_and_halve(a, b);
    if b != 0 {
        lemma_division(a, b);
    }
}

/// An operand that is no integer stops an arithmetic instruction.
pub proof fn arithmetic_needs_integers(
    insns: Seq<Instruction>,
    dex: Option<DexFile>,
    s: State,
    d: u16,
)
    requires
        s.at < insns.len(),
        insns[s.at as int].dst == Some(d),
        ({
            let insn = insns[s.at as int];
            let held = insn.src.held();
            let first = if in_destination(insn.op) {
                d
            } else {
                held[0]
            };
            &&& in_registers(insn.op) || in_destination(insn.op) || in_literal(insn.op)
            &&& held.len() >= if in_registers(insn.op) {
                2int
            } else {
                1int
            }
            &&& first < s.regs.len()
            &&& !(s.regs[first as int] is Int)
        }),
    ensures
        stepped(insns, dex, s) matches Step::Fault(e) && e is TypeMismatch,
{
}

// Array elements

/// `r` is `v` cut to the width of an array element: it differs by a multiple of what the
/// element can hold, and is an element.
pub open spec fn fits_lane(lane: Lane, v: i32, r: i32) -> bool {
    match lane {
        Lane::Int => r == v,
        Lane::Byte => -0x80 <= r < 0x80 && (r - v) % 0x100 == 0,
        Lane::Short => -0x8000 <= r < 0x8000 && (r - v) % 0x1_0000 == 0,
        Lane::Char => 0 <= r < 0x1_0000 && (r - v) % 0x1_0000 == 0,
        Lane::Boolean => 0 <= r < 2 && (r - v) % 2 == 0,
    }
}

proof fn lemma_byte(v: i32)
    ensures
        fits_lane(Lane::Byte, v, (v as i8) as i32),
{
    let m = (v as u32) % 0x100;
    lemma_same_bits(v);
    assert(((v as i8) as i32) as i64 == m as i64 || ((v as i8) as i32) as i64 == m as i64 - 0x100)
        by (bit_vector)
        requires
            m == (v as u32) % 0x100,
    ;
}

proof fn lemma_short(v: i32)
    ensures
        fits_lane(Lane::Short, v, (v as i16) as i32),
{
    let m = (v as u32) % 0x1_0000;
    lemma_same_bits(v);
    assert(((v as i16) as i32) as i64 == m as i64 || ((v as i16) as i32) as i64 == m as i64
        - 0x1_0000) by (bit_vector)
        requires
            m == (v as u32) % 0x1_0000,
    ;
}

proof fn lemma_low_bits(v: i32)
    ensures
        fits_lane(Lane::Char, v, v & 0xFFFF),
        fits_lane(Lane::Boolean, v, v & 1),
{
    let m = (v as u32) % 0x1_0000;
    let n = (v as u32) % 2;
    lemma_same_bits(v);
    assert((v & 0xFFFF) as i64 == m as i64) by (bit_vector)
        requires
            m == (v as u32) % 0x1_0000,
    ;
    assert((v & 1) as i64 == n as i64) by (bit_vector)
        requires
            n == (v as u32) % 2,
    ;
}

/// Numbers are cut to the width of an array element.
pub proof fn elements_have_their_width(lane: Lane, v: i32)
    ensures
        fits_lane(lane, v, narrowed(lane, v)),
{
    match lane {
        Lane::Int => {},
        Lane::Byte => lemma_byte(v),
        Lane::Short => lemma_short(v),
        _ => lemma_low_bits(v),
    }
}

/// The width of the elements that an instruction reads.
pub open spec fn reads_lane(op: Opcode) -> Option<Lane> {
    if op is Aget {
        Some(Lane::Int)
    } else if op is AgetByte {
        Some(Lane::Byte)
    } else if op is AgetChar {
        Some(Lane::Char)
    } else if op is AgetShort {
        Some(Lane::Short)
    } else if op is AgetBoolean {
        Some(Lane::Boolean)
    } else {
        None
    }
}

/// The width of the elements that an instruction writes.
pub open spec fn writes_lane(op: Opcode) -> Option<Lane> {
    if op is Aput {
        Some(Lane::Int)
    } else if op is AputByte {
        Some(Lane::Byte)
    } else if op is AputChar {
        Some(Lane::Char)
    } else if op is AputShort {
        Some(Lane::Short)
    } else if op is AputBoolean {
        Some(Lane::Boolean)
    } else {
        None
    }
}

/// The operands of an array instruction: the array `a` in its first source register, the
/// index `i` in its second.
pub open spec fn takes_element(insn: Instruction, s: State, a: Seq<i32>, i: i32) -> bool {
    let held = insn.src.held();
    &&& held.len() >= 2
    &&& held[0] < s.regs.len()
    &&& s.regs[held[0] as int] == Datum::Array(a)
    &&& has_int(s, held[1], i)
}

/// Reading an element puts it, cut to its width, into the destination register. There are
/// no elements before the first and behind the last.
pub proof fn elements_are_read(
    insns: Seq<Instruction>,
    dex: Option<DexFile>,
    s: State,
    d: u16,
    a: Seq<i32>,
    i: i32,
)
    requires
        s.at < insns.len(),
        reads_lane(insns[s.at as int].op) is Some,
        insns[s.at as int].dst == Some(d),
        d < s.regs.len(),
        takes_element(insns[s.at as int], s, a, i),
    ensures
        ({
            let lane = reads_lane(insns[s.at as int].op)->0;
            let step = stepped(insns, dex, s);
            if 0 <= i < a.len() {
                &&& step is Go
                &&& step->Go_0.regs[d as int] is Int
                &&& sets(s, d, step->Go_0.regs[d as int], step)
                &&& fits_lane(lane, a[i as int], step->Go_0.regs[d as int]->Int_0)
            } else {
                step matches Step::Fault(e) && e matches EmulatorError::ArrayOutOfBounds {
                    index,
                    ..
                } && index == i
            }
        }),
{
    if 0 <= i < a.len() {
        elements_have_their_width(reads_lane(insns[s.at as int].op)->0, a[i as int]);
    }
}

/// Writing an element changes just that element of the array, to the number in the
/// destination register, cut to the width of the element.
pub proof fn elements_are_written(
    insns: Seq<Instruction>,
    dex: Option<DexFile>,
    s: State,
    d: u16,
    v: i32,
    a: Seq<i32>,
    i: i32,
)
    requires
        s.at < insns.len(),
        writes_lane(insns[s.at as int].op) is Some,
        insns[s.at as int].dst == Some(d),
        has_int(s, d, v),
        takes_element(insns[s.at as int], s, a, i),
    ensures
        ({
            let insn = insns[s.at as int];
            let r = insn.src.held()[0];
            let lane = writes_lane(insn.op)->0;
            let step = stepped(insns, dex, s);
            if 0 <= i < a.len() {
                &&& step is Go
                &&& step->Go_0.regs[r as int] is Array
                &&& sets(s, r, step->Go_0.regs[r as int], step)
                &&& {
                    let now = step->Go_0.regs[r as int]->Array_0;
                    &&& now.len() == a.len()
                    &&& fits_lane(lane, v, now[i as int])
                    &&& forall|j: int| 0 <= j < a.len() && j != i ==> #[trigger] now[j] == a[j]
                }
            } else {
                step matches Step::Fault(e) && e matches EmulatorError::ArrayOutOfBounds {
                    index,
                    ..
                } && index == i
            }
        }),
{
    elements_have_their_width(writes_lane(insns[s.at as int].op)->0, v);
}

/// A new array has as many elements as its length register says, all zero. Negative lengths
/// and those above 65536 are refused.
pub proof fn new_arrays_are_zero(
    insns: Seq<Instruction>,
    dex: Option<DexFile>,
    s: State,
    d: u16,
    n: i32,
)
    requires
        s.at < insns.len(),
        insns[s.at as int].op == Opcode::NewArray,
        insns[s.at as int].dst == Some(d),
        d < s.regs.len(),
        insns[s.at as int].src.held().len() >= 1,
        has_int(s, insns[s.at as int].src.held()[0], n),
    ensures
        ({
            let step = stepped(insns, dex, s);
            if n < 0 {
                step == Step::Fault(EmulatorError::NegativeArrayLength { length: n })
            } else if n > 65536 {
                step matches Step::Fault(e) && e is ArrayTooLarge
            } else {
                &&& step is Go
                &&& step->Go_0.regs[d as int] is Array
                &&& sets(s, d, step->Go_0.regs[d as int], step)
                &&& step->Go_0.regs[d as int]->Array_0.len() == n
                &&& forall|j: int|
                    0 <= j < n ==> #[trigger] step->Go_0.regs[d as int]->Array_0[j] == 0
            }
        }),
{
}

// Constants, moves and returns

/// A constant goes into its destination register: a number, a long or a string of the file.
pub proof fn constants_are_set(insns: Seq<Instruction>, dex: Option<DexFile>, s: State, d: u16)
    requires
        s.at < insns.len(),
        insns[s.at as int].dst == Some(d),
        d < s.regs.len(),
    ensures
        ({
            let insn = insns[s.at as int];
            let step = stepped(insns, dex, s);
            &&& (insn.op is Const4 || insn.op is Const16 || insn.op is Const
                || insn.op is ConstHigh16) && i32::MIN <= insn.literal <= i32::MAX ==> sets(
                s,
                d,
                Datum::Int(insn.literal as i32),
                step,
            )
            &&& insn.op is ConstWide16 || insn.op is ConstWide32 || insn.op is ConstWide
                || insn.op is ConstWideHigh16 ==> sets(s, d, Datum::Wide(insn.literal), step)
            &&& insn.op is ConstString || insn.op is ConstStringJumbo ==> match (
                insn.pool_idx,
                dex,
            ) {
                (Some(PoolIndex::String(idx)), Some(f)) => if idx.0 < f.strings@.len() {
                    sets(s, d, Datum::Str(f.strings@[idx.0 as int].text()), step)
                } else {
                    step matches Step::Fault(e) && e is StringPoolOob
                },
                (Some(PoolIndex::String(_)), None) => step matches Step::Fault(e)
                    && e is Unsupported,
                _ => step matches Step::Fault(e) && e is InstructionError,
            }
        }),
{
}

/// An operation that copies a register.
pub open spec fn copies(op: Opcode) -> bool {
    op is Move || op is MoveFrom16 || op is Move16 || op is MoveObject || op is MoveObjectFrom16
        || op is MoveObject16 || op is MoveWide || op is MoveWideFrom16 || op is MoveWide16
}

/// A move copies its source register into its destination; the result of a call is moved
/// once, and then there is none.
pub proof fn moves_copy(insns: Seq<Instruction>, dex: Option<DexFile>, s: State, d: u16)
    requires
        s.at < insns.len(),
        insns[s.at as int].dst == Some(d),
        d < s.regs.len(),
    ensures
        ({
            let insn = insns[s.at as int];
            let held = insn.src.held();
            let step = stepped(insns, dex, s);
            &&& copies(insn.op) && held.len() >= 1 && held[0] < s.regs.len() ==> sets(
                s,
                d,
                s.regs[held[0] as int],
                step,
            )
            &&& insn.op is MoveResult || insn.op is MoveResultObject || insn.op is MoveResultWide
                ==> {
                &&& step is Go
                &&& step->Go_0.at == s.at + 1
                &&& step->Go_0.result == Datum::Void
                &&& step->Go_0.regs == s.regs.update(d as int, s.result)
            }
        }),
{
}

/// A method returns what is in the register that the return names, and nothing where it
/// names none.
pub proof fn returns_hand_back(insns: Seq<Instruction>, dex: Option<DexFile>, s: State)
    requires
        s.at < insns.len(),
    ensures
        ({
            let insn = insns[s.at as int];
            let step = stepped(insns, dex, s);
            &&& insn.op is ReturnVoid ==> step == Step::Returned(Datum::Void)
            &&& insn.op is Return || insn.op is ReturnObject || insn.op is ReturnWide
                ==> match insn.dst {
                Some(d) => if d < s.regs.len() {
                    step == Step::Returned(s.regs[d as int])
                } else {
                    step matches Step::Fault(EmulatorError::RegisterOutOfRange { reg, .. })
                        && reg == d
                },
                None => step matches Step::Fault(e) && e is InstructionError,
            }
            &&& insn.op is Nop ==> goes_on(s, step)
        }),
{
}

/// A register that is not there stops an instruction that writes it.
pub proof fn registers_have_to_be_there(
    insns: Seq<Instruction>,
    dex: Option<DexFile>,
    s: State,
    d: u16,
)
    requires
        s.at < insns.len(),
        insns[s.at as int].dst == Some(d),
        d >= s.regs.len(),
        ({
            let insn = insns[s.at as int];
            ||| insn.op is Const4 || insn.op is Const16 || insn.op is Const
                || insn.op is ConstHigh16
            ||| insn.op is ConstWide16 || insn.op is ConstWide32 || insn.op is ConstWide
                || insn.op is ConstWideHigh16
            ||| insn.op is MoveResult || insn.op is MoveResultObject || insn.op is MoveResultWide
            ||| copies(insn.op) && insn.src.held().len() >= 1
            ||| insn.op is IfEqz || insn.op is IfNez || insn.op is IfLtz || insn.op is IfGez
                || insn.op is IfGtz || insn.op is IfLez
        }),
    ensures
        stepped(insns, dex, s) matches Step::Fault(e) && e is RegisterOutOfRange,
{
}

// Calls

proof fn lemma_regs_read(regs: Seq<Datum>, list: Seq<u16>, i: nat, acc: Seq<Datum>)
    requires
        i <= list.len(),
        forall|k: int| i <= k < list.len() ==> (#[trigger] list[k]) < regs.len(),
    ensures
        regs_read(regs, list, i, acc) == Ok::<Seq<Datum>, EmulatorError>(
            acc + Seq::new((list.len() - i) as nat, |k: int| regs[list[i + k] as int]),
        ),
    decreases list.len() - i,
{
    if i < list.len() {
        let d = regs[list[i as int] as int];
        lemma_regs_read(regs, list, i + 1, acc.push(d));
        assert(acc.push(d) + Seq::new(
            (list.len() - (i + 1)) as nat,
            |k: int| regs[list[i + 1 + k] as int],
        ) =~= acc + Seq::new((list.len() - i) as nat, |k: int| regs[list[i + k] as int]));
    } else {
        assert(acc + Seq::new(0, |k: int| regs[list[i + k] as int]) =~= acc);
    }
}

/// A call hands over the contents of the registers that it lists, the first as the receiver
/// where the method has one.
pub proof fn calls_hand_over_registers(
    insns: Seq<Instruction>,
    dex: Option<DexFile>,
    s: State,
)
    requires
        s.at < insns.len(),
        dex is Some,
        insns[s.at as int].pool_idx matches Some(PoolIndex::Method(_)),
        forall|k: int|
            0 <= k < insns[s.at as int].src.listed().len() ==> (
            #[trigger] insns[s.at as int].src.listed()[k]) < s.regs.len(),
    ensures
        ({
            let insn = insns[s.at as int];
            let list = insn.src.listed();
            let step = stepped(insns, dex, s);
            &&& insn.op is InvokeStatic || insn.op is InvokeStaticRange ==> {
                &&& step is Calls
                &&& insn.pool_idx == Some(PoolIndex::Method(step->Calls_0.method))
                &&& step->Calls_0.this is None
                &&& step->Calls_0.args.len() == list.len()
                &&& forall|k: int|
                    0 <= k < list.len() ==> #[trigger] step->Calls_0.args[k]
                        == s.regs[list[k] as int]
            }
            &&& insn.op is InvokeVirtual || insn.op is InvokeDirect || insn.op is InvokeVirtualRange
                || insn.op is InvokeDirectRange ==> if list.len() == 0 {
                step matches Step::Fault(e) && e is InvokeResolutionError
            } else {
                &&& step is Calls
                &&& insn.pool_idx == Some(PoolIndex::Method(step->Calls_0.method))
                &&& step->Calls_0.this == Some(s.regs[list[0] as int])
                &&& step->Calls_0.args.len() == list.len() - 1
                &&& forall|k: int|
                    0 <= k < list.len() - 1 ==> #[trigger] step->Calls_0.args[k]
                        == s.regs[list[k + 1] as int]
            }
        }),
{
    let list = insns[s.at as int].src.listed();
    lemma_regs_read(s.regs, list, 0, Seq::empty());
    if list.len() > 0 {
        lemma_regs_read(s.regs, list, 1, Seq::empty());
        assert(list[0] < s.regs.len());
    }
}

/// The instructions that are emulated.
pub open spec fn emulated(op: Opcode) -> bool {
    ||| op is Nop || op is ReturnVoid || op is Return || op is ReturnObject || op is ReturnWide
    ||| op is Const4 || op is Const16 || op is Const || op is ConstHigh16 || op is ConstWide16
        || op is ConstWide32 || op is ConstWide || op is ConstWideHigh16 || op is ConstString
        || op is ConstStringJumbo
    ||| copies(op) || op is MoveResult || op is MoveResultObject || op is MoveResultWide
    ||| in_registers(op) || in_destination(op) || in_literal(op)
    ||| op is NewArray || reads_lane(op) is Some || writes_lane(op) is Some
    ||| op is IfEq || op is IfNe || op is IfLt || op is IfGe || op is IfGt || op is IfLe
    ||| op is IfEqz || op is IfNez || op is IfLtz || op is IfGez || op is IfGtz || op is IfLez
    ||| op is Goto || op is Goto16 || op is Goto32
    ||| op is InvokeVirtual || op is InvokeDirect || op is InvokeStatic || op is InvokeVirtualRange
        || op is InvokeDirectRange || op is InvokeStaticRange
}

/// Every other instruction is refused as unsupported.
pub proof fn other_instructions_are_unsupported(
    insns: Seq<Instruction>,
    dex: Option<DexFile>,
    s: State,
)
    requires
        s.at < insns.len(),
        !emulated(insns[s.at as int].op),
    ensures
        stepped(insns, dex, s) matches Step::Fault(e) && e is Unsupported,
{
}

// Executions

/// At the start the arguments are in the last registers, in order and as far as there are
/// registers, and all other registers hold nothing.
pub proof fn arguments_are_in_the_last_registers(code: CodeItem, args: Seq<Datum>, i: int)
    requires
        code.ins_size <= code.registers_size,
        0 <= i < code.registers_size,
    ensures
        ({
            let s = initial(code, args);
            let k = i - (code.registers_size - code.ins_size);
            &&& s.at == 0
            &&& s.result == Datum::Void
            &&& s.regs.len() == code.registers_size
            &&& s.regs[i] == if 0 <= k < args.len() {
                args[k]
            } else {
                Datum::Void
            }
        }),
{
}

/// An execution is its first step and what becomes of it after that, with one instruction
/// less to go. It ends where the budget, the instructions or the method do.
pub proof fn executions_go_step_by_step(
    code: CodeItem,
    dex: Option<DexFile>,
    s: State,
    left: nat,
    budget: u32,
)
    ensures
        ({
            let insns = code.instructions@;
            let end = run_of(code, dex, s, left, budget);
            if insns.len() == 0 {
                end == End::Returned(Datum::Void)
            } else if left == 0 {
                end == End::Fault(EmulatorError::BudgetExceeded { budget })
            } else if s.at >= insns.len() {
                end matches End::Fault(e) && e is InstructionError
            } else {
                match stepped(insns, dex, s) {
                    Step::Go(t) => end == run_of(code, dex, t, (left - 1) as nat, budget),
                    Step::Returned(d) => end == End::Returned(d),
                    Step::Calls(q) => end == End::Calls(q, s, (left - 1) as nat),
                    Step::Fault(e) => end == End::Fault(e),
                }
            }
        }),
{
}

/// What a call comes to is its result, and a changed receiver goes back into the register
/// that it came from; the execution goes on behind the call.
pub proof fn answers_go_back(insn: Instruction, s: State, this: Option<Datum>, result: Datum)
    requires
        this is Some ==> insn.src.held().len() >= 1 && insn.src.held()[0] < s.regs.len(),
    ensures
        answered(insn, s, this, result) is Ok,
        ({
            let t = answered(insn, s, this, result)->Ok_0;
            &&& t.at == s.at + 1
            &&& t.result == result
            &&& t.regs.len() == s.regs.len()
            &&& forall|i: int|
                0 <= i < s.regs.len() ==> #[trigger] t.regs[i] == if this is Some
                    && insn.src.held()[0] == i {
                    this->0
                } else {
                    s.regs[i]
                }
        }),
{
}

} // verus!
