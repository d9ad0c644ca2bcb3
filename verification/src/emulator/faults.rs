//! What stops an execution, and what is said of it.
use vstd::prelude::*;

use crate::decode::{CodeItem, Instruction, PayloadData, PoolIndex};
use crate::dex_file::DexFile;
use crate::emulator::error::EmulatorError;
use crate::emulator::execution::{answered, initial, no_stand_in, plain_code};
use crate::emulator::laws::{
    copies, has_int, in_destination, in_literal, in_registers, reads_lane, stands, takes_element,
    writes_lane,
};
use crate::emulator::machine::{position, regs_read, stepped, State, Step};
use crate::emulator::value::Datum;
use crate::ids::MethodIdx;
use crate::instruction_set::from_to;
use crate::opcodes::Opcode;

verus! {

/// The register is not there, of so many as there are.
pub open spec fn no_register(s: State, r: u16, step: Step) -> bool {
    step matches Step::Fault(e) && e matches EmulatorError::RegisterOutOfRange { reg, size } && reg
        == r && size == s.regs.len()
}

/// The instruction makes no sense.
pub open spec fn no_sense(step: Step) -> bool {
    step matches Step::Fault(e) && e is InstructionError
}

/// A register holds `d` where something else is expected.
pub open spec fn other_kind(d: Datum, expected: &'static str, step: Step) -> bool {
    step == Step::Fault(
        EmulatorError::TypeMismatch {
            expected,
            got: match d {
                Datum::Int(_) => "Int",
                Datum::Wide(_) => "Wide",
                Datum::Str(_) => "Str",
                Datum::Array(_) => "Array",
                Datum::Void => "Void",
            },
        },
    )
}

/// Reading the integer in a register stops the execution where there is none.
pub open spec fn needs_int(s: State, r: u16, step: Step) -> bool {
    if r >= s.regs.len() {
        no_register(s, r, step)
    } else {
        s.regs[r as int] is Int || other_kind(s.regs[r as int], "Int", step)
    }
}

// Operands

/// An instruction that writes or reads a register in the place of the destination makes no
/// sense without one.
pub proof fn a_destination_has_to_be_named(
    insns: Seq<Instruction>,
    dex: Option<DexFile>,
    s: State,
)
    requires
        s.at < insns.len(),
        insns[s.at as int].dst is None,
    ensures
        ({
            let op = insns[s.at as int].op;
            let b = op.byte();
            from_to(b, 0x01, 0x0c) || from_to(b, 0x0f, 0x1b) || op is NewArray || reads_lane(op)
                is Some || writes_lane(op) is Some || from_to(b, 0x38, 0x3d) || in_registers(op)
                || in_destination(op) || in_literal(op) ==> no_sense(stepped(insns, dex, s))
        }),
{
}

/// An instruction that reads source registers makes no sense without them.
pub proof fn sources_have_to_be_named(
    insns: Seq<Instruction>,
    dex: Option<DexFile>,
    s: State,
    d: u16,
)
    requires
        s.at < insns.len(),
        insns[s.at as int].dst == Some(d),
    ensures
        ({
            let insn = insns[s.at as int];
            let op = insn.op;
            let n = insn.src.held().len();
            let step = stepped(insns, dex, s);
            &&& n < 1 && (copies(op) || op is NewArray || in_destination(op) || in_literal(op))
                ==> no_sense(step)
            &&& n < 2 && (in_registers(op) || reads_lane(op) is Some || writes_lane(op) is Some
                || from_to(op.byte(), 0x32, 0x37)) ==> no_sense(step)
        }),
{
}

/// The registers that an instruction reads have to be there and to hold what is expected: of
/// several that are not, the first in the order in which they are read is named.
pub proof fn registers_are_read_in_order(
    insns: Seq<Instruction>,
    dex: Option<DexFile>,
    s: State,
    d: u16,
)
    requires
        s.at < insns.len(),
        insns[s.at as int].dst == Some(d),
        insns[s.at as int].src.held().len() >= 2,
        s.regs.len() <= u16::MAX,
    ensures
        ({
            let insn = insns[s.at as int];
            let op = insn.op;
            let x = insn.src.held()[0];
            let y = insn.src.held()[1];
            let step = stepped(insns, dex, s);
            let x_int = x < s.regs.len() && s.regs[x as int] is Int;
            let y_int = y < s.regs.len() && s.regs[y as int] is Int;
            let d_int = d < s.regs.len() && s.regs[d as int] is Int;
            &&& copies(op) && x >= s.regs.len() ==> no_register(s, x, step)
            &&& in_registers(op) || from_to(op.byte(), 0x32, 0x37) ==> needs_int(s, x, step) && (
            x_int ==> needs_int(s, y, step))
            &&& in_destination(op) ==> needs_int(s, d, step) && (d_int ==> needs_int(s, x, step))
            &&& in_literal(op) || op is NewArray ==> needs_int(s, x, step)
            &&& from_to(op.byte(), 0x38, 0x3d) ==> needs_int(s, d, step)
            &&& reads_lane(op) is Some ==> needs_int(s, y, step)
            &&& writes_lane(op) is Some ==> needs_int(s, d, step) && (d_int ==> needs_int(
                s,
                y,
                step,
            ))
        }),
{
}

/// The register that an instruction writes has to be there.
pub proof fn written_registers_have_to_be_there(
    insns: Seq<Instruction>,
    dex: Option<DexFile>,
    s: State,
    d: u16,
)
    requires
        s.at < insns.len(),
        insns[s.at as int].dst == Some(d),
        d >= s.regs.len(),
        s.regs.len() <= u16::MAX,
    ensures
        ({
            let insn = insns[s.at as int];
            let held = insn.src.held();
            let b = insn.op.byte();
            let step = stepped(insns, dex, s);
            &&& from_to(b, 0x12, 0x19) || from_to(b, 0x0a, 0x0c) ==> no_register(s, d, step)
            &&& copies(insn.op) && held.len() >= 1 && held[0] < s.regs.len() ==> no_register(
                s,
                d,
                step,
            )
            &&& from_to(b, 0x0f, 0x11) ==> no_register(s, d, step)
        }),
{
}

// Elements

/// An index before the first element is refused as one of an array without elements, one behind
/// the last with the length of the array.
pub proof fn elements_have_to_be_there(
    insns: Seq<Instruction>,
    dex: Option<DexFile>,
    s: State,
    d: u16,
    a: Seq<i32>,
    i: i32,
)
    requires
        s.at < insns.len(),
        insns[s.at as int].dst == Some(d),
        reads_lane(insns[s.at as int].op) is Some || (writes_lane(insns[s.at as int].op) is Some && d
            < s.regs.len() && s.regs[d as int] is Int),
        takes_element(insns[s.at as int], s, a, i),
        a.len() <= usize::MAX,
        i < 0 || i >= a.len(),
    ensures
        stepped(insns, dex, s) matches Step::Fault(e) && e matches EmulatorError::ArrayOutOfBounds {
            index,
            length,
        } && index == i && length == if i < 0 {
            0
        } else {
            a.len()
        },
{
}

/// What is indexed has to be an array.
pub proof fn only_arrays_have_elements(
    insns: Seq<Instruction>,
    dex: Option<DexFile>,
    s: State,
    d: u16,
    i: i32,
)
    requires
        s.at < insns.len(),
        insns[s.at as int].dst == Some(d),
        reads_lane(insns[s.at as int].op) is Some || (writes_lane(insns[s.at as int].op) is Some && d
            < s.regs.len() && s.regs[d as int] is Int),
        insns[s.at as int].src.held().len() >= 2,
        has_int(s, insns[s.at as int].src.held()[1], i),
        i >= 0,
        insns[s.at as int].src.held()[0] < s.regs.len(),
        !(s.regs[insns[s.at as int].src.held()[0] as int] is Array),
    ensures
        other_kind(
            s.regs[insns[s.at as int].src.held()[0] as int],
            "Array",
            stepped(insns, dex, s),
        ),
{
}

/// An array that would have more than 65536 elements is refused with the length that it would
/// have and that limit.
pub proof fn long_arrays_are_refused(
    insns: Seq<Instruction>,
    dex: Option<DexFile>,
    s: State,
    d: u16,
    n: i32,
)
    requires
        s.at < insns.len(),
        insns[s.at as int].op == Opcode::NewArray,
        insns[s.at as int].dst == Some(d),
        insns[s.at as int].src.held().len() >= 1,
        has_int(s, insns[s.at as int].src.held()[0], n),
        n > 65536,
    ensures
        stepped(insns, dex, s) matches Step::Fault(e) && e matches EmulatorError::ArrayTooLarge {
            length,
            cap,
        } && length == n && cap == 65536,
{
}

// Constants

/// A string that is not in the file is refused with its index and the number of strings.
pub proof fn strings_have_to_be_there(
    insns: Seq<Instruction>,
    dex: Option<DexFile>,
    s: State,
    d: u16,
)
    requires
        s.at < insns.len(),
        insns[s.at as int].dst == Some(d),
        d < s.regs.len(),
    ensures
        ({
            let insn = insns[s.at as int];
            let step = stepped(insns, dex, s);
            from_to(insn.op.byte(), 0x1a, 0x1b) ==> match (insn.pool_idx, dex) {
                (Some(PoolIndex::String(i)), Some(f)) => i.0 >= f.strings@.len() ==> (step matches
                    Step::Fault(e) && e matches EmulatorError::StringPoolOob { idx, size } && idx
                    == i.0 && size == f.strings@.len()),
                _ => true,
            }
        }),
{
    if dex is Some {
        assert(dex->0.strings@.len() == dex->0.strings.len());
    }
}

// Jumps and calls

/// A branch that is taken, or a goto, makes no sense without a target at which an instruction
/// stands.
pub proof fn targets_have_to_be_there(
    insns: Seq<Instruction>,
    dex: Option<DexFile>,
    s: State,
)
    requires
        s.at < insns.len(),
        insns[s.at as int].target is None || !stands(insns, insns[s.at as int].target->0),
        from_to(insns[s.at as int].op.byte(), 0x28, 0x2a),
    ensures
        no_sense(stepped(insns, dex, s)),
{
    match insns[s.at as int].target {
        None => {},
        Some(t) => {
            lemma_nowhere(insns, t, insns.len());
        },
    }
}

proof fn lemma_nowhere(insns: Seq<Instruction>, addr: u32, n: nat)
    requires
        n <= insns.len(),
        !stands(insns, addr),
    ensures
        position(insns, addr, n) is None,
    decreases n,
{
    if n > 0 {
        assert(insns[n - 1].addr != addr);
        lemma_nowhere(insns, addr, (n - 1) as nat);
    }
}

/// A call that names no method cannot be resolved, and without a file no call is supported.
pub proof fn calls_need_a_method_and_a_file(
    insns: Seq<Instruction>,
    dex: Option<DexFile>,
    s: State,
)
    requires
        s.at < insns.len(),
    ensures
        ({
            let insn = insns[s.at as int];
            let op = insn.op;
            let step = stepped(insns, dex, s);
            let calls = op is InvokeVirtual || op is InvokeDirect || op is InvokeStatic || op
                is InvokeVirtualRange || op is InvokeDirectRange || op is InvokeStaticRange;
            let named = insn.pool_idx matches Some(PoolIndex::Method(_));
            &&& calls && !named ==> (step matches Step::Fault(e) && e is InvokeResolutionError)
            &&& calls && named && dex is None ==> (step matches Step::Fault(e) && e is Unsupported)
        }),
{
}

proof fn lemma_first_missing(regs: Seq<Datum>, list: Seq<u16>, i: nat, acc: Seq<Datum>, k: int)
    requires
        i <= k < list.len(),
        list[k] >= regs.len(),
        forall|j: int| i <= j < k ==> (#[trigger] list[j]) < regs.len(),
    ensures
        regs_read(regs, list, i, acc) == Err::<Seq<Datum>, EmulatorError>(
            EmulatorError::RegisterOutOfRange { reg: list[k], size: regs.len() as u16 },
        ),
    decreases k - i,
{
    if i < k {
        assert(list[i as int] < regs.len());
        lemma_first_missing(regs, list, i + 1, acc.push(regs[list[i as int] as int]), k);
    }
}

/// The registers that a call lists have to be there; the first that is not is named.
pub proof fn listed_registers_have_to_be_there(
    insns: Seq<Instruction>,
    dex: Option<DexFile>,
    s: State,
    k: int,
)
    requires
        s.at < insns.len(),
        dex is Some,
        s.regs.len() <= u16::MAX,
        insns[s.at as int].pool_idx matches Some(PoolIndex::Method(_)),
        ({
            let op = insns[s.at as int].op;
            op is InvokeVirtual || op is InvokeDirect || op is InvokeStatic || op
                is InvokeVirtualRange || op is InvokeDirectRange || op is InvokeStaticRange
        }),
        0 <= k < insns[s.at as int].src.listed().len(),
        insns[s.at as int].src.listed()[k] >= s.regs.len(),
        forall|j: int|
            0 <= j < k ==> (#[trigger] insns[s.at as int].src.listed()[j]) < s.regs.len(),
    ensures
        no_register(s, insns[s.at as int].src.listed()[k], stepped(insns, dex, s)),
{
    let list = insns[s.at as int].src.listed();
    lemma_first_missing(s.regs, list, 0, Seq::empty(), k);
    if k > 0 {
        assert(list[0] < s.regs.len());
        lemma_first_missing(s.regs, list, 1, Seq::empty(), k);
    }
}

/// A receiver that a call hands back needs a register to go to.
pub proof fn receivers_need_a_register(insn: Instruction, s: State, this: Datum, result: Datum)
    requires
        s.regs.len() <= u16::MAX,
    ensures
        insn.src.held().len() == 0 ==> (answered(insn, s, Some(this), result) matches Err(e) && e
            is InvokeResolutionError),
        insn.src.held().len() > 0 && insn.src.held()[0] >= s.regs.len() ==> (answered(
            insn,
            s,
            Some(this),
            result,
        ) matches Err(e) && e matches EmulatorError::RegisterOutOfRange { reg, size } && reg
            == insn.src.held()[0] && size == s.regs.len()),
{
}

/// A method that nobody stands in for is refused by its class and its name.
pub proof fn methods_are_refused_by_name(dex: DexFile, m: MethodIdx, e: EmulatorError)
    requires
        no_stand_in(dex, m, e),
    ensures
        ({
            let item = dex.methods@[m.0 as int];
            let known = m.0 < dex.methods@.len() && item.class_idx.0 < dex.type_descriptors@.len()
                && item.name_idx.0 < dex.strings@.len();
            &&& known ==> (e matches EmulatorError::UnsupportedMethod { class, name } && class@
                == dex.type_descriptors@[item.class_idx.0 as int]@ && name@
                == dex.strings@[item.name_idx.0 as int].text())
            &&& !known ==> e is InvokeResolutionError
        }),
{
}

/// Where there are fewer registers than arguments are declared, the arguments are in the first
/// registers, as far as there are registers.
pub proof fn too_many_arguments_are_dropped(code: CodeItem, args: Seq<Datum>, i: int)
    requires
        code.ins_size > code.registers_size,
        0 <= i < code.registers_size,
    ensures
        initial(code, args).regs.len() == code.registers_size,
        initial(code, args).regs[i] == if i < args.len() {
            args[i]
        } else {
            Datum::Void
        },
{
}

/// A method body of given instructions has these, their payloads and the given registers, and
/// nothing else.
pub proof fn plain_bodies_hold_nothing_else(
    code: CodeItem,
    registers_size: u16,
    ins_size: u16,
    instructions: Seq<Instruction>,
    payloads: Map<u32, PayloadData>,
)
    requires
        plain_code(code, registers_size, ins_size, instructions, payloads),
    ensures
        code.registers_size == registers_size,
        code.ins_size == ins_size,
        code.instructions@ == instructions,
        code.payloads@ == payloads,
        code.outs_size == 0,
        code.debug_info_off == 0,
        code.tries@.len() == 0,
        code.catch_handlers@.len() == 0,
        code.invariant_violations@.len() == 0,
{
}

} // verus!
