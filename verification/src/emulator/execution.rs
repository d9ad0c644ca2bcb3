//! Whole executions.
use std::collections::BTreeMap;
use vstd::prelude::*;

use crate::decode::{CodeItem, Instruction, PayloadData};
use crate::dex_file::DexFile;
use crate::emulator::error::EmulatorError;
use crate::emulator::machine::{
    bad, build_addr_map, file, step, stepped, Call, Event, Machine, Request, State, Step,
};
use crate::emulator::value::{data, Datum, Value};
use crate::ids::MethodIdx;

verus! {

/// How an execution ends or pauses.
pub enum End {
    Returned(Datum),
    /// Someone has to stand in for a method. The execution stands at the call, with
    /// so many instructions left.
    Calls(Request, State, nat),
    Fault(EmulatorError),
}

/// What becomes of an execution with `left` instructions left.
pub open spec fn ran(
    insns: Seq<Instruction>,
    dex: Option<DexFile>,
    s: State,
    left: nat,
    budget: u32,
) -> End
    decreases left,
{
    if left == 0 {
        End::Fault(EmulatorError::BudgetExceeded { budget })
    } else if s.at >= insns.len() {
        End::Fault(bad("pc_idx out of bounds — missing return?"))
    } else {
        match stepped(insns, dex, s) {
            Step::Go(t) => ran(insns, dex, t, (left - 1) as nat, budget),
            Step::Returned(d) => End::Returned(d),
            Step::Calls(q) => End::Calls(q, s, (left - 1) as nat),
            Step::Fault(e) => End::Fault(e),
        }
    }
}

/// What becomes of the execution of a method. A method without instructions returns
/// nothing.
pub open spec fn run_of(
    code: CodeItem,
    dex: Option<DexFile>,
    s: State,
    left: nat,
    budget: u32,
) -> End {
    if code.instructions@.len() == 0 {
        End::Returned(Datum::Void)
    } else {
        ran(code.instructions@, dex, s, left, budget)
    }
}

/// The first register that takes an argument.
pub open spec fn first_argument(code: CodeItem) -> int {
    if code.registers_size >= code.ins_size {
        code.registers_size - code.ins_size
    } else {
        0
    }
}

/// The state at the start: arguments in the last registers, as far as they fit.
pub open spec fn initial(code: CodeItem, args: Seq<Datum>) -> State {
    let first = first_argument(code);
    State {
        regs: Seq::new(
            code.registers_size as nat,
            |r: int|
                if first <= r < first + args.len() {
                    args[r - first]
                } else {
                    Datum::Void
                },
        ),
        at: 0,
        result: Datum::Void,
    }
}

/// An execution.
#[derive(Debug)]
pub struct Execution {
    pub machine: Machine,
    /// How many more instructions may be executed.
    pub left: u32,
    /// How many there were at the start.
    pub budget: u32,
}

impl Execution {
    /// The execution fits the method.
    pub open spec fn fits(self, code: CodeItem) -> bool {
        self.machine.regs@.len() == code.registers_size
    }
}

/// Where an execution ends or pauses.
#[derive(Debug)]
pub enum Pause {
    Returned(Value),
    Calls(Call),
}

/// What the stand-in for a method hands back.
#[derive(Debug)]
pub struct MockResult {
    /// The receiver after the call, if the call changed it.
    pub updated_this: Option<Value>,
    pub return_value: Value,
}

/// The registers after the stand-in for the method that `insn` calls has handed
/// back a receiver.
pub open spec fn receiver_updated(insn: Instruction, s: State, this: Datum) -> Result<
    State,
    EmulatorError,
> {
    let held = insn.src.held();
    if held.len() == 0 {
        Err(
            EmulatorError::InvokeResolutionError { detail: "updated_this but no this-register" },
        )
    } else if held[0] >= s.regs.len() {
        Err(EmulatorError::RegisterOutOfRange { reg: held[0], size: s.regs.len() as u16 })
    } else {
        Ok(State { regs: s.regs.update(held[0] as int, this), ..s })
    }
}

/// The state behind a call.
pub open spec fn answered(
    insn: Instruction,
    s: State,
    this: Option<Datum>,
    result: Datum,
) -> Result<State, EmulatorError> {
    match this {
        None => Ok(State { regs: s.regs, at: s.at + 1, result }),
        Some(d) => match receiver_updated(insn, s, d) {
            Err(e) => Err(e),
            Ok(t) => Ok(State { regs: t.regs, at: s.at + 1, result }),
        },
    }
}

/// The content of an optional value.
pub open spec fn content(v: Option<Value>) -> Option<Datum> {
    match v {
        Some(x) => Some(x@),
        None => None,
    }
}

/// The error for a method that nobody stands in for.
pub open spec fn no_stand_in(dex: DexFile, method: MethodIdx, e: EmulatorError) -> bool {
    if method.0 >= dex.methods@.len() {
        e == EmulatorError::InvokeResolutionError { detail: "method index out of bounds" }
    } else {
        let item = dex.methods@[method.0 as int];
        match (dex.descriptor_at(item.class_idx), dex.string_at(item.name_idx)) {
            (Ok(c), Ok(n)) => e matches EmulatorError::UnsupportedMethod { class, name } && class@
                == c && name@ == n,
            _ => e == EmulatorError::InvokeResolutionError {
                detail: "method class or name out of bounds",
            },
        }
    }
}

fn refuse(dex: &DexFile, method: MethodIdx) -> (e: EmulatorError)
    ensures
        no_stand_in(*dex, method, e),
{
    if method.0 as usize >= dex.methods.len() {
        return EmulatorError::InvokeResolutionError { detail: "method index out of bounds" };
    }
    let item = dex.methods[method.0 as usize];
    match (dex.get_type_descriptor(item.class_idx), dex.get_string(item.name_idx)) {
        (Ok(c), Ok(n)) => EmulatorError::UnsupportedMethod {
            class: String::from_str(c),
            name: String::from_str(n),
        },
        _ => EmulatorError::InvokeResolutionError { detail: "method class or name out of bounds" },
    }
}

/// Executes single methods. Nothing stays from one execution to the next.
pub struct EmulatorCore<'dex> {
    /// The file whose strings and methods instructions refer to.
    pub dex: Option<&'dex DexFile>,
}

impl<'dex> EmulatorCore<'dex> {
    /// An emulator for methods of a file.
    pub fn with_dex(dex: &'dex DexFile) -> (r: Self)
        ensures
            r.dex == Some(dex),
    {
        EmulatorCore { dex: Some(dex) }
    }

    /// An emulator for methods that refer to no file.
    pub fn without_dex() -> (r: Self)
        ensures
            r.dex is None,
    {
        EmulatorCore { dex: None }
    }

    /// Starts an execution.
    pub fn start(&self, code_item: &CodeItem, args: &[Value], budget: u32) -> (r: Execution)
        ensures
            r.machine@ == initial(*code_item, data(args@)),
            r.left == budget,
            r.budget == budget,
            r.fits(*code_item),
    {
        let size: usize = code_item.registers_size as usize;
        let first: usize = size.saturating_sub(code_item.ins_size as usize);
        let mut regs: Vec<Value> = Vec::new();
        let mut i: usize = 0;
        while i < size
            invariant
                i <= size == code_item.registers_size,
                first == first_argument(*code_item),
                regs@.len() == i,
                data(regs@) =~= initial(*code_item, data(args@)).regs.take(i as int),
            decreases size - i,
        {
            let ghost before = regs@;
            if i >= first && i - first < args.len() {
                regs.push(args[i - first].clone());
            } else {
                regs.push(Value::Void);
            }
            i = i + 1;
            assert(data(regs@) =~= initial(*code_item, data(args@)).regs.take(i as int)) by {
                assert(data(regs@) =~= data(before).push(regs@[i - 1]@));
            }
        }
        assert(data(regs@) =~= initial(*code_item, data(args@)).regs);
        Execution { machine: Machine { regs, at: 0, result: Value::Void }, left: budget, budget }
    }

    /// Goes on with an execution until it ends or calls a method.
    pub fn run(&self, code_item: &CodeItem, e: &mut Execution) -> (r: Result<Pause, EmulatorError>)
        requires
            old(e).fits(*code_item),
        ensures
            final(e).fits(*code_item),
            final(e).budget == old(e).budget,
            match run_of(
                *code_item,
                file(self.dex),
                old(e).machine@,
                old(e).left as nat,
                old(e).budget,
            ) {
                End::Returned(d) => r matches Ok(Pause::Returned(v)) && v@ == d,
                End::Calls(q, s, left) => r matches Ok(Pause::Calls(c)) && c@ == q
                    && final(e).machine@ == s && final(e).left == left,
                End::Fault(f) => r == Err::<Pause, EmulatorError>(f),
            },
            r matches Ok(Pause::Calls(_)) ==> final(e).machine.at < code_item.instructions@.len(),
    {
        let insns: &[Instruction] = code_item.instructions.as_slice();
        if insns.len() == 0 {
            return Ok(Pause::Returned(Value::Void));
        }
        let places = build_addr_map(insns);
        let ghost whole = ran(
            insns@,
            file(self.dex),
            old(e).machine@,
            old(e).left as nat,
            old(e).budget,
        );
        loop
            invariant
                insns@ == code_item.instructions@,
                insns@.len() > 0,
                crate::emulator::machine::locates(places@, insns@, insns@.len()),
                e.fits(*code_item),
                e.budget == old(e).budget,
                whole == ran(
                    insns@,
                    file(self.dex),
                    old(e).machine@,
                    old(e).left as nat,
                    old(e).budget,
                ),
                whole == ran(insns@, file(self.dex), e.machine@, e.left as nat, e.budget),
            decreases e.left,
        {
            if e.left == 0 {
                return Err(EmulatorError::BudgetExceeded { budget: e.budget });
            }
            e.left = e.left - 1;
            if e.machine.at >= insns.len() {
                return Err(
                    EmulatorError::InstructionError {
                        detail: "pc_idx out of bounds — missing return?",
                    },
                );
            }
            match step(&mut e.machine, insns, &places, self.dex)? {
                Event::Go => {},
                Event::Returned(v) => {
                    return Ok(Pause::Returned(v));
                },
                Event::Calls(c) => {
                    return Ok(Pause::Calls(c));
                },
            }
        }
    }

    /// Hands an execution that stands at a call what the method comes to.
    pub fn answer(&self, code_item: &CodeItem, e: &mut Execution, reply: MockResult) -> (r: Result<
        (),
        EmulatorError,
    >)
        requires
            old(e).fits(*code_item),
            old(e).machine.at < code_item.instructions@.len(),
        ensures
            final(e).fits(*code_item),
            final(e).budget == old(e).budget,
            final(e).left == old(e).left,
            match answered(
                code_item.instructions@[old(e).machine.at as int],
                old(e).machine@,
                content(reply.updated_this),
                reply.return_value@,
            ) {
                Ok(s) => r is Ok && final(e).machine@ == s,
                Err(f) => r == Err::<(), EmulatorError>(f),
            },
    {
        let total: usize = code_item.instructions.len();
        match reply.updated_this {
            None => {},
            Some(this) => {
                let insn: Instruction = code_item.instructions[e.machine.at];
                let held: &[u16] = insn.src.as_slice();
                if held.len() == 0 {
                    return Err(
                        EmulatorError::InvokeResolutionError {
                            detail: "updated_this but no this-register",
                        },
                    );
                }
                let r: u16 = held[0];
                if r as usize >= e.machine.regs.len() {
                    return Err(
                        EmulatorError::RegisterOutOfRange {
                            reg: r,
                            size: e.machine.regs.len() as u16,
                        },
                    );
                }
                let ghost before = e.machine.regs@;
                e.machine.regs.set(r as usize, this);
                assert(data(e.machine.regs@) =~= data(before).update(r as int, this@));
            },
        }
        e.machine.result = reply.return_value;
        e.machine.at = e.machine.at + 1;
        Ok(())
    }

    /// Executes a method with at most `budget` instructions. Arguments go into its
    /// last registers. Nobody stands in for the methods that it calls.
    pub fn execute(&self, code_item: &CodeItem, args: &[Value], budget: u32) -> (r: Result<
        Value,
        EmulatorError,
    >)
        ensures
            match run_of(
                *code_item,
                file(self.dex),
                initial(*code_item, data(args@)),
                budget as nat,
                budget,
            ) {
                End::Returned(d) => r matches Ok(v) && v@ == d,
                End::Calls(q, _, _) => r matches Err(e) && self.dex is Some && no_stand_in(
                    *self.dex->0,
                    q.method,
                    e,
                ),
                End::Fault(f) => r == Err::<Value, EmulatorError>(f),
            },
    {
        let mut e = self.start(code_item, args, budget);
        match self.run(code_item, &mut e)? {
            Pause::Returned(v) => Ok(v),
            Pause::Calls(c) => {
                proof {
                    calls_need_a_file(
                        code_item.instructions@,
                        file(self.dex),
                        initial(*code_item, data(args@)),
                        budget as nat,
                        budget,
                    );
                }
                match self.dex {
                    Some(dex) => Err(refuse(dex, c.method)),
                    None => Err(
                        EmulatorError::Unsupported { feature: "invoke (no DEX context)" },
                    ),
                }
            },
        }
    }
}

/// A method body of the given instructions.
pub open spec fn plain_code(
    code: CodeItem,
    registers_size: u16,
    ins_size: u16,
    instructions: Seq<Instruction>,
    payloads: Map<u32, PayloadData>,
) -> bool {
    &&& code.registers_size == registers_size
    &&& code.ins_size == ins_size
    &&& code.outs_size == 0
    &&& code.debug_info_off == 0
    &&& code.instructions@ == instructions
    &&& code.tries@.len() == 0
    &&& code.catch_handlers@.len() == 0
    &&& code.payloads@ == payloads
    &&& code.invariant_violations@.len() == 0
}

/// A method body of the given instructions, with nothing else in it.
pub fn make_code_item(registers_size: u16, ins_size: u16, instructions: Vec<Instruction>) -> (r:
    CodeItem)
    ensures
        plain_code(r, registers_size, ins_size, instructions@, Map::empty()),
{
    let payloads: BTreeMap<u32, PayloadData> = BTreeMap::new();
    assert(payloads@ =~= Map::empty());
    make_code_item_with_payloads(registers_size, ins_size, instructions, payloads)
}

/// A method body of the given instructions and payloads.
pub fn make_code_item_with_payloads(
    registers_size: u16,
    ins_size: u16,
    instructions: Vec<Instruction>,
    payloads: BTreeMap<u32, PayloadData>,
) -> (r: CodeItem)
    ensures
        plain_code(r, registers_size, ins_size, instructions@, payloads@),
{
    CodeItem {
        registers_size,
        ins_size,
        outs_size: 0,
        debug_info_off: 0,
        instructions,
        tries: Vec::new(),
        catch_handlers: Vec::new(),
        payloads,
        invariant_violations: Vec::new(),
    }
}

// Laws

/// Without a file no execution pauses at a call.
pub proof fn calls_need_a_file(
    insns: Seq<Instruction>,
    dex: Option<DexFile>,
    s: State,
    left: nat,
    budget: u32,
)
    ensures
        ran(insns, dex, s, left, budget) is Calls ==> dex is Some,
    decreases left,
{
    if left > 0 && s.at < insns.len() {
        match stepped(insns, dex, s) {
            Step::Go(t) => calls_need_a_file(insns, dex, t, (left - 1) as nat, budget),
            _ => {},
        }
    }
}

/// The execution goes on after `n` instructions, in the given state.
pub open spec fn state_after(
    insns: Seq<Instruction>,
    dex: Option<DexFile>,
    s: State,
    n: nat,
) -> Option<State>
    decreases n,
{
    if n == 0 {
        Some(s)
    } else if s.at >= insns.len() {
        None
    } else {
        match stepped(insns, dex, s) {
            Step::Go(t) => state_after(insns, dex, t, (n - 1) as nat),
            _ => None,
        }
    }
}

/// The budget is exceeded exactly where an execution goes on after as many
/// instructions as it allows: no execution takes more, and none that ends earlier
/// is cut short.
pub proof fn the_budget_is_exact(
    insns: Seq<Instruction>,
    dex: Option<DexFile>,
    s: State,
    left: nat,
    budget: u32,
)
    ensures
        (ran(insns, dex, s, left, budget) == End::Fault(EmulatorError::BudgetExceeded { budget }))
            == (state_after(insns, dex, s, left) is Some),
    decreases left,
{
    if left > 0 && s.at < insns.len() {
        match stepped(insns, dex, s) {
            Step::Go(t) => the_budget_is_exact(insns, dex, t, (left - 1) as nat, budget),
            _ => {
                no_step_exceeds_the_budget(insns, dex, s, budget);
            },
        }
    }
}

proof fn no_step_exceeds_the_budget(
    insns: Seq<Instruction>,
    dex: Option<DexFile>,
    s: State,
    budget: u32,
)
    ensures
        stepped(insns, dex, s) != Step::Fault(EmulatorError::BudgetExceeded { budget }),
{
    let list = insns[s.at as int].src.listed();
    reads_fail_on_registers(s.regs, list, 0, Seq::empty());
    reads_fail_on_registers(s.regs, list, 1, Seq::empty());
}

proof fn reads_fail_on_registers(regs: Seq<Datum>, list: Seq<u16>, i: nat, acc: Seq<Datum>)
    ensures
        crate::emulator::machine::regs_read(regs, list, i, acc) matches Err(e) ==> e
            is RegisterOutOfRange,
    decreases list.len() - i,
{
    if i < list.len() && list[i as int] < regs.len() {
        reads_fail_on_registers(regs, list, i + 1, acc.push(regs[list[i as int] as int]));
    }
}

/// An execution that ends within its budget ends the same way with a larger one.
pub proof fn a_larger_budget_changes_nothing(
    insns: Seq<Instruction>,
    dex: Option<DexFile>,
    s: State,
    left: nat,
    more: nat,
    budget: u32,
    larger: u32,
)
    requires
        left <= more,
        state_after(insns, dex, s, left) is None,
    ensures
        match ran(insns, dex, s, left, budget) {
            End::Calls(q, t, _) => ran(insns, dex, s, more, larger) matches End::Calls(q2, t2, _)
                && q2 == q && t2 == t,
            end => ran(insns, dex, s, more, larger) == end,
        },
    decreases left,
{
    if left > 0 && s.at < insns.len() {
        match stepped(insns, dex, s) {
            Step::Go(t) => a_larger_budget_changes_nothing(
                insns,
                dex,
                t,
                (left - 1) as nat,
                (more - 1) as nat,
                budget,
                larger,
            ),
            _ => {},
        }
    }
}

/// No instruction changes the number of registers.
pub proof fn steps_keep_the_register_count(
    insns: Seq<Instruction>,
    dex: Option<DexFile>,
    s: State,
)
    ensures
        stepped(insns, dex, s) matches Step::Go(t) ==> t.regs.len() == s.regs.len(),
{
}

} // verus!
