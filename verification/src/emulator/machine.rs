//! The state of an execution and its single steps.
use std::collections::BTreeMap;
use vstd::prelude::*;

use crate::collections::{bind, bound};
use crate::decode::{Instruction, PoolIndex};
use crate::dex_file::DexFile;
use crate::emulator::error::EmulatorError;
use crate::emulator::operation::{
    check, compute, computed, holds, kind, kind_of, narrow, narrowed, Form, Kind, Lane, Operator,
    Test,
};
use crate::emulator::value::{data, value_kind_name, Datum, Value};
use crate::ids::{MethodIdx, StringIdx};

verus! {

/// The longest array that may be made.
pub const ARRAY_SIZE_CAP: usize = 65536;

/// The state of an execution.
#[verifier::ext_equal]
pub struct State {
    pub regs: Seq<Datum>,
    /// The position of the next instruction.
    pub at: nat,
    /// What the last call returned.
    pub result: Datum,
}

/// A call of a method that someone else has to stand in for.
#[verifier::ext_equal]
pub struct Request {
    pub method: MethodIdx,
    /// The receiver, for a method that has one.
    pub this: Option<Datum>,
    pub args: Seq<Datum>,
}

/// What one instruction comes to.
pub enum Step {
    /// The execution goes on.
    Go(State),
    /// The method returns.
    Returned(Datum),
    /// The method calls another.
    Calls(Request),
    Fault(EmulatorError),
}

/// The state of an execution, in executable form.
#[derive(Debug)]
pub struct Machine {
    pub regs: Vec<Value>,
    pub at: usize,
    pub result: Value,
}

impl View for Machine {
    type V = State;

    open spec fn view(&self) -> State {
        State { regs: data(self.regs@), at: self.at as nat, result: self.result@ }
    }
}

/// A call of a method that someone else has to stand in for.
#[derive(Debug)]
pub struct Call {
    pub method: MethodIdx,
    /// The receiver, for a method that has one.
    pub this: Option<Value>,
    pub args: Vec<Value>,
}

impl View for Call {
    type V = Request;

    open spec fn view(&self) -> Request {
        Request {
            method: self.method,
            this: match self.this {
                Some(v) => Some(v@),
                None => None,
            },
            args: data(self.args@),
        }
    }
}

/// What one instruction comes to, in executable form.
#[derive(Debug)]
pub enum Event {
    Go,
    Returned(Value),
    Calls(Call),
}

/// A step function did what `step` says, and left the state at `after`.
pub open spec fn shows(step: Step, r: Result<Event, EmulatorError>, before: State, after: State) -> bool {
    match step {
        Step::Go(s) => r == Ok::<Event, EmulatorError>(Event::Go) && after == s,
        Step::Returned(d) => r matches Ok(Event::Returned(v)) && v@ == d,
        Step::Calls(q) => r matches Ok(Event::Calls(c)) && c@ == q && after == before,
        Step::Fault(e) => r == Err::<Event, EmulatorError>(e),
    }
}

pub open spec fn bad(detail: &'static str) -> EmulatorError {
    EmulatorError::InstructionError { detail }
}

// Registers

/// The content of a register.
pub open spec fn reg(regs: Seq<Datum>, r: u16) -> Result<Datum, EmulatorError> {
    if r < regs.len() {
        Ok(regs[r as int])
    } else {
        Err(EmulatorError::RegisterOutOfRange { reg: r, size: regs.len() as u16 })
    }
}

/// The integer in a register.
pub open spec fn reg_int(regs: Seq<Datum>, r: u16) -> Result<i32, EmulatorError> {
    match reg(regs, r) {
        Err(e) => Err(e),
        Ok(Datum::Int(v)) => Ok(v),
        Ok(d) => Err(EmulatorError::TypeMismatch { expected: "Int", got: d.kind() }),
    }
}

/// The array in a register.
pub open spec fn reg_array(regs: Seq<Datum>, r: u16) -> Result<Seq<i32>, EmulatorError> {
    match reg(regs, r) {
        Err(e) => Err(e),
        Ok(Datum::Array(a)) => Ok(a),
        Ok(d) => Err(EmulatorError::TypeMismatch { expected: "Array", got: d.kind() }),
    }
}

/// The execution goes on behind the current instruction.
pub open spec fn onward(s: State) -> State {
    State { at: s.at + 1, ..s }
}

/// The execution goes on behind the current instruction, with `d` in a register.
pub open spec fn put(s: State, r: u16, d: Datum) -> Step {
    if r < s.regs.len() {
        Step::Go(State { regs: s.regs.update(r as int, d), at: s.at + 1, result: s.result })
    } else {
        Step::Fault(EmulatorError::RegisterOutOfRange { reg: r, size: s.regs.len() as u16 })
    }
}

impl Machine {
    fn get(&self, r: u16) -> (v: Result<&Value, EmulatorError>)
        requires
            self.regs@.len() <= u16::MAX,
        ensures
            match reg(self@.regs, r) {
                Ok(d) => v matches Ok(x) && x@ == d,
                Err(e) => v == Err::<&Value, EmulatorError>(e),
            },
    {
        if (r as usize) < self.regs.len() {
            Ok(&self.regs[r as usize])
        } else {
            Err(EmulatorError::RegisterOutOfRange { reg: r, size: self.regs.len() as u16 })
        }
    }

    fn get_int(&self, r: u16) -> (v: Result<i32, EmulatorError>)
        requires
            self.regs@.len() <= u16::MAX,
        ensures
            v == reg_int(self@.regs, r),
    {
        match self.get(r)? {
            Value::Int(v) => Ok(*v),
            other => Err(
                EmulatorError::TypeMismatch { expected: "Int", got: value_kind_name(other) },
            ),
        }
    }

    fn get_array(&self, r: u16) -> (v: Result<Vec<i32>, EmulatorError>)
        requires
            self.regs@.len() <= u16::MAX,
        ensures
            match reg_array(self@.regs, r) {
                Ok(a) => v matches Ok(x) && x@ == a,
                Err(e) => v == Err::<Vec<i32>, EmulatorError>(e),
            },
    {
        match self.get(r)?.clone() {
            Value::Array(a) => Ok(a),
            other => Err(
                EmulatorError::TypeMismatch { expected: "Array", got: value_kind_name(&other) },
            ),
        }
    }

    /// Puts `v` into a register and goes on.
    fn put(&mut self, r: u16, v: Value) -> (e: Result<Event, EmulatorError>)
        requires
            old(self).regs@.len() <= u16::MAX,
            old(self).at < usize::MAX,
        ensures
            final(self).regs@.len() == old(self).regs@.len(),
            shows(put(old(self)@, r, v@), e, old(self)@, final(self)@),
    {
        if (r as usize) < self.regs.len() {
            let ghost before = self.regs@;
            self.regs.set(r as usize, v);
            self.at = self.at + 1;
            assert(data(self.regs@) =~= data(before).update(r as int, v@));
            Ok(Event::Go)
        } else {
            Err(EmulatorError::RegisterOutOfRange { reg: r, size: self.regs.len() as u16 })
        }
    }

    fn go_on(&mut self) -> (e: Result<Event, EmulatorError>)
        requires
            old(self).at < usize::MAX,
        ensures
            final(self).regs@.len() == old(self).regs@.len(),
            shows(Step::Go(onward(old(self)@)), e, old(self)@, final(self)@),
    {
        self.at = self.at + 1;
        Ok(Event::Go)
    }
}

// Operands

/// The destination register, which has to be there.
pub open spec fn dst(insn: Instruction, missing: &'static str) -> Result<u16, EmulatorError> {
    match insn.dst {
        Some(r) => Ok(r),
        None => Err(bad(missing)),
    }
}

/// The source register at a position, which has to be there.
pub open spec fn src(insn: Instruction, i: int, missing: &'static str) -> Result<u16, EmulatorError> {
    if i < insn.src.held().len() {
        Ok(insn.src.held()[i])
    } else {
        Err(bad(missing))
    }
}

fn take_dst(insn: &Instruction, missing: &'static str) -> (r: Result<u16, EmulatorError>)
    ensures
        r == dst(*insn, missing),
{
    match insn.dst {
        Some(r) => Ok(r),
        None => Err(EmulatorError::InstructionError { detail: missing }),
    }
}

fn take_src(insn: &Instruction, i: usize, missing: &'static str) -> (r: Result<u16, EmulatorError>)
    ensures
        r == src(*insn, i as int, missing),
{
    let held: &[u16] = insn.src.as_slice();
    if i < held.len() {
        Ok(held[i])
    } else {
        Err(EmulatorError::InstructionError { detail: missing })
    }
}

/// The messages about missing operands of a form: no destination, no first source,
/// no second source.
pub open spec fn form_messages(form: Form) -> (&'static str, &'static str, &'static str) {
    match form {
        Form::ThreeRegisters => ("arith missing dst", "arith missing src[0]", "arith missing src[1]"),
        Form::TwoRegisters => ("2addr missing dst", "2addr missing src", ""),
        Form::ShortLiteral => ("lit8 missing dst", "lit8 missing src", ""),
        Form::LongLiteral => ("lit16 missing dst", "lit16 missing src", ""),
    }
}

/// The destination and the two operands of an operation.
pub open spec fn operands(form: Form, insn: Instruction, regs: Seq<Datum>) -> Result<
    (u16, i32, i32),
    EmulatorError,
> {
    let (no_dst, no_src, no_other) = form_messages(form);
    match dst(insn, no_dst) {
        Err(e) => Err(e),
        Ok(d) => match src(insn, 0, no_src) {
            Err(e) => Err(e),
            Ok(first) => match form {
                Form::ThreeRegisters => match src(insn, 1, no_other) {
                    Err(e) => Err(e),
                    Ok(second) => match reg_int(regs, first) {
                        Err(e) => Err(e),
                        Ok(a) => match reg_int(regs, second) {
                            Err(e) => Err(e),
                            Ok(b) => Ok((d, a, b)),
                        },
                    },
                },
                Form::TwoRegisters => match reg_int(regs, d) {
                    Err(e) => Err(e),
                    Ok(a) => match reg_int(regs, first) {
                        Err(e) => Err(e),
                        Ok(b) => Ok((d, a, b)),
                    },
                },
                _ => match reg_int(regs, first) {
                    Err(e) => Err(e),
                    Ok(a) => Ok((d, a, insn.literal as i32)),
                },
            },
        },
    }
}

fn take_operands(form: Form, insn: &Instruction, m: &Machine) -> (r: Result<
    (u16, i32, i32),
    EmulatorError,
>)
    requires
        m.regs@.len() <= u16::MAX,
    ensures
        r == operands(form, *insn, m@.regs),
{
    match form {
        Form::ThreeRegisters => {
            let d: u16 = take_dst(insn, "arith missing dst")?;
            let first: u16 = take_src(insn, 0, "arith missing src[0]")?;
            let second: u16 = take_src(insn, 1, "arith missing src[1]")?;
            let a: i32 = m.get_int(first)?;
            let b: i32 = m.get_int(second)?;
            Ok((d, a, b))
        },
        Form::TwoRegisters => {
            let d: u16 = take_dst(insn, "2addr missing dst")?;
            let first: u16 = take_src(insn, 0, "2addr missing src")?;
            let a: i32 = m.get_int(d)?;
            let b: i32 = m.get_int(first)?;
            Ok((d, a, b))
        },
        Form::ShortLiteral => {
            let d: u16 = take_dst(insn, "lit8 missing dst")?;
            let first: u16 = take_src(insn, 0, "lit8 missing src")?;
            let a: i32 = m.get_int(first)?;
            Ok((d, a, insn.literal as i32))
        },
        Form::LongLiteral => {
            let d: u16 = take_dst(insn, "lit16 missing dst")?;
            let first: u16 = take_src(insn, 0, "lit16 missing src")?;
            let a: i32 = m.get_int(first)?;
            Ok((d, a, insn.literal as i32))
        },
    }
}

// Addresses

/// The position of the last of the first `n` instructions that stands at `addr`.
pub open spec fn position(insns: Seq<Instruction>, addr: u32, n: nat) -> Option<nat>
    decreases n,
{
    if n == 0 {
        None
    } else if insns[n - 1].addr == addr {
        Some((n - 1) as nat)
    } else {
        position(insns, addr, (n - 1) as nat)
    }
}

/// A map holds the position of every address.
pub open spec fn locates(places: Map<u32, usize>, insns: Seq<Instruction>, n: nat) -> bool {
    forall|addr: u32|
        #![trigger places.contains_key(addr)]
        #![trigger position(insns, addr, n)]
        match position(insns, addr, n) {
            Some(i) => places.contains_key(addr) && places[addr] == i,
            None => !places.contains_key(addr),
        }
}

/// The position of every address.
pub fn build_addr_map(instructions: &[Instruction]) -> (r: BTreeMap<u32, usize>)
    ensures
        locates(r@, instructions@, instructions@.len()),
{
    let mut places: BTreeMap<u32, usize> = BTreeMap::new();
    assert(places@ =~= Map::empty());
    let mut i: usize = 0;
    while i < instructions.len()
        invariant
            i <= instructions@.len(),
            locates(places@, instructions@, i as nat),
        decreases instructions@.len() - i,
    {
        let ghost before = places@;
        bind(&mut places, instructions[i].addr, i);
        i = i + 1;
        assert(locates(places@, instructions@, i as nat)) by {
            assert forall|addr: u32| match #[trigger] position(instructions@, addr, i as nat) {
                Some(k) => places@.contains_key(addr) && places@[addr] == k,
                None => !places@.contains_key(addr),
            } by {
                let earlier = position(instructions@, addr, (i - 1) as nat);
                assert(before.contains_key(addr) == (earlier is Some));
            }
        }
    }
    places
}

/// The execution goes on at a target, which has to be there.
pub open spec fn jump(
    insns: Seq<Instruction>,
    insn: Instruction,
    s: State,
    missing: &'static str,
    unknown: &'static str,
) -> Step {
    match insn.target {
        None => Step::Fault(bad(missing)),
        Some(addr) => match position(insns, addr, insns.len()) {
            None => Step::Fault(bad(unknown)),
            Some(i) => Step::Go(State { at: i, ..s }),
        },
    }
}

fn take_jump(
    m: &mut Machine,
    insns: &[Instruction],
    places: &BTreeMap<u32, usize>,
    insn: &Instruction,
    missing: &'static str,
    unknown: &'static str,
) -> (r: Result<Event, EmulatorError>)
    requires
        locates(places@, insns@, insns@.len()),
    ensures
        final(m).regs@.len() == old(m).regs@.len(),
        shows(jump(insns@, *insn, old(m)@, missing, unknown), r, old(m)@, final(m)@),
{
    match insn.target {
        None => Err(EmulatorError::InstructionError { detail: missing }),
        Some(addr) => {
            let ghost known = position(insns@, addr, insns@.len());
            match bound(places, addr) {
                None => Err(EmulatorError::InstructionError { detail: unknown }),
                Some(i) => {
                    m.at = *i;
                    Ok(Event::Go)
                },
            }
        },
    }
}

// Instructions

/// An integer constant.
pub open spec fn step_const(insn: Instruction, s: State) -> Step {
    match dst(insn, "const op missing dst") {
        Err(e) => Step::Fault(e),
        Ok(d) => put(s, d, Datum::Int(insn.literal as i32)),
    }
}

/// A long constant.
pub open spec fn step_const_wide(insn: Instruction, s: State) -> Step {
    match dst(insn, "const-wide op missing dst") {
        Err(e) => Step::Fault(e),
        Ok(d) => put(s, d, Datum::Wide(insn.literal)),
    }
}

/// The index of a string constant.
pub open spec fn string_operand(insn: Instruction) -> Option<StringIdx> {
    match insn.pool_idx {
        Some(PoolIndex::String(s)) => Some(s),
        _ => None,
    }
}

/// A string constant.
pub open spec fn step_const_string(insn: Instruction, dex: Option<DexFile>, s: State) -> Step {
    match dst(insn, "const-string missing dst") {
        Err(e) => Step::Fault(e),
        Ok(d) => match string_operand(insn) {
            None => Step::Fault(bad("const-string missing string pool index")),
            Some(idx) => match dex {
                None => Step::Fault(
                    EmulatorError::Unsupported { feature: "const-string (no DEX context)" },
                ),
                Some(f) => match f.string_at(idx) {
                    Ok(text) => put(s, d, Datum::Str(text)),
                    Err(_) => Step::Fault(
                        EmulatorError::StringPoolOob {
                            idx: idx.0,
                            size: f.strings@.len() as usize,
                        },
                    ),
                },
            },
        },
    }
}

/// A copy of a register.
pub open spec fn step_move(insn: Instruction, s: State) -> Step {
    match dst(insn, "move op missing dst") {
        Err(e) => Step::Fault(e),
        Ok(d) => match src(insn, 0, "move op missing src") {
            Err(e) => Step::Fault(e),
            Ok(r) => match reg(s.regs, r) {
                Err(e) => Step::Fault(e),
                Ok(v) => put(s, d, v),
            },
        },
    }
}

/// The result of the last call, which is then gone.
pub open spec fn step_move_result(insn: Instruction, s: State) -> Step {
    match dst(insn, "move-result missing dst") {
        Err(e) => Step::Fault(e),
        Ok(d) => put(State { result: Datum::Void, ..s }, d, s.result),
    }
}

/// The end of the method with a value.
pub open spec fn step_return(insn: Instruction, s: State) -> Step {
    match dst(insn, "return missing register (F11x uses dst field)") {
        Err(e) => Step::Fault(e),
        Ok(d) => match reg(s.regs, d) {
            Err(e) => Step::Fault(e),
            Ok(v) => Step::Returned(v),
        },
    }
}

/// An operation on two integers.
pub open spec fn step_compute(insn: Instruction, form: Form, op: Operator, s: State) -> Step {
    match operands(form, insn, s.regs) {
        Err(e) => Step::Fault(e),
        Ok((d, a, b)) => match computed(op, a, b) {
            None => Step::Fault(EmulatorError::DivisionByZero),
            Some(v) => put(s, d, Datum::Int(v)),
        },
    }
}

/// A new array of zeros.
pub open spec fn step_new_array(insn: Instruction, s: State) -> Step {
    match dst(insn, "new-array missing dst") {
        Err(e) => Step::Fault(e),
        Ok(d) => match src(insn, 0, "new-array missing length reg") {
            Err(e) => Step::Fault(e),
            Ok(r) => match reg_int(s.regs, r) {
                Err(e) => Step::Fault(e),
                Ok(length) => if length < 0 {
                    Step::Fault(EmulatorError::NegativeArrayLength { length })
                } else if length > ARRAY_SIZE_CAP {
                    Step::Fault(
                        EmulatorError::ArrayTooLarge {
                            length: length as usize,
                            cap: ARRAY_SIZE_CAP,
                        },
                    )
                } else {
                    put(s, d, Datum::Array(Seq::new(length as nat, |i: int| 0i32)))
                },
            },
        },
    }
}

/// The element of an array.
pub open spec fn step_array_get(insn: Instruction, lane: Lane, s: State) -> Step {
    match dst(insn, "aget missing dst") {
        Err(e) => Step::Fault(e),
        Ok(d) => match src(insn, 0, "missing src[0]") {
            Err(e) => Step::Fault(e),
            Ok(array) => match src(insn, 1, "missing src[1]") {
                Err(e) => Step::Fault(e),
                Ok(at) => match reg_int(s.regs, at) {
                    Err(e) => Step::Fault(e),
                    Ok(index) => if index < 0 {
                        Step::Fault(EmulatorError::ArrayOutOfBounds { index, length: 0 })
                    } else {
                        match reg_array(s.regs, array) {
                            Err(e) => Step::Fault(e),
                            Ok(a) => if index < a.len() {
                                put(s, d, Datum::Int(narrowed(lane, a[index as int])))
                            } else {
                                Step::Fault(
                                    EmulatorError::ArrayOutOfBounds {
                                        index,
                                        length: a.len() as usize,
                                    },
                                )
                            },
                        }
                    },
                },
            },
        },
    }
}

/// A change of an element of an array.
pub open spec fn step_array_put(insn: Instruction, lane: Lane, s: State) -> Step {
    match dst(insn, "aput missing val reg") {
        Err(e) => Step::Fault(e),
        Ok(from) => match src(insn, 0, "aput missing arr reg") {
            Err(e) => Step::Fault(e),
            Ok(array) => match src(insn, 1, "aput missing idx reg") {
                Err(e) => Step::Fault(e),
                Ok(at) => match reg_int(s.regs, from) {
                    Err(e) => Step::Fault(e),
                    Ok(v) => match reg_int(s.regs, at) {
                        Err(e) => Step::Fault(e),
                        Ok(index) => if index < 0 {
                            Step::Fault(EmulatorError::ArrayOutOfBounds { index, length: 0 })
                        } else {
                            match reg_array(s.regs, array) {
                                Err(e) => Step::Fault(e),
                                Ok(a) => if index < a.len() {
                                    put(
                                        s,
                                        array,
                                        Datum::Array(a.update(index as int, narrowed(lane, v))),
                                    )
                                } else {
                                    Step::Fault(
                                        EmulatorError::ArrayOutOfBounds {
                                            index,
                                            length: a.len() as usize,
                                        },
                                    )
                                },
                            }
                        },
                    },
                },
            },
        },
    }
}

/// A branch on two registers.
pub open spec fn step_branch(
    insns: Seq<Instruction>,
    insn: Instruction,
    test: Test,
    s: State,
) -> Step {
    match src(insn, 0, "missing src[0]") {
        Err(e) => Step::Fault(e),
        Ok(first) => match src(insn, 1, "missing src[1]") {
            Err(e) => Step::Fault(e),
            Ok(second) => match reg_int(s.regs, first) {
                Err(e) => Step::Fault(e),
                Ok(a) => match reg_int(s.regs, second) {
                    Err(e) => Step::Fault(e),
                    Ok(b) => if holds(test, a, b) {
                        jump(
                            insns,
                            insn,
                            s,
                            "if-* branch missing target",
                            "if-* branch target not in addr_map",
                        )
                    } else {
                        Step::Go(onward(s))
                    },
                },
            },
        },
    }
}

/// A branch on a register and zero.
pub open spec fn step_branch_zero(
    insns: Seq<Instruction>,
    insn: Instruction,
    test: Test,
    s: State,
) -> Step {
    match dst(insn, "if-*z missing register (F21t uses dst field)") {
        Err(e) => Step::Fault(e),
        Ok(r) => match reg_int(s.regs, r) {
            Err(e) => Step::Fault(e),
            Ok(a) => if holds(test, a, 0) {
                jump(
                    insns,
                    insn,
                    s,
                    "if-*z branch missing target",
                    "if-*z branch target not in addr_map",
                )
            } else {
                Step::Go(onward(s))
            },
        },
    }
}

/// The contents of the registers from position `i` on, after those in `acc`.
pub open spec fn regs_read(regs: Seq<Datum>, list: Seq<u16>, i: nat, acc: Seq<Datum>) -> Result<
    Seq<Datum>,
    EmulatorError,
>
    decreases list.len() - i,
{
    if i >= list.len() {
        Ok(acc)
    } else {
        match reg(regs, list[i as int]) {
            Err(e) => Err(e),
            Ok(d) => regs_read(regs, list, i + 1, acc.push(d)),
        }
    }
}

/// The index of the method that a call names.
pub open spec fn method_operand(insn: Instruction) -> Option<MethodIdx> {
    match insn.pool_idx {
        Some(PoolIndex::Method(m)) => Some(m),
        _ => None,
    }
}

/// A call.
pub open spec fn step_call(insn: Instruction, receiver: bool, known: bool, s: State) -> Step {
    match method_operand(insn) {
        None => Step::Fault(
            EmulatorError::InvokeResolutionError { detail: "invoke missing method pool index" },
        ),
        Some(method) => if !known {
            Step::Fault(EmulatorError::Unsupported { feature: "invoke (no DEX context)" })
        } else if receiver {
            let list = insn.src.listed();
            if list.len() == 0 {
                Step::Fault(
                    EmulatorError::InvokeResolutionError {
                        detail: "invoke-virtual missing this-register",
                    },
                )
            } else {
                match reg(s.regs, list[0]) {
                    Err(e) => Step::Fault(e),
                    Ok(this) => match regs_read(s.regs, list, 1, Seq::empty()) {
                        Err(e) => Step::Fault(e),
                        Ok(args) => Step::Calls(Request { method, this: Some(this), args }),
                    },
                }
            }
        } else {
            match regs_read(s.regs, insn.src.listed(), 0, Seq::empty()) {
                Err(e) => Step::Fault(e),
                Ok(args) => Step::Calls(Request { method, this: None, args }),
            }
        },
    }
}

/// What the instruction at the current position comes to.
pub open spec fn stepped(insns: Seq<Instruction>, dex: Option<DexFile>, s: State) -> Step {
    let insn = insns[s.at as int];
    match kind(insn.op) {
        Kind::Nop => Step::Go(onward(s)),
        Kind::Const => step_const(insn, s),
        Kind::ConstWide => step_const_wide(insn, s),
        Kind::ConstString => step_const_string(insn, dex, s),
        Kind::Move => step_move(insn, s),
        Kind::MoveResult => step_move_result(insn, s),
        Kind::ReturnVoid => Step::Returned(Datum::Void),
        Kind::Return => step_return(insn, s),
        Kind::Compute(form, op) => step_compute(insn, form, op, s),
        Kind::NewArray => step_new_array(insn, s),
        Kind::ArrayGet(lane) => step_array_get(insn, lane, s),
        Kind::ArrayPut(lane) => step_array_put(insn, lane, s),
        Kind::Branch(test) => step_branch(insns, insn, test, s),
        Kind::BranchZero(test) => step_branch_zero(insns, insn, test, s),
        Kind::Goto => jump(insns, insn, s, "goto missing target", "goto target not in addr_map"),
        Kind::Call { receiver } => step_call(insn, receiver, dex is Some, s),
        Kind::OtherCall => Step::Fault(
            EmulatorError::Unsupported { feature: "invoke-super/interface/polymorphic/custom" },
        ),
        Kind::MoveException => Step::Fault(
            EmulatorError::Unsupported { feature: "exception-handling" },
        ),
        Kind::Other => Step::Fault(
            EmulatorError::Unsupported { feature: "opcode-not-in-emulator-core-subset" },
        ),
    }
}

fn do_const(m: &mut Machine, insn: &Instruction) -> (r: Result<Event, EmulatorError>)
    requires
        old(m).regs@.len() <= u16::MAX,
        old(m).at < usize::MAX,
    ensures
        final(m).regs@.len() == old(m).regs@.len(),
        shows(step_const(*insn, old(m)@), r, old(m)@, final(m)@),
{
    let d: u16 = take_dst(insn, "const op missing dst")?;
    m.put(d, Value::Int(insn.literal as i32))
}

fn do_const_wide(m: &mut Machine, insn: &Instruction) -> (r: Result<Event, EmulatorError>)
    requires
        old(m).regs@.len() <= u16::MAX,
        old(m).at < usize::MAX,
    ensures
        final(m).regs@.len() == old(m).regs@.len(),
        shows(step_const_wide(*insn, old(m)@), r, old(m)@, final(m)@),
{
    let d: u16 = take_dst(insn, "const-wide op missing dst")?;
    m.put(d, Value::Wide(insn.literal))
}

fn do_const_string(m: &mut Machine, insn: &Instruction, dex: Option<&DexFile>) -> (r: Result<Event, EmulatorError>)
    requires
        old(m).regs@.len() <= u16::MAX,
        old(m).at < usize::MAX,
    ensures
        final(m).regs@.len() == old(m).regs@.len(),
        shows(step_const_string(*insn, file(dex), old(m)@), r, old(m)@, final(m)@),
{
    let d: u16 = take_dst(insn, "const-string missing dst")?;
    let idx: StringIdx = match insn.pool_idx {
        Some(PoolIndex::String(s)) => s,
        _ => {
            return Err(
                EmulatorError::InstructionError { detail: "const-string missing string pool index" },
            );
        },
    };
    match dex {
        None => Err(EmulatorError::Unsupported { feature: "const-string (no DEX context)" }),
        Some(f) => match f.get_string(idx) {
            Ok(text) => m.put(d, Value::Str(String::from_str(text))),
            Err(_) => Err(EmulatorError::StringPoolOob { idx: idx.0, size: f.strings.len() }),
        },
    }
}

fn do_move(m: &mut Machine, insn: &Instruction) -> (r: Result<Event, EmulatorError>)
    requires
        old(m).regs@.len() <= u16::MAX,
        old(m).at < usize::MAX,
    ensures
        final(m).regs@.len() == old(m).regs@.len(),
        shows(step_move(*insn, old(m)@), r, old(m)@, final(m)@),
{
    let d: u16 = take_dst(insn, "move op missing dst")?;
    let r: u16 = take_src(insn, 0, "move op missing src")?;
    let v = m.get(r)?.clone();
    m.put(d, v)
}

fn do_move_result(m: &mut Machine, insn: &Instruction) -> (r: Result<Event, EmulatorError>)
    requires
        old(m).regs@.len() <= u16::MAX,
        old(m).at < usize::MAX,
    ensures
        final(m).regs@.len() == old(m).regs@.len(),
        shows(step_move_result(*insn, old(m)@), r, old(m)@, final(m)@),
{
    let d: u16 = take_dst(insn, "move-result missing dst")?;
    let v = m.result.clone();
    m.result = Value::Void;
    m.put(d, v)
}

fn do_return(m: &mut Machine, insn: &Instruction) -> (r: Result<Event, EmulatorError>)
    requires
        old(m).regs@.len() <= u16::MAX,
        old(m).at < usize::MAX,
    ensures
        final(m).regs@.len() == old(m).regs@.len(),
        shows(step_return(*insn, old(m)@), r, old(m)@, final(m)@),
{
    let d: u16 = take_dst(insn, "return missing register (F11x uses dst field)")?;
    let v = m.get(d)?.clone();
    Ok(Event::Returned(v))
}

fn do_compute(m: &mut Machine, insn: &Instruction, form: Form, op: Operator) -> (r: Result<Event, EmulatorError>)
    requires
        old(m).regs@.len() <= u16::MAX,
        old(m).at < usize::MAX,
    ensures
        final(m).regs@.len() == old(m).regs@.len(),
        shows(step_compute(*insn, form, op, old(m)@), r, old(m)@, final(m)@),
{
    let (d, a, b) = take_operands(form, insn, m)?;
    let v: i32 = compute(op, a, b)?;
    m.put(d, Value::Int(v))
}

fn zero_ints(n: usize) -> (r: Vec<i32>)
    ensures
        r@ == Seq::new(n as nat, |i: int| 0i32),
{
    let mut out: Vec<i32> = Vec::new();
    let mut i: usize = 0;
    while i < n
        invariant
            i <= n,
            out@ =~= Seq::new(i as nat, |i: int| 0i32),
        decreases n - i,
    {
        out.push(0);
        i = i + 1;
    }
    out
}

fn do_new_array(m: &mut Machine, insn: &Instruction) -> (r: Result<Event, EmulatorError>)
    requires
        old(m).regs@.len() <= u16::MAX,
        old(m).at < usize::MAX,
    ensures
        final(m).regs@.len() == old(m).regs@.len(),
        shows(step_new_array(*insn, old(m)@), r, old(m)@, final(m)@),
{
    let d: u16 = take_dst(insn, "new-array missing dst")?;
    let r: u16 = take_src(insn, 0, "new-array missing length reg")?;
    let length: i32 = m.get_int(r)?;
    if length < 0 {
        return Err(EmulatorError::NegativeArrayLength { length });
    }
    if length as usize > ARRAY_SIZE_CAP {
        return Err(
            EmulatorError::ArrayTooLarge { length: length as usize, cap: ARRAY_SIZE_CAP },
        );
    }
    m.put(d, Value::Array(zero_ints(length as usize)))
}

fn do_array_get(m: &mut Machine, insn: &Instruction, lane: Lane) -> (r: Result<Event, EmulatorError>)
    requires
        old(m).regs@.len() <= u16::MAX,
        old(m).at < usize::MAX,
    ensures
        final(m).regs@.len() == old(m).regs@.len(),
        shows(step_array_get(*insn, lane, old(m)@), r, old(m)@, final(m)@),
{
    let d: u16 = take_dst(insn, "aget missing dst")?;
    let array: u16 = take_src(insn, 0, "missing src[0]")?;
    let at: u16 = take_src(insn, 1, "missing src[1]")?;
    let index: i32 = m.get_int(at)?;
    if index < 0 {
        return Err(EmulatorError::ArrayOutOfBounds { index, length: 0 });
    }
    let a = m.get_array(array)?;
    if index as usize >= a.len() {
        return Err(EmulatorError::ArrayOutOfBounds { index, length: a.len() });
    }
    m.put(d, Value::Int(narrow(lane, a[index as usize])))
}

fn do_array_put(m: &mut Machine, insn: &Instruction, lane: Lane) -> (r: Result<Event, EmulatorError>)
    requires
        old(m).regs@.len() <= u16::MAX,
        old(m).at < usize::MAX,
    ensures
        final(m).regs@.len() == old(m).regs@.len(),
        shows(step_array_put(*insn, lane, old(m)@), r, old(m)@, final(m)@),
{
    let from: u16 = take_dst(insn, "aput missing val reg")?;
    let array: u16 = take_src(insn, 0, "aput missing arr reg")?;
    let at: u16 = take_src(insn, 1, "aput missing idx reg")?;
    let v: i32 = m.get_int(from)?;
    let index: i32 = m.get_int(at)?;
    if index < 0 {
        return Err(EmulatorError::ArrayOutOfBounds { index, length: 0 });
    }
    let mut a = m.get_array(array)?;
    if index as usize >= a.len() {
        return Err(EmulatorError::ArrayOutOfBounds { index, length: a.len() });
    }
    a.set(index as usize, narrow(lane, v));
    m.put(array, Value::Array(a))
}

fn do_branch(
    m: &mut Machine,
    insn: &Instruction,
    insns: &[Instruction],
    places: &BTreeMap<u32, usize>,
    test: Test,
) -> (r: Result<Event, EmulatorError>)
    requires
        old(m).regs@.len() <= u16::MAX,
        old(m).at < usize::MAX,
        locates(places@, insns@, insns@.len()),
    ensures
        final(m).regs@.len() == old(m).regs@.len(),
        shows(step_branch(insns@, *insn, test, old(m)@), r, old(m)@, final(m)@),
{
    let first: u16 = take_src(insn, 0, "missing src[0]")?;
    let second: u16 = take_src(insn, 1, "missing src[1]")?;
    let a: i32 = m.get_int(first)?;
    let b: i32 = m.get_int(second)?;
    if check(test, a, b) {
        take_jump(
            m,
            insns,
            places,
            insn,
            "if-* branch missing target",
            "if-* branch target not in addr_map",
        )
    } else {
        m.go_on()
    }
}

fn do_branch_zero(
    m: &mut Machine,
    insn: &Instruction,
    insns: &[Instruction],
    places: &BTreeMap<u32, usize>,
    test: Test,
) -> (r: Result<Event, EmulatorError>)
    requires
        old(m).regs@.len() <= u16::MAX,
        old(m).at < usize::MAX,
        locates(places@, insns@, insns@.len()),
    ensures
        final(m).regs@.len() == old(m).regs@.len(),
        shows(step_branch_zero(insns@, *insn, test, old(m)@), r, old(m)@, final(m)@),
{
    let r: u16 = take_dst(insn, "if-*z missing register (F21t uses dst field)")?;
    let a: i32 = m.get_int(r)?;
    if check(test, a, 0) {
        take_jump(
            m,
            insns,
            places,
            insn,
            "if-*z branch missing target",
            "if-*z branch target not in addr_map",
        )
    } else {
        m.go_on()
    }
}

fn read_regs(m: &Machine, list: &Vec<u16>, from: usize) -> (r: Result<Vec<Value>, EmulatorError>)
    requires
        m.regs@.len() <= u16::MAX,
        from <= list@.len(),
    ensures
        match regs_read(m@.regs, list@, from as nat, Seq::empty()) {
            Ok(s) => r matches Ok(v) && data(v@) == s,
            Err(e) => r == Err::<Vec<Value>, EmulatorError>(e),
        },
{
    let ghost whole = regs_read(m@.regs, list@, from as nat, Seq::empty());
    let mut out: Vec<Value> = Vec::new();
    let mut i: usize = from;
    assert(data(out@) =~= Seq::empty());
    while i < list.len()
        invariant
            from <= i <= list@.len(),
            m.regs@.len() <= u16::MAX,
            whole == regs_read(m@.regs, list@, from as nat, Seq::empty()),
            whole == regs_read(m@.regs, list@, i as nat, data(out@)),
        decreases list@.len() - i,
    {
        let ghost before = out@;
        let v = m.get(list[i])?.clone();
        out.push(v);
        assert(data(out@) =~= data(before).push(v@));
        i = i + 1;
    }
    Ok(out)
}

fn do_call(m: &mut Machine, insn: &Instruction, receiver: bool, known: bool) -> (r: Result<Event, EmulatorError>)
    requires
        old(m).regs@.len() <= u16::MAX,
        old(m).at < usize::MAX,
    ensures
        final(m).regs@.len() == old(m).regs@.len(),
        shows(step_call(*insn, receiver, known, old(m)@), r, old(m)@, final(m)@),
{
    let method: MethodIdx = match insn.pool_idx {
        Some(PoolIndex::Method(x)) => x,
        _ => {
            return Err(
                EmulatorError::InvokeResolutionError { detail: "invoke missing method pool index" },
            );
        },
    };
    if !known {
        return Err(EmulatorError::Unsupported { feature: "invoke (no DEX context)" });
    }
    let list = insn.src.registers();
    if receiver {
        if list.len() == 0 {
            return Err(
                EmulatorError::InvokeResolutionError {
                    detail: "invoke-virtual missing this-register",
                },
            );
        }
        let this = m.get(list[0])?.clone();
        let args = read_regs(m, &list, 1)?;
        Ok(Event::Calls(Call { method, this: Some(this), args }))
    } else {
        let args = read_regs(m, &list, 0)?;
        Ok(Event::Calls(Call { method, this: None, args }))
    }
}

/// The file behind an optional reference.
pub open spec fn file(dex: Option<&DexFile>) -> Option<DexFile> {
    match dex {
        Some(f) => Some(*f),
        None => None,
    }
}

/// Executes the instruction at the current position.
pub fn step(
    m: &mut Machine,
    insns: &[Instruction],
    places: &BTreeMap<u32, usize>,
    dex: Option<&DexFile>,
) -> (r: Result<Event, EmulatorError>)
    requires
        old(m).regs@.len() <= u16::MAX,
        old(m).at < insns@.len(),
        locates(places@, insns@, insns@.len()),
    ensures
        final(m).regs@.len() == old(m).regs@.len(),
        shows(stepped(insns@, file(dex), old(m)@), r, old(m)@, final(m)@),
{
    let insn: Instruction = insns[m.at];
    assert(m.at < insns.len());
    match kind_of(insn.op) {
        Kind::Nop => m.go_on(),
        Kind::Const => do_const(m, &insn),
        Kind::ConstWide => do_const_wide(m, &insn),
        Kind::ConstString => do_const_string(m, &insn, dex),
        Kind::Move => do_move(m, &insn),
        Kind::MoveResult => do_move_result(m, &insn),
        Kind::ReturnVoid => Ok(Event::Returned(Value::Void)),
        Kind::Return => do_return(m, &insn),
        Kind::Compute(form, op) => do_compute(m, &insn, form, op),
        Kind::NewArray => do_new_array(m, &insn),
        Kind::ArrayGet(lane) => do_array_get(m, &insn, lane),
        Kind::ArrayPut(lane) => do_array_put(m, &insn, lane),
        Kind::Branch(test) => do_branch(m, &insn, insns, places, test),
        Kind::BranchZero(test) => do_branch_zero(m, &insn, insns, places, test),
        Kind::Goto => take_jump(
            m,
            insns,
            places,
            &insn,
            "goto missing target",
            "goto target not in addr_map",
        ),
        Kind::Call { receiver } => do_call(m, &insn, receiver, dex.is_some()),
        Kind::OtherCall => Err(
            EmulatorError::Unsupported { feature: "invoke-super/interface/polymorphic/custom" },
        ),
        Kind::MoveException => Err(EmulatorError::Unsupported { feature: "exception-handling" }),
        Kind::Other => Err(
            EmulatorError::Unsupported { feature: "opcode-not-in-emulator-core-subset" },
        ),
    }
}

} // verus!
