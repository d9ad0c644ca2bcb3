//! Method bodies: the instruction stream and the structure around it.
use std::collections::BTreeMap;
use vstd::prelude::*;

use crate::bytes::{le16, le32, overlay, push_u16, push_u32, push_zeros, write_over, zeros};
use crate::collections::{entries, sorted_keys};
use crate::decode::{CatchHandler, CodeItem, Instruction, PayloadData, TryItem, TypedCatch};
use crate::emit_dex::error::DexEmitError;
use crate::emit_dex::instruction::{emit_instruction, insn_units, unit_bytes};
use crate::emit_dex::payload::{emit_payload, payload_written};
use crate::emit_dex::written::{done, failed, gives, unrepresentable, Written};
use crate::leb128::{sleb, uleb, write_sleb128, write_uleb128};
use crate::opcodes::Opcode;

verus! {

/// `x`, or `u32::MAX` where it is larger.
pub open spec fn sat32(x: int) -> u32 {
    if x > u32::MAX {
        u32::MAX
    } else {
        x as u32
    }
}

// Extent of the instruction stream

/// The larger of `acc` and the end of every instruction from position `i` on.
pub open spec fn insns_end(insns: Seq<Instruction>, i: nat, acc: u32) -> u32
    decreases insns.len() - i,
{
    if i >= insns.len() {
        acc
    } else {
        let end = sat32(insns[i as int].addr + insns[i as int].size);
        insns_end(insns, i + 1, if end > acc { end } else { acc })
    }
}

/// The length of a data block in code units.
pub open spec fn payload_units(p: PayloadData) -> Result<u32, DexEmitError> {
    match p {
        PayloadData::PackedSwitch { targets, .. } => if targets@.len() > u32::MAX {
            Err(
                DexEmitError::SizeOverflow {
                    layer: "compute_insns_size",
                    context: "packed-switch target count exceeds u32",
                },
            )
        } else {
            Ok(sat32(4 + 2 * targets@.len() as int))
        },
        PayloadData::SparseSwitch { keys, .. } => if keys@.len() > u32::MAX {
            Err(
                DexEmitError::SizeOverflow {
                    layer: "compute_insns_size",
                    context: "sparse-switch key count exceeds u32",
                },
            )
        } else {
            Ok(sat32(2 + 4 * keys@.len() as int))
        },
        PayloadData::FillArrayData { data, .. } => if data@.len() > u32::MAX {
            Err(
                DexEmitError::SizeOverflow {
                    layer: "compute_insns_size",
                    context: "fill-array-data byte length exceeds u32",
                },
            )
        } else {
            Ok(sat32(4 + sat32(data@.len() as int + 1) / 2))
        },
    }
}

/// The larger of `acc` and the end of every data block from position `i` on.
pub open spec fn payloads_end(m: Map<u32, PayloadData>, keys: Seq<u32>, i: nat, acc: u32) -> Result<
    u32,
    DexEmitError,
>
    decreases keys.len() - i,
{
    if i >= keys.len() {
        Ok(acc)
    } else {
        match payload_units(m[keys[i as int]]) {
            Err(e) => Err(e),
            Ok(units) => {
                let end = sat32(keys[i as int] + units);
                payloads_end(m, keys, i + 1, if end > acc { end } else { acc })
            },
        }
    }
}

/// The length of a method's instruction stream in code units: where the last
/// instruction or data block ends.
pub open spec fn insns_extent(insns: Seq<Instruction>, payloads: Map<u32, PayloadData>) -> Result<
    u32,
    DexEmitError,
> {
    payloads_end(payloads, sorted_keys(payloads), 0, insns_end(insns, 0, 0))
}

fn twice(n: u32) -> (r: u32)
    ensures
        r == sat32(2 * n as int),
{
    if n > 0x7FFF_FFFF {
        u32::MAX
    } else {
        2 * n
    }
}

fn payload_len(p: &PayloadData) -> (r: Result<u32, DexEmitError>)
    ensures
        r == payload_units(*p),
{
    match p {
        PayloadData::PackedSwitch { targets, .. } => {
            if targets.len() > u32::MAX as usize {
                return Err(
                    DexEmitError::SizeOverflow {
                        layer: "compute_insns_size",
                        context: "packed-switch target count exceeds u32",
                    },
                );
            }
            Ok(4u32.saturating_add(twice(targets.len() as u32)))
        },
        PayloadData::SparseSwitch { keys, .. } => {
            if keys.len() > u32::MAX as usize {
                return Err(
                    DexEmitError::SizeOverflow {
                        layer: "compute_insns_size",
                        context: "sparse-switch key count exceeds u32",
                    },
                );
            }
            Ok(2u32.saturating_add(twice(twice(keys.len() as u32))))
        },
        PayloadData::FillArrayData { data, .. } => {
            if data.len() > u32::MAX as usize {
                return Err(
                    DexEmitError::SizeOverflow {
                        layer: "compute_insns_size",
                        context: "fill-array-data byte length exceeds u32",
                    },
                );
            }
            Ok(4u32.saturating_add((data.len() as u32).saturating_add(1) / 2))
        },
    }
}

/// The length of a method's instruction stream in code units.
pub fn compute_insns_size(instructions: &[Instruction], payloads: &BTreeMap<u32, PayloadData>) -> (r:
    Result<u32, DexEmitError>)
    ensures
        r == insns_extent(instructions@, payloads@),
{
    let mut max_end: u32 = 0;
    let mut i: usize = 0;
    while i < instructions.len()
        invariant
            i <= instructions@.len(),
            insns_end(instructions@, 0, 0) == insns_end(instructions@, i as nat, max_end),
        decreases instructions@.len() - i,
    {
        let end: u32 = instructions[i].addr.saturating_add(instructions[i].size as u32);
        if end > max_end {
            max_end = end;
        }
        i = i + 1;
    }
    let list = entries(payloads);
    let ghost keys = sorted_keys(payloads@);
    let ghost whole = insns_extent(instructions@, payloads@);
    let mut i: usize = 0;
    while i < list.len()
        invariant
            i <= list@.len() == keys.len(),
            forall|i: int|
                #![trigger list@[i]]
                0 <= i < list@.len() ==> list@[i].0 == keys[i] && payloads@[keys[i]] == *list@[i].1,
            whole == insns_extent(instructions@, payloads@),
            whole == payloads_end(payloads@, keys, i as nat, max_end),
        decreases list@.len() - i,
    {
        let entry: (u32, &PayloadData) = list[i];
        assert(list@[i as int].0 == keys[i as int]);
        let units: u32 = payload_len(entry.1)?;
        let end: u32 = entry.0.saturating_add(units);
        if end > max_end {
            max_end = end;
        }
        i = i + 1;
    }
    Ok(max_end)
}

// The instruction stream

/// The number of bytes in `n` code units, as far as it can be addressed.
pub open spec fn byte_span(n: u32) -> nat {
    if 2 * n > usize::MAX {
        usize::MAX as nat
    } else {
        (2 * n) as nat
    }
}

/// `stream` with `part` put at code unit `at`; `subject` is the pair of messages
/// for a part that ends past the addressable range, or past the stream.
pub open spec fn stream_put(
    stream: Seq<u8>,
    at: u32,
    part: Seq<u8>,
    wraps: &'static str,
    overruns: &'static str,
) -> Result<Seq<u8>, DexEmitError> {
    if byte_span(at) + part.len() > usize::MAX {
        Err(DexEmitError::OffsetOverflow { section: "insn_stream", context: wraps })
    } else if byte_span(at) + part.len() > stream.len() {
        Err(DexEmitError::OffsetOverflow { section: "insn_stream", context: overruns })
    } else {
        Ok(overlay(stream, byte_span(at) as int, part))
    }
}

/// `stream` with the instructions from position `i` on put at their addresses.
pub open spec fn stream_insns(insns: Seq<Instruction>, i: nat, stream: Seq<u8>) -> Result<
    Seq<u8>,
    DexEmitError,
>
    decreases insns.len() - i,
{
    if i >= insns.len() {
        Ok(stream)
    } else {
        match insn_units(insns[i as int]) {
            Err(e) => Err(e),
            Ok(units) => match stream_put(
                stream,
                insns[i as int].addr,
                unit_bytes(units),
                "instruction end offset overflowed usize",
                "instruction would write past declared insns_size",
            ) {
                Err(e) => Err(e),
                Ok(next) => stream_insns(insns, i + 1, next),
            },
        }
    }
}

/// The address of the first switch, from position `i` on, whose data block is at
/// `pc`.
pub open spec fn switch_for(insns: Seq<Instruction>, pc: u32, i: nat) -> Option<u32>
    decreases insns.len() - i,
{
    if i >= insns.len() {
        None
    } else if (insns[i as int].op == Opcode::PackedSwitch || insns[i as int].op
        == Opcode::SparseSwitch) && insns[i as int].target == Some(pc) {
        Some(insns[i as int].addr)
    } else {
        switch_for(insns, pc, i + 1)
    }
}

/// The data block at `pc`, whose targets are measured from its switch.
pub open spec fn placed_payload(insns: Seq<Instruction>, pc: u32, p: PayloadData) -> Result<
    Seq<u8>,
    DexEmitError,
> {
    if p is FillArrayData {
        payload_written(p, 0).result()
    } else {
        match switch_for(insns, pc, 0) {
            None => Err(
                DexEmitError::UnrepresentableIR {
                    why: "switch payload in code_item has no matching switch instruction",
                },
            ),
            Some(switch_pc) => payload_written(p, switch_pc).result(),
        }
    }
}

/// `stream` with the data blocks from position `i` on put at their addresses.
pub open spec fn stream_payloads(
    insns: Seq<Instruction>,
    m: Map<u32, PayloadData>,
    keys: Seq<u32>,
    i: nat,
    stream: Seq<u8>,
) -> Result<Seq<u8>, DexEmitError>
    decreases keys.len() - i,
{
    if i >= keys.len() {
        Ok(stream)
    } else {
        match placed_payload(insns, keys[i as int], m[keys[i as int]]) {
            Err(e) => Err(e),
            Ok(part) => match stream_put(
                stream,
                keys[i as int],
                part,
                "payload end offset overflowed usize",
                "payload would write past declared insns_size",
            ) {
                Err(e) => Err(e),
                Ok(next) => stream_payloads(insns, m, keys, i + 1, next),
            },
        }
    }
}

/// The instruction stream of a method: `insns_size` code units, zero but for the
/// instructions and the data blocks at their addresses.
pub open spec fn insn_stream(
    insns: Seq<Instruction>,
    payloads: Map<u32, PayloadData>,
    insns_size: u32,
) -> Result<Seq<u8>, DexEmitError> {
    match stream_insns(insns, 0, zeros(byte_span(insns_size))) {
        Err(e) => Err(e),
        Ok(stream) => stream_payloads(insns, payloads, sorted_keys(payloads), 0, stream),
    }
}

fn span_bytes(n: u32) -> (r: usize)
    ensures
        r == byte_span(n),
{
    let wide: u64 = 2 * n as u64;
    if wide > usize::MAX as u64 {
        usize::MAX
    } else {
        wide as usize
    }
}

/// The outcome of putting a part into the stream.
pub open spec fn put_gives(
    before: Seq<u8>,
    after: Seq<u8>,
    r: Result<(), DexEmitError>,
    expected: Result<Seq<u8>, DexEmitError>,
) -> bool {
    match expected {
        Ok(s) => r is Ok && after == s,
        Err(e) => r == Err::<(), DexEmitError>(e) && after == before,
    }
}

fn put_in_stream(
    stream: &mut Vec<u8>,
    at: u32,
    part: &[u8],
    wraps: &'static str,
    overruns: &'static str,
) -> (r: Result<(), DexEmitError>)
    ensures
        put_gives(old(stream)@, final(stream)@, r, stream_put(old(stream)@, at, part@, wraps, overruns)),
{
    let off: usize = span_bytes(at);
    match off.checked_add(part.len()) {
        None => Err(DexEmitError::OffsetOverflow { section: "insn_stream", context: wraps }),
        Some(end) => {
            if end > stream.len() {
                return Err(
                    DexEmitError::OffsetOverflow { section: "insn_stream", context: overruns },
                );
            }
            write_over(stream.as_mut_slice(), off, part);
            Ok(())
        },
    }
}

fn find_switch(instructions: &[Instruction], pc: u32) -> (r: Option<u32>)
    ensures
        r == switch_for(instructions@, pc, 0),
{
    let mut i: usize = 0;
    while i < instructions.len()
        invariant
            i <= instructions@.len(),
            switch_for(instructions@, pc, 0) == switch_for(instructions@, pc, i as nat),
        decreases instructions@.len() - i,
    {
        let insn: Instruction = instructions[i];
        if insn.op == Opcode::PackedSwitch || insn.op == Opcode::SparseSwitch {
            match insn.target {
                Some(t) => {
                    if t == pc {
                        return Some(insn.addr);
                    }
                },
                None => {},
            }
        }
        i = i + 1;
    }
    None
}

fn payload_part(instructions: &[Instruction], pc: u32, payload: &PayloadData) -> (r: Result<
    Vec<u8>,
    DexEmitError,
>)
    ensures
        gives(r, placed_payload(instructions@, pc, *payload)),
{
    let switch_pc: u32 = match payload {
        PayloadData::FillArrayData { .. } => 0,
        _ => match find_switch(instructions, pc) {
            Some(at) => at,
            None => {
                return Err(
                    DexEmitError::UnrepresentableIR {
                        why: "switch payload in code_item has no matching switch instruction",
                    },
                );
            },
        },
    };
    let mut buf: Vec<u8> = Vec::new();
    match emit_payload(&mut buf, payload, switch_pc) {
        Ok(_) => {
            assert(buf@ =~= payload_written(*payload, switch_pc).bytes);
            Ok(buf)
        },
        Err(e) => Err(e),
    }
}

/// The instruction stream of a method, `insns_size` code units long.
pub fn assemble_insn_stream(
    instructions: &[Instruction],
    payloads: &BTreeMap<u32, PayloadData>,
    insns_size: u32,
) -> (r: Result<Vec<u8>, DexEmitError>)
    ensures
        gives(r, insn_stream(instructions@, payloads@, insns_size)),
{
    let ghost whole = insn_stream(instructions@, payloads@, insns_size);
    let mut stream: Vec<u8> = Vec::new();
    push_zeros(&mut stream, span_bytes(insns_size));
    assert(stream@ =~= zeros(byte_span(insns_size)));
    let ghost first = stream_insns(instructions@, 0, stream@);
    let mut i: usize = 0;
    while i < instructions.len()
        invariant
            i <= instructions@.len(),
            whole == insn_stream(instructions@, payloads@, insns_size),
            first == stream_insns(instructions@, 0, zeros(byte_span(insns_size))),
            first == stream_insns(instructions@, i as nat, stream@),
        decreases instructions@.len() - i,
    {
        let mut buf: Vec<u8> = Vec::new();
        emit_instruction(&mut buf, &instructions[i])?;
        assert(buf@ =~= unit_bytes(insn_units(instructions@[i as int])->Ok_0));
        put_in_stream(
            &mut stream,
            instructions[i].addr,
            buf.as_slice(),
            "instruction end offset overflowed usize",
            "instruction would write past declared insns_size",
        )?;
        i = i + 1;
    }
    let list = entries(payloads);
    let ghost keys = sorted_keys(payloads@);
    let mut i: usize = 0;
    while i < list.len()
        invariant
            i <= list@.len() == keys.len(),
            forall|i: int|
                #![trigger list@[i]]
                0 <= i < list@.len() ==> list@[i].0 == keys[i] && payloads@[keys[i]] == *list@[i].1,
            whole == insn_stream(instructions@, payloads@, insns_size),
            whole == stream_payloads(instructions@, payloads@, keys, i as nat, stream@),
        decreases list@.len() - i,
    {
        let entry: (u32, &PayloadData) = list[i];
        assert(list@[i as int].0 == keys[i as int]);
        let part = payload_part(instructions, entry.0, entry.1)?;
        put_in_stream(
            &mut stream,
            entry.0,
            part.as_slice(),
            "payload end offset overflowed usize",
            "payload would write past declared insns_size",
        )?;
        i = i + 1;
    }
    Ok(stream)
}

// Catch handlers

/// The first `n` typed catches.
pub open spec fn catches_bytes(catches: Seq<TypedCatch>, n: nat) -> Seq<u8>
    decreases n,
{
    if n == 0 {
        Seq::empty()
    } else {
        catches_bytes(catches, (n - 1) as nat) + uleb(
            catches[n - 1].exception_type.0 as nat,
        ) + uleb(catches[n - 1].handler_addr as nat)
    }
}

/// A catch handler: the number of typed catches, negated where a catch-all
/// follows; the typed catches; the catch-all.
pub open spec fn handler_written(h: CatchHandler) -> Written {
    let n = h.catches@.len();
    if n > i32::MAX {
        failed(
            DexEmitError::SizeOverflow {
                layer: "encoded_catch_handler",
                context: "typed-catch count exceeds i32",
            },
        )
    } else {
        match h.catch_all_addr {
            None => if n == 0 {
                unrepresentable(
                    "encoded_catch_handler: no typed catches AND no catch_all_addr (§7.17 — handler has no runtime effect)",
                )
            } else {
                done(sleb(n as int) + catches_bytes(h.catches@, n))
            },
            Some(addr) => done(sleb(-(n as int)) + catches_bytes(h.catches@, n) + uleb(
                addr as nat,
            )),
        }
    }
}

/// The bytes of the first `n` handlers.
pub open spec fn handlers_bytes(handlers: Seq<CatchHandler>, n: nat) -> Seq<u8>
    decreases n,
{
    if n == 0 {
        Seq::empty()
    } else {
        handlers_bytes(handlers, (n - 1) as nat) + handler_written(handlers[n - 1]).bytes
    }
}

/// The error of the first handler, from position `i` on, that has one.
pub open spec fn handlers_fault(handlers: Seq<CatchHandler>, i: nat) -> Option<DexEmitError>
    decreases handlers.len() - i,
{
    if i >= handlers.len() {
        None
    } else if handler_written(handlers[i as int]).fault is Some {
        handler_written(handlers[i as int]).fault
    } else {
        handlers_fault(handlers, i + 1)
    }
}

/// Where handler `i` starts within the handler list, which begins with a count.
pub open spec fn handler_start(handlers: Seq<CatchHandler>, i: nat) -> nat {
    uleb(handlers.len()).len() + handlers_bytes(handlers, i).len()
}

/// The first `n` try blocks.
pub open spec fn tries_bytes(tries: Seq<TryItem>, handlers: Seq<CatchHandler>, n: nat) -> Seq<u8>
    decreases n,
{
    if n == 0 {
        Seq::empty()
    } else {
        let t = tries[n - 1];
        tries_bytes(tries, handlers, (n - 1) as nat) + le32(t.start_addr) + le16(t.insn_count)
            + le16(handler_start(handlers, t.handler_idx as nat) as u16)
    }
}

/// A method body around an instruction stream.
pub open spec fn container(
    registers_size: u16,
    ins_size: u16,
    outs_size: u16,
    debug_info_off: u32,
    insns: Seq<u8>,
    tries: Seq<TryItem>,
    handlers: Seq<CatchHandler>,
) -> Result<Seq<u8>, DexEmitError> {
    if insns.len() % 2 != 0 {
        Err(
            DexEmitError::UnrepresentableIR {
                why: "code_item: insn_bytes must be a whole number of u16 code units (DEX §7.16)",
            },
        )
    } else if insns.len() / 2 > u32::MAX {
        Err(
            DexEmitError::SizeOverflow {
                layer: "code_item",
                context: "insns_size exceeds u32 (instruction stream > 8 GiB of code units)",
            },
        )
    } else if tries.len() > 0xFFFF {
        Err(
            DexEmitError::SizeOverflow {
                layer: "code_item",
                context: "tries_size exceeds u16 (DEX §7.16)",
            },
        )
    } else if tries.len() == 0 && handlers.len() > 0 {
        Err(
            DexEmitError::UnrepresentableIR {
                why: "code_item: catch_handlers non-empty but tries is empty — list is unreachable per §7.16",
            },
        )
    } else if exists|j: int| 0 <= j < tries.len() && (#[trigger] tries[j]).handler_idx
        >= handlers.len() {
        Err(
            DexEmitError::UnrepresentableIR {
                why: "code_item: try_item.handler_idx out of range for catch_handlers list",
            },
        )
    } else if tries.len() > 0 && handlers.len() > u32::MAX {
        Err(
            DexEmitError::SizeOverflow {
                layer: "code_item",
                context: "catch_handlers count exceeds u32",
            },
        )
    } else {
        match handlers_fault(handlers, 0) {
            Some(e) => Err(e),
            None => if exists|j: int|
                0 <= j < tries.len() && handler_start(
                    handlers,
                    (#[trigger] tries[j]).handler_idx as nat,
                ) > 0xFFFF {
                Err(
                    DexEmitError::OffsetOverflow {
                        section: "code_item",
                        context: "try_item.handler_off exceeds u16 (catch-handler list > 64 KiB)",
                    },
                )
            } else {
                Ok(
                    container_head(
                        registers_size,
                        ins_size,
                        outs_size,
                        tries.len() as u16,
                        debug_info_off,
                        (insns.len() / 2) as u32,
                    ) + insns + container_tail(insns.len() / 2, tries, handlers),
                )
            },
        }
    }
}

/// The fixed fields at the start of a method body.
pub open spec fn container_head(
    registers_size: u16,
    ins_size: u16,
    outs_size: u16,
    tries_size: u16,
    debug_info_off: u32,
    insns_size: u32,
) -> Seq<u8> {
    le16(registers_size) + le16(ins_size) + le16(outs_size) + le16(tries_size) + le32(
        debug_info_off,
    ) + le32(insns_size)
}

/// What follows the instructions: nothing without try blocks; otherwise two zero
/// bytes after an odd number of code units, the try blocks, the handler list.
pub open spec fn container_tail(
    units: nat,
    tries: Seq<TryItem>,
    handlers: Seq<CatchHandler>,
) -> Seq<u8> {
    if tries.len() == 0 {
        Seq::empty()
    } else {
        zeros(if units % 2 == 1 { 2 } else { 0 }) + tries_bytes(tries, handlers, tries.len())
            + uleb(handlers.len()) + handlers_bytes(handlers, handlers.len())
    }
}

fn emit_encoded_catch_handler(out: &mut Vec<u8>, h: &CatchHandler) -> (r: Result<(), DexEmitError>)
    ensures
        handler_written(*h).appends(old(out)@, final(out)@, r),
{
    if h.catches.len() > i32::MAX as usize {
        assert(out@ =~= old(out)@ + Seq::<u8>::empty());
        return Err(
            DexEmitError::SizeOverflow {
                layer: "encoded_catch_handler",
                context: "typed-catch count exceeds i32",
            },
        );
    }
    let typed_count: i32 = h.catches.len() as i32;
    match h.catch_all_addr {
        None => {
            if typed_count == 0 {
                assert(out@ =~= old(out)@ + Seq::<u8>::empty());
                return Err(
                    DexEmitError::UnrepresentableIR {
                        why: "encoded_catch_handler: no typed catches AND no catch_all_addr (§7.17 — handler has no runtime effect)",
                    },
                );
            }
            write_sleb128(out, typed_count);
        },
        Some(_) => {
            write_sleb128(out, -typed_count);
        },
    }
    let ghost head = out@;
    let mut i: usize = 0;
    while i < h.catches.len()
        invariant
            i <= h.catches@.len(),
            out@ =~= head + catches_bytes(h.catches@, i as nat),
        decreases h.catches@.len() - i,
    {
        let c: TypedCatch = h.catches[i];
        write_uleb128(out, c.exception_type.0);
        write_uleb128(out, c.handler_addr);
        i = i + 1;
    }
    match h.catch_all_addr {
        None => {},
        Some(addr) => {
            write_uleb128(out, addr);
        },
    }
    assert(out@ =~= old(out)@ + handler_written(*h).bytes);
    Ok(())
}

/// The handler list, and where each handler starts in it.
fn handler_list(catch_handlers: &[CatchHandler]) -> (r: Result<(Vec<u8>, Vec<usize>), DexEmitError>)
    requires
        catch_handlers@.len() <= u32::MAX,
    ensures
        match handlers_fault(catch_handlers@, 0) {
            Some(e) => r == Err::<(Vec<u8>, Vec<usize>), DexEmitError>(e),
            None => r matches Ok(v) && v.0@ == uleb(catch_handlers@.len()) + handlers_bytes(
                catch_handlers@,
                catch_handlers@.len(),
            ) && v.1@.len() == catch_handlers@.len() && forall|i: int|
                0 <= i < v.1@.len() ==> #[trigger] v.1@[i] == handler_start(
                    catch_handlers@,
                    i as nat,
                ),
        },
{
    let mut blob: Vec<u8> = Vec::new();
    let mut starts: Vec<usize> = Vec::new();
    write_uleb128(&mut blob, catch_handlers.len() as u32);
    let mut i: usize = 0;
    while i < catch_handlers.len()
        invariant
            i <= catch_handlers@.len() <= u32::MAX,
            handlers_fault(catch_handlers@, 0) == handlers_fault(catch_handlers@, i as nat),
            blob@ =~= uleb(catch_handlers@.len()) + handlers_bytes(catch_handlers@, i as nat),
            starts@.len() == i,
            forall|j: int|
                0 <= j < i ==> #[trigger] starts@[j] == handler_start(catch_handlers@, j as nat),
        decreases catch_handlers@.len() - i,
    {
        starts.push(blob.len());
        emit_encoded_catch_handler(&mut blob, &catch_handlers[i])?;
        i = i + 1;
    }
    Ok((blob, starts))
}

/// A method body around an instruction stream given as bytes.
pub fn emit_code_item_container(
    registers_size: u16,
    ins_size: u16,
    outs_size: u16,
    debug_info_off: u32,
    insn_bytes: &[u8],
    tries: &[TryItem],
    catch_handlers: &[CatchHandler],
) -> (r: Result<Vec<u8>, DexEmitError>)
    ensures
        gives(
            r,
            container(
                registers_size,
                ins_size,
                outs_size,
                debug_info_off,
                insn_bytes@,
                tries@,
                catch_handlers@,
            ),
        ),
{
    if insn_bytes.len() % 2 != 0 {
        return Err(
            DexEmitError::UnrepresentableIR {
                why: "code_item: insn_bytes must be a whole number of u16 code units (DEX §7.16)",
            },
        );
    }
    let units: usize = insn_bytes.len() / 2;
    if units > u32::MAX as usize {
        return Err(
            DexEmitError::SizeOverflow {
                layer: "code_item",
                context: "insns_size exceeds u32 (instruction stream > 8 GiB of code units)",
            },
        );
    }
    if tries.len() > 0xFFFF {
        return Err(
            DexEmitError::SizeOverflow {
                layer: "code_item",
                context: "tries_size exceeds u16 (DEX §7.16)",
            },
        );
    }
    if tries.len() == 0 && catch_handlers.len() > 0 {
        return Err(
            DexEmitError::UnrepresentableIR {
                why: "code_item: catch_handlers non-empty but tries is empty — list is unreachable per §7.16",
            },
        );
    }
    let mut i: usize = 0;
    while i < tries.len()
        invariant
            i <= tries@.len() <= 0xFFFF,
            insn_bytes@.len() % 2 == 0,
            insn_bytes@.len() / 2 <= u32::MAX,
            !(tries@.len() == 0 && catch_handlers@.len() > 0),
            forall|j: int| 0 <= j < i ==> (#[trigger] tries@[j]).handler_idx < catch_handlers@.len(),
        decreases tries@.len() - i,
    {
        if tries[i].handler_idx >= catch_handlers.len() {
            return Err(
                DexEmitError::UnrepresentableIR {
                    why: "code_item: try_item.handler_idx out of range for catch_handlers list",
                },
            );
        }
        i = i + 1;
    }
    let mut out: Vec<u8> = Vec::new();
    push_u16(&mut out, registers_size);
    push_u16(&mut out, ins_size);
    push_u16(&mut out, outs_size);
    push_u16(&mut out, tries.len() as u16);
    push_u32(&mut out, debug_info_off);
    push_u32(&mut out, units as u32);
    out.extend_from_slice(insn_bytes);
    let ghost head = container_head(
        registers_size,
        ins_size,
        outs_size,
        tries@.len() as u16,
        debug_info_off,
        units as u32,
    );
    assert(out@ =~= head + insn_bytes@);
    if tries.len() == 0 {
        assert(out@ =~= head + insn_bytes@ + Seq::<u8>::empty());
        return Ok(out);
    }
    if catch_handlers.len() > u32::MAX as usize {
        return Err(
            DexEmitError::SizeOverflow {
                layer: "code_item",
                context: "catch_handlers count exceeds u32",
            },
        );
    }
    let (blob, starts) = handler_list(catch_handlers)?;
    if units % 2 == 1 {
        push_zeros(&mut out, 2);
    }
    let ghost padded = head + insn_bytes@ + zeros(
        if (units as nat) % 2 == 1 {
            2nat
        } else {
            0
        },
    );
    assert(out@ =~= padded);
    let mut i: usize = 0;
    while i < tries.len()
        invariant
            i <= tries@.len() <= 0xFFFF,
            insn_bytes@.len() % 2 == 0,
            insn_bytes@.len() / 2 <= u32::MAX,
            0 < catch_handlers@.len() <= u32::MAX,
            handlers_fault(catch_handlers@, 0) is None,
            forall|j: int|
                0 <= j < tries@.len() ==> (#[trigger] tries@[j]).handler_idx < catch_handlers@.len(),
            starts@.len() == catch_handlers@.len(),
            forall|j: int|
                0 <= j < starts@.len() ==> #[trigger] starts@[j] == handler_start(
                    catch_handlers@,
                    j as nat,
                ),
            forall|j: int|
                0 <= j < i ==> handler_start(
                    catch_handlers@,
                    (#[trigger] tries@[j]).handler_idx as nat,
                ) <= 0xFFFF,
            out@ =~= padded + tries_bytes(tries@, catch_handlers@, i as nat),
        decreases tries@.len() - i,
    {
        let t: TryItem = tries[i];
        let off: usize = starts[t.handler_idx];
        if off > 0xFFFF {
            return Err(
                DexEmitError::OffsetOverflow {
                    section: "code_item",
                    context: "try_item.handler_off exceeds u16 (catch-handler list > 64 KiB)",
                },
            );
        }
        push_u32(&mut out, t.start_addr);
        push_u16(&mut out, t.insn_count);
        push_u16(&mut out, off as u16);
        i = i + 1;
    }
    out.extend_from_slice(blob.as_slice());
    assert(out@ =~= head + insn_bytes@ + container_tail(units as nat, tries@, catch_handlers@));
    Ok(out)
}

/// The bytes of a method body; its debug-info offset is `debug_info_off`.
pub open spec fn code_item(ci: CodeItem, debug_info_off: u32) -> Result<Seq<u8>, DexEmitError> {
    match insns_extent(ci.instructions@, ci.payloads@) {
        Err(e) => Err(e),
        Ok(size) => match insn_stream(ci.instructions@, ci.payloads@, size) {
            Err(e) => Err(e),
            Ok(stream) => container(
                ci.registers_size,
                ci.ins_size,
                ci.outs_size,
                debug_info_off,
                stream,
                ci.tries@,
                ci.catch_handlers@,
            ),
        },
    }
}

/// The bytes of a method body with its debug-info offset left zero.
pub fn emit_code_item(ci: &CodeItem) -> (r: Result<Vec<u8>, DexEmitError>)
    ensures
        gives(r, code_item(*ci, 0)),
{
    let insns_size: u32 = compute_insns_size(ci.instructions.as_slice(), &ci.payloads)?;
    let insn_bytes = assemble_insn_stream(ci.instructions.as_slice(), &ci.payloads, insns_size)?;
    emit_code_item_container(
        ci.registers_size,
        ci.ins_size,
        ci.outs_size,
        0,
        insn_bytes.as_slice(),
        ci.tries.as_slice(),
        ci.catch_handlers.as_slice(),
    )
}

} // verus!
