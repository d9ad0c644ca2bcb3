//! What a method body owes its readers: its fields read back, every instruction and
//! payload stands at its address, and every try names its handler.
use vstd::prelude::*;

use crate::bytes::{le16, le32, overlay, read_le16, read_le32, zeros};
use crate::collections::{sorted_keys, sorted_keys_list};
use crate::decode::{CatchHandler, Instruction, PayloadData, TryItem, TypedCatch};
use crate::emit_dex::code_item::{
    byte_span, catches_bytes, container, container_head, container_tail, handler_start,
    handler_written, handlers_bytes, handlers_fault, insn_stream, insns_end, insns_extent,
    payload_units, payloads_end, placed_payload, sat32, stream_insns, stream_payloads, tries_bytes,
};
use crate::emit_dex::instruction::{insn_units, unit_bytes};
use crate::emit_dex::laws::place::{
    apart, half_in, holding_is_transitive, holds_at, in_front, in_rest, overlay_apart,
    overlay_holds, word_in,
};
use crate::leb128::{sleb, sleb_read, sleb_reads_back, uleb, uleb_read, uleb_reads_back};

verus! {

// The container

/// Where the tries of a body with `units` code units start.
pub open spec fn tries_start(units: nat) -> int {
    16 + 2 * units + if units % 2 == 1 {
        2int
    } else {
        0
    }
}

proof fn lemma_head(
    registers_size: u16,
    ins_size: u16,
    outs_size: u16,
    tries_size: u16,
    debug_info_off: u32,
    insns_size: u32,
    rest: Seq<u8>,
)
    ensures
        ({
            let head = container_head(
                registers_size,
                ins_size,
                outs_size,
                tries_size,
                debug_info_off,
                insns_size,
            );
            let b = head + rest;
            &&& head.len() == 16
            &&& read_le16(b, 0) == registers_size
            &&& read_le16(b, 2) == ins_size
            &&& read_le16(b, 4) == outs_size
            &&& read_le16(b, 6) == tries_size
            &&& read_le32(b, 8) == debug_info_off
            &&& read_le32(b, 12) == insns_size
        }),
{
    let head = container_head(
        registers_size,
        ins_size,
        outs_size,
        tries_size,
        debug_info_off,
        insns_size,
    );
    in_front(head, rest);
    assert(head.subrange(0, 2) =~= le16(registers_size));
    assert(head.subrange(2, 4) =~= le16(ins_size));
    assert(head.subrange(4, 6) =~= le16(outs_size));
    assert(head.subrange(6, 8) =~= le16(tries_size));
    assert(head.subrange(8, 12) =~= le32(debug_info_off));
    assert(head.subrange(12, 16) =~= le32(insns_size));
    half_in(head + rest, 0, head, 0, registers_size);
    half_in(head + rest, 0, head, 2, ins_size);
    half_in(head + rest, 0, head, 4, outs_size);
    half_in(head + rest, 0, head, 6, tries_size);
    word_in(head + rest, 0, head, 8, debug_info_off);
    word_in(head + rest, 0, head, 12, insns_size);
}

/// The fields of a method body read back, and its instructions stand behind them.
pub proof fn container_fields_read_back(
    registers_size: u16,
    ins_size: u16,
    outs_size: u16,
    debug_info_off: u32,
    insns: Seq<u8>,
    tries: Seq<TryItem>,
    handlers: Seq<CatchHandler>,
)
    requires
        container(registers_size, ins_size, outs_size, debug_info_off, insns, tries, handlers) is Ok,
    ensures
        ({
            let b = container(
                registers_size,
                ins_size,
                outs_size,
                debug_info_off,
                insns,
                tries,
                handlers,
            )->Ok_0;
            &&& read_le16(b, 0) == registers_size
            &&& read_le16(b, 2) == ins_size
            &&& read_le16(b, 4) == outs_size
            &&& read_le16(b, 6) == tries.len()
            &&& read_le32(b, 8) == debug_info_off
            &&& 2 * read_le32(b, 12) == insns.len()
            &&& holds_at(b, 16, insns)
        }),
{
    let tail = container_tail(insns.len() / 2, tries, handlers);
    let head = container_head(
        registers_size,
        ins_size,
        outs_size,
        tries.len() as u16,
        debug_info_off,
        (insns.len() / 2) as u32,
    );
    lemma_head(
        registers_size,
        ins_size,
        outs_size,
        tries.len() as u16,
        debug_info_off,
        (insns.len() / 2) as u32,
        insns + tail,
    );
    assert(head + insns + tail =~= head + (insns + tail));
    in_front(insns, tail);
    in_rest(head, insns + tail, 0, insns);
}

proof fn lemma_tries_len(tries: Seq<TryItem>, handlers: Seq<CatchHandler>, n: nat)
    ensures
        tries_bytes(tries, handlers, n).len() == 8 * n,
    decreases n,
{
    if n > 0 {
        lemma_tries_len(tries, handlers, (n - 1) as nat);
    }
}

/// The eight bytes of a try.
pub open spec fn try_bytes(t: TryItem, handlers: Seq<CatchHandler>) -> Seq<u8> {
    le32(t.start_addr) + le16(t.insn_count) + le16(
        handler_start(handlers, t.handler_idx as nat) as u16,
    )
}

proof fn lemma_try_at(tries: Seq<TryItem>, handlers: Seq<CatchHandler>, n: nat, j: int)
    requires
        0 <= j < n <= tries.len(),
    ensures
        holds_at(tries_bytes(tries, handlers, n), 8 * j, try_bytes(tries[j], handlers)),
    decreases n,
{
    let before = tries_bytes(tries, handlers, (n - 1) as nat);
    let last = try_bytes(tries[n - 1], handlers);
    lemma_tries_len(tries, handlers, (n - 1) as nat);
    assert(tries_bytes(tries, handlers, n) =~= before + last);
    if j < n - 1 {
        lemma_try_at(tries, handlers, (n - 1) as nat, j);
        in_front(before, last);
        holding_is_transitive(before + last, 0, before, 8 * j, try_bytes(tries[j], handlers));
    } else {
        in_front(last, Seq::empty());
        assert(last + Seq::<u8>::empty() =~= last);
        in_rest(before, last, 0, last);
    }
}

proof fn lemma_handler_at(handlers: Seq<CatchHandler>, n: nat, k: int)
    requires
        0 <= k < n <= handlers.len(),
    ensures
        holds_at(
            handlers_bytes(handlers, n),
            handlers_bytes(handlers, k as nat).len() as int,
            handler_written(handlers[k]).bytes,
        ),
    decreases n,
{
    let before = handlers_bytes(handlers, (n - 1) as nat);
    let last = handler_written(handlers[n - 1]).bytes;
    if k < n - 1 {
        lemma_handler_at(handlers, (n - 1) as nat, k);
        in_front(before, last);
        holding_is_transitive(
            before + last,
            0,
            before,
            handlers_bytes(handlers, k as nat).len() as int,
            handler_written(handlers[k]).bytes,
        );
    } else {
        in_front(last, Seq::empty());
        assert(last + Seq::<u8>::empty() =~= last);
        in_rest(before, last, 0, last);
    }
}

proof fn lemma_tail_parts(units: nat, tries: Seq<TryItem>, handlers: Seq<CatchHandler>)
    requires
        tries.len() > 0,
    ensures
        ({
            let tail = container_tail(units, tries, handlers);
            let list = uleb(handlers.len()) + handlers_bytes(handlers, handlers.len());
            let pad = tries_start(units) - 16 - 2 * units;
            &&& holds_at(tail, pad, tries_bytes(tries, handlers, tries.len()))
            &&& holds_at(tail, pad + 8 * tries.len(), list)
        }),
{
    let pad = zeros(if units % 2 == 1 { 2 } else { 0 });
    let body = tries_bytes(tries, handlers, tries.len());
    let list = uleb(handlers.len()) + handlers_bytes(handlers, handlers.len());
    let tail = container_tail(units, tries, handlers);
    lemma_tries_len(tries, handlers, tries.len());
    assert(tail =~= pad + (body + list));
    in_front(body, list);
    in_rest(pad, body + list, 0, body);
    in_front(list, Seq::empty());
    assert(list + Seq::<u8>::empty() =~= list);
    in_rest(body, list, 0, list);
    in_rest(pad, body + list, body.len() as int, list);
}

/// Every try reads back, and the offset it gives is where its handler stands in the
/// handler list behind the tries.
pub proof fn tries_name_their_handlers(
    registers_size: u16,
    ins_size: u16,
    outs_size: u16,
    debug_info_off: u32,
    insns: Seq<u8>,
    tries: Seq<TryItem>,
    handlers: Seq<CatchHandler>,
    j: int,
)
    requires
        container(registers_size, ins_size, outs_size, debug_info_off, insns, tries, handlers) is Ok,
        0 <= j < tries.len(),
    ensures
        ({
            let b = container(
                registers_size,
                ins_size,
                outs_size,
                debug_info_off,
                insns,
                tries,
                handlers,
            )->Ok_0;
            let at = tries_start(insns.len() / 2) + 8 * j;
            let list = tries_start(insns.len() / 2) + 8 * tries.len();
            let t = tries[j];
            &&& read_le32(b, at) == t.start_addr
            &&& read_le16(b, at + 4) == t.insn_count
            &&& t.handler_idx < handlers.len()
            &&& handler_written(handlers[t.handler_idx as int]).fault is None
            &&& holds_at(
                b,
                list + read_le16(b, at + 6),
                handler_written(handlers[t.handler_idx as int]).bytes,
            )
        }),
{
    let units = insns.len() / 2;
    let head = container_head(
        registers_size,
        ins_size,
        outs_size,
        tries.len() as u16,
        debug_info_off,
        units as u32,
    );
    assert(head.len() == 16);
    let tail = container_tail(units, tries, handlers);
    let b = head + insns + tail;
    let t = tries[j];
    let k = t.handler_idx as int;
    assert(t.handler_idx < handlers.len());
    assert(handler_start(handlers, t.handler_idx as nat) <= 0xFFFF);
    lemma_no_fault(handlers, 0, k);
    let front = (head + insns).len() as int;
    lemma_tail_parts(units, tries, handlers);
    lemma_try_at(tries, handlers, tries.len(), j);
    let item = try_bytes(t, handlers);
    let pad = tries_start(units) - 16 - 2 * units;
    holding_is_transitive(tail, pad, tries_bytes(tries, handlers, tries.len()), 8 * j, item);
    in_rest(head + insns, tail, pad + 8 * j, item);
    let at = tries_start(units) + 8 * j;
    assert(front + pad + 8 * j == at);
    assert(item.subrange(0, 4) =~= le32(t.start_addr));
    assert(item.subrange(4, 6) =~= le16(t.insn_count));
    assert(item.subrange(6, 8) =~= le16(handler_start(handlers, t.handler_idx as nat) as u16));
    word_in(b, at, item, 0, t.start_addr);
    half_in(b, at, item, 4, t.insn_count);
    half_in(b, at, item, 6, handler_start(handlers, t.handler_idx as nat) as u16);
    let list = uleb(handlers.len()) + handlers_bytes(handlers, handlers.len());
    let h = handler_written(handlers[k]).bytes;
    lemma_handler_at(handlers, handlers.len(), k);
    in_rest(
        uleb(handlers.len()),
        handlers_bytes(handlers, handlers.len()),
        handlers_bytes(handlers, k as nat).len() as int,
        h,
    );
    holding_is_transitive(
        tail,
        pad + 8 * tries.len(),
        list,
        handler_start(handlers, k as nat) as int,
        h,
    );
    in_rest(
        head + insns,
        tail,
        pad + 8 * tries.len() + handler_start(handlers, k as nat),
        h,
    );
}

proof fn lemma_no_fault(handlers: Seq<CatchHandler>, i: nat, k: int)
    requires
        handlers_fault(handlers, i) is None,
        i <= k < handlers.len(),
    ensures
        handler_written(handlers[k]).fault is None,
    decreases handlers.len() - i,
{
    if i < k {
        lemma_no_fault(handlers, i + 1, k);
    }
}

/// The debug-info offset is one word of a method body: writing it later is the same
/// as knowing it from the start.
pub proof fn debug_offset_is_one_word(
    registers_size: u16,
    ins_size: u16,
    outs_size: u16,
    debug_info_off: u32,
    insns: Seq<u8>,
    tries: Seq<TryItem>,
    handlers: Seq<CatchHandler>,
)
    requires
        container(registers_size, ins_size, outs_size, 0, insns, tries, handlers) is Ok,
    ensures
        container(registers_size, ins_size, outs_size, debug_info_off, insns, tries, handlers) == Ok::<
            Seq<u8>,
            crate::emit_dex::error::DexEmitError,
        >(
            overlay(
                container(registers_size, ins_size, outs_size, 0, insns, tries, handlers)->Ok_0,
                8,
                le32(debug_info_off),
            ),
        ),
{
    let units = (insns.len() / 2) as u32;
    let n = tries.len() as u16;
    let rest = insns + container_tail(insns.len() / 2, tries, handlers);
    let zero = container_head(registers_size, ins_size, outs_size, n, 0, units);
    let full = container_head(registers_size, ins_size, outs_size, n, debug_info_off, units);
    assert(overlay(zero, 8, le32(debug_info_off)) =~= full);
    assert(zero + insns + container_tail(insns.len() / 2, tries, handlers) =~= zero + rest);
    assert(full + insns + container_tail(insns.len() / 2, tries, handlers) =~= full + rest);
    assert(overlay(zero + rest, 8, le32(debug_info_off)) =~= overlay(zero, 8, le32(debug_info_off))
        + rest);
}

// Catch handlers

/// The typed catches that start `s`: their types and addresses, and what follows.
pub open spec fn catches_read(s: Seq<u8>, n: nat) -> Option<(Seq<(nat, nat)>, Seq<u8>)>
    decreases n,
{
    if n == 0 {
        Some((Seq::empty(), s))
    } else {
        match uleb_read(s) {
            None => None,
            Some((ty, a)) => match uleb_read(s.skip(a as int)) {
                None => None,
                Some((addr, b)) => match catches_read(s.skip(a as int).skip(b as int), (n - 1) as nat) {
                    None => None,
                    Some((more, rest)) => Some((seq![(ty, addr)] + more, rest)),
                },
            },
        }
    }
}

/// The types and addresses of typed catches.
pub open spec fn catch_pairs(catches: Seq<TypedCatch>) -> Seq<(nat, nat)> {
    Seq::new(
        catches.len(),
        |i: int| (catches[i].exception_type.0 as nat, catches[i].handler_addr as nat),
    )
}

proof fn lemma_catches_front(catches: Seq<TypedCatch>, n: nat)
    requires
        1 <= n <= catches.len(),
    ensures
        catches_bytes(catches, n) == uleb(catches[0].exception_type.0 as nat) + uleb(
            catches[0].handler_addr as nat,
        ) + catches_bytes(catches.skip(1), (n - 1) as nat),
    decreases n,
{
    let first = uleb(catches[0].exception_type.0 as nat) + uleb(catches[0].handler_addr as nat);
    if n > 1 {
        lemma_catches_front(catches, (n - 1) as nat);
        let last = catches[n - 1];
        assert(catches.skip(1)[n - 2] == last);
        assert(catches_bytes(catches, n) =~= first + catches_bytes(catches.skip(1), (n - 1) as nat));
    } else {
        assert(catches_bytes(catches, 0) =~= Seq::empty());
        assert(catches_bytes(catches.skip(1), 0) =~= Seq::empty());
        assert(catches_bytes(catches, 1) =~= first);
    }
}

proof fn lemma_catches_read(catches: Seq<TypedCatch>, rest: Seq<u8>)
    ensures
        catches_read(catches_bytes(catches, catches.len()) + rest, catches.len()) == Some(
            (catch_pairs(catches), rest),
        ),
    decreases catches.len(),
{
    let n = catches.len();
    if n == 0 {
        assert(catches_bytes(catches, 0) + rest =~= rest);
        assert(catch_pairs(catches) =~= Seq::empty());
    } else {
        let ty = catches[0].exception_type.0 as nat;
        let addr = catches[0].handler_addr as nat;
        let more = catches.skip(1);
        let s = catches_bytes(catches, n) + rest;
        let after = catches_bytes(more, more.len()) + rest;
        lemma_catches_front(catches, n);
        assert(s =~= uleb(ty) + (uleb(addr) + after));
        uleb_reads_back(ty, uleb(addr) + after);
        assert(s.skip(uleb(ty).len() as int) =~= uleb(addr) + after);
        uleb_reads_back(addr, after);
        assert((uleb(addr) + after).skip(uleb(addr).len() as int) =~= after);
        lemma_catches_read(more, rest);
        assert(seq![(ty, addr)] + catch_pairs(more) =~= catch_pairs(catches));
    }
}

/// The handler that starts `s`: its typed catches, and the address of its catch-all
/// where it has one.
pub open spec fn handler_read(s: Seq<u8>) -> Option<(Seq<(nat, nat)>, Option<nat>)> {
    match sleb_read(s) {
        None => None,
        Some((size, a)) => match catches_read(
            s.skip(a as int),
            if size < 0 {
                (-size) as nat
            } else {
                size as nat
            },
        ) {
            None => None,
            Some((catches, rest)) => if size > 0 {
                Some((catches, None))
            } else {
                match uleb_read(rest) {
                    None => None,
                    Some((addr, _)) => Some((catches, Some(addr))),
                }
            },
        },
    }
}

/// A handler reads back: its typed catches in order, and whether it has a catch-all
/// and where.
pub proof fn handlers_read_back(h: CatchHandler, rest: Seq<u8>)
    requires
        handler_written(h).fault is None,
    ensures
        handler_read(handler_written(h).bytes + rest) == Some(
            (
                catch_pairs(h.catches@),
                match h.catch_all_addr {
                    Some(addr) => Some(addr as nat),
                    None => None,
                },
            ),
        ),
{
    let n = h.catches@.len();
    let list = catches_bytes(h.catches@, n);
    let s = handler_written(h).bytes + rest;
    match h.catch_all_addr {
        None => {
            assert(s =~= sleb(n as int) + (list + rest));
            sleb_reads_back(n as int, list + rest);
            assert(s.skip(sleb(n as int).len() as int) =~= list + rest);
            lemma_catches_read(h.catches@, rest);
        },
        Some(addr) => {
            let tail = uleb(addr as nat) + rest;
            assert(s =~= sleb(-(n as int)) + (list + tail));
            sleb_reads_back(-(n as int), list + tail);
            assert(s.skip(sleb(-(n as int)).len() as int) =~= list + tail);
            lemma_catches_read(h.catches@, tail);
            uleb_reads_back(addr as nat, rest);
        },
    }
}

// The instruction stream

proof fn lemma_insns_end(insns: Seq<Instruction>, i: nat, acc: u32, j: int)
    ensures
        acc <= insns_end(insns, i, acc),
        i <= j < insns.len() ==> sat32(insns[j].addr + insns[j].size) <= insns_end(insns, i, acc),
    decreases insns.len() - i,
{
    if i < insns.len() {
        let end = sat32(insns[i as int].addr + insns[i as int].size);
        lemma_insns_end(
            insns,
            i + 1,
            if end > acc {
                end
            } else {
                acc
            },
            j,
        );
    }
}

proof fn lemma_payloads_end(m: Map<u32, PayloadData>, keys: Seq<u32>, i: nat, acc: u32, j: int)
    requires
        payloads_end(m, keys, i, acc) is Ok,
        i <= keys.len(),
    ensures
        acc <= payloads_end(m, keys, i, acc)->Ok_0,
        i <= j < keys.len() ==> payload_units(m[keys[j]]) is Ok && sat32(
            keys[j] + payload_units(m[keys[j]])->Ok_0,
        ) <= payloads_end(m, keys, i, acc)->Ok_0,
    decreases keys.len() - i,
{
    if i < keys.len() {
        let end = sat32(keys[i as int] + payload_units(m[keys[i as int]])->Ok_0);
        lemma_payloads_end(
            m,
            keys,
            i + 1,
            if end > acc {
                end
            } else {
                acc
            },
            j,
        );
    }
}

/// The extent of a body reaches to the end of every instruction.
pub proof fn extent_covers_instructions(
    insns: Seq<Instruction>,
    payloads: Map<u32, PayloadData>,
    j: int,
)
    requires
        insns_extent(insns, payloads) is Ok,
        0 <= j < insns.len(),
    ensures
        sat32(insns[j].addr + insns[j].size) <= insns_extent(insns, payloads)->Ok_0,
{
    lemma_insns_end(insns, 0, 0, j);
    lemma_payloads_end(payloads, sorted_keys(payloads), 0, insns_end(insns, 0, 0), 0);
}

/// The extent of a body reaches to the end of every payload.
pub proof fn extent_covers_payloads(
    insns: Seq<Instruction>,
    payloads: Map<u32, PayloadData>,
    key: u32,
)
    requires
        insns_extent(insns, payloads) is Ok,
        payloads.contains_key(key),
    ensures
        payload_units(payloads[key]) is Ok,
        sat32(key + payload_units(payloads[key])->Ok_0) <= insns_extent(insns, payloads)->Ok_0,
{
    let keys = sorted_keys(payloads);
    sorted_keys_list(payloads);
    assert(keys.contains(key));
    let j = choose|j: int| 0 <= j < keys.len() && keys[j] == key;
    lemma_payloads_end(payloads, keys, 0, insns_end(insns, 0, 0), j);
}

/// No instruction from position `from` on is written over the `n` bytes at `at`.
pub open spec fn insns_apart(insns: Seq<Instruction>, from: int, at: int, n: nat) -> bool {
    forall|k: int|
        #![trigger insns[k]]
        from <= k < insns.len() && insn_units(insns[k]) is Ok ==> apart(
            byte_span(insns[k].addr) as int,
            unit_bytes(insn_units(insns[k])->Ok_0).len(),
            at,
            n,
        )
}

/// No payload after `after` is written over the `n` bytes at `at`.
pub open spec fn payloads_apart(
    insns: Seq<Instruction>,
    m: Map<u32, PayloadData>,
    after: int,
    at: int,
    n: nat,
) -> bool {
    forall|key: u32|
        #![trigger m.contains_key(key)]
        m.contains_key(key) && key > after && placed_payload(insns, key, m[key]) is Ok ==> apart(
            byte_span(key) as int,
            placed_payload(insns, key, m[key])->Ok_0.len(),
            at,
            n,
        )
}

proof fn lemma_insns_keep(
    insns: Seq<Instruction>,
    i: nat,
    stream: Seq<u8>,
    at: int,
    part: Seq<u8>,
)
    requires
        stream_insns(insns, i, stream) is Ok,
        holds_at(stream, at, part),
        insns_apart(insns, i as int, at, part.len()),
    ensures
        holds_at(stream_insns(insns, i, stream)->Ok_0, at, part),
    decreases insns.len() - i,
{
    if i < insns.len() {
        let bytes = unit_bytes(insn_units(insns[i as int])->Ok_0);
        let to = byte_span(insns[i as int].addr) as int;
        overlay_apart(stream, to, bytes, at, part);
        lemma_insns_keep(insns, i + 1, overlay(stream, to, bytes), at, part);
    }
}

proof fn lemma_payloads_keep(
    insns: Seq<Instruction>,
    m: Map<u32, PayloadData>,
    keys: Seq<u32>,
    i: nat,
    stream: Seq<u8>,
    after: int,
    at: int,
    part: Seq<u8>,
)
    requires
        stream_payloads(insns, m, keys, i, stream) is Ok,
        holds_at(stream, at, part),
        payloads_apart(insns, m, after, at, part.len()),
        forall|k: int| i <= k < keys.len() ==> m.contains_key(#[trigger] keys[k]) && keys[k] > after,
    ensures
        holds_at(stream_payloads(insns, m, keys, i, stream)->Ok_0, at, part),
    decreases keys.len() - i,
{
    if i < keys.len() {
        let key = keys[i as int];
        let bytes = placed_payload(insns, key, m[key])->Ok_0;
        let to = byte_span(key) as int;
        overlay_apart(stream, to, bytes, at, part);
        lemma_payloads_keep(insns, m, keys, i + 1, overlay(stream, to, bytes), after, at, part);
    }
}

proof fn lemma_insn_stands(insns: Seq<Instruction>, i: nat, stream: Seq<u8>, j: int)
    requires
        stream_insns(insns, i, stream) is Ok,
        i <= j < insns.len(),
        insn_units(insns[j]) is Ok ==> insns_apart(
            insns,
            j + 1,
            byte_span(insns[j].addr) as int,
            unit_bytes(insn_units(insns[j])->Ok_0).len(),
        ),
    ensures
        insn_units(insns[j]) is Ok,
        holds_at(
            stream_insns(insns, i, stream)->Ok_0,
            byte_span(insns[j].addr) as int,
            unit_bytes(insn_units(insns[j])->Ok_0),
        ),
    decreases j - i,
{
    let bytes = unit_bytes(insn_units(insns[i as int])->Ok_0);
    let to = byte_span(insns[i as int].addr) as int;
    let next = overlay(stream, to, bytes);
    if i < j {
        lemma_insn_stands(insns, i + 1, next, j);
    } else {
        overlay_holds(stream, to, bytes);
        lemma_insns_keep(insns, i + 1, next, to, bytes);
    }
}

/// Every instruction stands at its address in the stream, unless a later instruction
/// or a payload is written over it.
pub proof fn instructions_stand(
    insns: Seq<Instruction>,
    payloads: Map<u32, PayloadData>,
    insns_size: u32,
    j: int,
)
    requires
        insn_stream(insns, payloads, insns_size) is Ok,
        0 <= j < insns.len(),
        insn_units(insns[j]) matches Ok(units) ==> insns_apart(
            insns,
            j + 1,
            byte_span(insns[j].addr) as int,
            unit_bytes(units).len(),
        ) && payloads_apart(
            insns,
            payloads,
            -1,
            byte_span(insns[j].addr) as int,
            unit_bytes(units).len(),
        ),
    ensures
        insn_units(insns[j]) is Ok,
        holds_at(
            insn_stream(insns, payloads, insns_size)->Ok_0,
            byte_span(insns[j].addr) as int,
            unit_bytes(insn_units(insns[j])->Ok_0),
        ),
{
    let start = zeros(byte_span(insns_size));
    lemma_insn_stands(insns, 0, start, j);
    let keys = sorted_keys(payloads);
    sorted_keys_list(payloads);
    assert forall|k: int| 0 <= k < keys.len() implies payloads.contains_key(#[trigger] keys[k]) by {
        assert(keys.contains(keys[k]));
    }
    lemma_payloads_keep(
        insns,
        payloads,
        keys,
        0,
        stream_insns(insns, 0, start)->Ok_0,
        -1,
        byte_span(insns[j].addr) as int,
        unit_bytes(insn_units(insns[j])->Ok_0),
    );
}

proof fn lemma_payload_stands(
    insns: Seq<Instruction>,
    m: Map<u32, PayloadData>,
    keys: Seq<u32>,
    i: nat,
    stream: Seq<u8>,
    j: int,
)
    requires
        stream_payloads(insns, m, keys, i, stream) is Ok,
        i <= j < keys.len(),
        forall|k: int| j < k < keys.len() ==> m.contains_key(#[trigger] keys[k]) && keys[k] > keys[j],
        placed_payload(insns, keys[j], m[keys[j]]) matches Ok(part) ==> payloads_apart(
            insns,
            m,
            keys[j] as int,
            byte_span(keys[j]) as int,
            part.len(),
        ),
    ensures
        placed_payload(insns, keys[j], m[keys[j]]) is Ok,
        holds_at(
            stream_payloads(insns, m, keys, i, stream)->Ok_0,
            byte_span(keys[j]) as int,
            placed_payload(insns, keys[j], m[keys[j]])->Ok_0,
        ),
    decreases j - i,
{
    let key = keys[i as int];
    let bytes = placed_payload(insns, key, m[key])->Ok_0;
    let to = byte_span(key) as int;
    let next = overlay(stream, to, bytes);
    if i < j {
        lemma_payload_stands(insns, m, keys, i + 1, next, j);
    } else {
        overlay_holds(stream, to, bytes);
        lemma_payloads_keep(insns, m, keys, i + 1, next, key as int, to, bytes);
    }
}

/// Every payload stands at its address in the stream, unless a later payload is
/// written over it.
pub proof fn payloads_stand(
    insns: Seq<Instruction>,
    payloads: Map<u32, PayloadData>,
    insns_size: u32,
    key: u32,
)
    requires
        insn_stream(insns, payloads, insns_size) is Ok,
        payloads.contains_key(key),
        placed_payload(insns, key, payloads[key]) matches Ok(part) ==> payloads_apart(
            insns,
            payloads,
            key as int,
            byte_span(key) as int,
            part.len(),
        ),
    ensures
        placed_payload(insns, key, payloads[key]) is Ok,
        holds_at(
            insn_stream(insns, payloads, insns_size)->Ok_0,
            byte_span(key) as int,
            placed_payload(insns, key, payloads[key])->Ok_0,
        ),
{
    let start = stream_insns(insns, 0, zeros(byte_span(insns_size)))->Ok_0;
    let keys = sorted_keys(payloads);
    sorted_keys_list(payloads);
    assert(keys.contains(key));
    let j = choose|j: int| 0 <= j < keys.len() && keys[j] == key;
    assert forall|k: int| j < k < keys.len() implies payloads.contains_key(#[trigger] keys[k])
        && keys[k] > keys[j] by {
        assert(keys.contains(keys[k]));
    }
    lemma_payload_stands(insns, payloads, keys, 0, start, j);
}

} // verus!
