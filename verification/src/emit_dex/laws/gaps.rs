//! What lies between items: nothing but the zero bytes that align them or that were there.
use vstd::prelude::*;

use crate::annotation::{AnnotationItem, EncodedValue};
use crate::bytes::{overlay, zeros};
use crate::collections::{ascending, sorted_keys, sorted_keys_list};
use crate::decode::{ClassData, Instruction, PayloadData};
use crate::emit_dex::code_item::{
    byte_span, insn_stream, insns_end, insns_extent, payload_units, payloads_end, placed_payload,
    stream_insns, stream_payloads,
};
use crate::emit_dex::error::DexEmitError;
use crate::emit_dex::in_place::{behind, in_place, put_back};
use crate::emit_dex::instruction::{insn_units, unit_bytes};
use crate::emit_dex::laws::accepted::sections_are_accepted;
use crate::emit_dex::laws::changes::next_fourth;
use crate::emit_dex::laws::sections::{type_list_len, type_lists_are_aligned};
use crate::emit_dex::pools::{string_item, string_pool_placed, strings_placed, StringPool};
use crate::emit_dex::preserve::{all_written, filled, written_at};
use crate::emit_dex::sections::{
    annotation_item_parts, annotation_item_section, class_data_parts, class_data_section,
    debug_info_parts, debug_info_section, encoded_array_parts, encoded_array_section, laid_out,
    nothing, padded, section, section_overflow, type_list_part, type_list_parts, type_list_section,
    Section,
};
use crate::ids::TypeIdx;

verus! {

// Sections

/// Where an item can start at the earliest that comes after `end`.
pub open spec fn earliest(end: int, align: nat) -> int {
    if align == 4 {
        next_fourth(end)
    } else {
        end
    }
}

/// The first `n` items are put one after the other without room for another between them: the
/// first at the start, each other at the earliest place behind the one before, with zero bytes
/// between.
pub open spec fn packed_upto(
    keys: Seq<u32>,
    items: Seq<Result<Seq<u8>, DexEmitError>>,
    align: nat,
    n: int,
    s: Section,
) -> bool {
    &&& n == 0 ==> s.blob.len() == 0
    &&& n > 0 ==> s.remap[keys[0]] == 0 && s.blob.len() == s.remap[keys[n - 1]]
        + items[n - 1]->Ok_0.len()
    &&& forall|k: int|
        #![trigger keys[k]]
        0 < k < n ==> s.remap[keys[k]] == earliest(
            s.remap[keys[k - 1]] + items[k - 1]->Ok_0.len(),
            align,
        )
    &&& forall|k: int, i: int|
        #![trigger keys[k], s.blob[i]]
        0 < k < n && s.remap[keys[k - 1]] + items[k - 1]->Ok_0.len() <= i < s.remap[keys[k]]
            ==> s.blob[i] == 0
}

proof fn lemma_packed(
    keys: Seq<u32>,
    items: Seq<Result<Seq<u8>, DexEmitError>>,
    align: nat,
    over: DexEmitError,
    n: nat,
    acc: Section,
)
    requires
        ascending(keys),
        items.len() == keys.len(),
        n <= keys.len(),
        packed_upto(keys, items, align, n as int, acc),
        forall|k: int|
            #![trigger keys[k]]
            0 <= k < n ==> acc.remap[keys[k]] + items[k]->Ok_0.len() <= acc.blob.len(),
        laid_out(keys, items, align, over, n, acc) is Ok,
    ensures
        packed_upto(
            keys,
            items,
            align,
            keys.len() as int,
            laid_out(keys, items, align, over, n, acc)->Ok_0,
        ),
    decreases keys.len() - n,
{
    if n < keys.len() {
        let key = keys[n as int];
        let blob = padded(acc.blob, align);
        let part = items[n as int]->Ok_0;
        let now = Section { blob: blob + part, remap: acc.remap.insert(key, blob.len() as u32) };
        assert(blob.len() == earliest(acc.blob.len() as int, align));
        assert forall|k: int| #![trigger keys[k]] 0 <= k < n implies now.remap[keys[k]]
            == acc.remap[keys[k]] by {
            assert(keys[k] < keys[n as int]);
        }
        assert forall|k: int| #![trigger keys[k]] 0 < k < n + 1 implies now.remap[keys[k]]
            == earliest(now.remap[keys[k - 1]] + items[k - 1]->Ok_0.len(), align) by {
            let before = keys[k - 1];
        }
        assert forall|k: int, i: int|
            #![trigger keys[k], now.blob[i]]
            0 < k < n + 1 && now.remap[keys[k - 1]] + items[k - 1]->Ok_0.len() <= i
                < now.remap[keys[k]] implies now.blob[i] == 0 by {
            let before = keys[k - 1];
            if k < n {
                assert(now.remap[keys[k]] <= acc.blob.len());
                assert(acc.blob[i] == 0);
            }
        }
        assert forall|k: int| #![trigger keys[k]] 0 <= k < n + 1 implies now.remap[keys[k]]
            + items[k]->Ok_0.len() <= now.blob.len() by {}
        lemma_packed(keys, items, align, over, n + 1, now);
    }
}

/// The items of a section are put one after the other without room for another between them.
pub proof fn sections_are_packed(
    keys: Seq<u32>,
    items: Seq<Result<Seq<u8>, DexEmitError>>,
    align: nat,
    over: DexEmitError,
)
    requires
        ascending(keys),
        items.len() == keys.len(),
        section(keys, items, align, over) is Ok,
    ensures
        packed_upto(
            keys,
            items,
            align,
            keys.len() as int,
            section(keys, items, align, over)->Ok_0,
        ),
{
    lemma_packed(keys, items, align, over, 0, nothing());
}

/// Class members, debug info, annotations and encoded arrays need not be aligned: each starts
/// where the one before ends.
pub proof fn unaligned_items_touch(
    members: Map<u32, ClassData>,
    remap: Map<u32, u32>,
    base: u32,
    debug: Map<u32, Vec<u8>>,
    notes: Map<u32, AnnotationItem>,
    arrays: Map<u32, Vec<EncodedValue>>,
    widths: Option<Map<u32, Vec<u8>>>,
)
    ensures
        class_data_section(members, remap, base) matches Ok(s) ==> packed_upto(
            sorted_keys(members),
            class_data_parts(members, remap, base),
            1,
            sorted_keys(members).len() as int,
            s,
        ),
        debug_info_section(debug) matches Ok(s) ==> packed_upto(
            sorted_keys(debug),
            debug_info_parts(debug),
            1,
            sorted_keys(debug).len() as int,
            s,
        ),
        annotation_item_section(notes) matches Ok(s) ==> packed_upto(
            sorted_keys(notes),
            annotation_item_parts(notes),
            1,
            sorted_keys(notes).len() as int,
            s,
        ),
        encoded_array_section(arrays, widths) matches Ok(s) ==> packed_upto(
            sorted_keys(arrays),
            encoded_array_parts(arrays, widths),
            1,
            sorted_keys(arrays).len() as int,
            s,
        ),
{
    sorted_keys_list(members);
    sorted_keys_list(debug);
    sorted_keys_list(notes);
    sorted_keys_list(arrays);
    let a = class_data_section(members, remap, base);
    let b = debug_info_section(debug);
    let c = annotation_item_section(notes);
    let d = encoded_array_section(arrays, widths);
    if a is Ok {
        lemma_any(sorted_keys(members), class_data_parts(members, remap, base), a);
    }
    if b is Ok {
        lemma_any(sorted_keys(debug), debug_info_parts(debug), b);
    }
    if c is Ok {
        lemma_any(sorted_keys(notes), annotation_item_parts(notes), c);
    }
    if d is Ok {
        lemma_any(sorted_keys(arrays), encoded_array_parts(arrays, widths), d);
    }
}

proof fn lemma_any(
    keys: Seq<u32>,
    items: Seq<Result<Seq<u8>, DexEmitError>>,
    r: Result<Section, DexEmitError>,
)
    requires
        ascending(keys),
        items.len() == keys.len(),
        r is Ok,
        exists|over: DexEmitError| r == #[trigger] section(keys, items, 1, over),
    ensures
        packed_upto(keys, items, 1, keys.len() as int, r->Ok_0),
{
    let over = choose|over: DexEmitError| r == #[trigger] section(keys, items, 1, over);
    sections_are_packed(keys, items, 1, over);
}

/// A type list starts at the first multiple of four behind the one before it, which takes four
/// bytes and two for each of its types; nothing comes behind the last.
pub proof fn type_lists_follow_each_other(lists: Map<u32, Vec<TypeIdx>>, k: int)
    requires
        type_list_section(lists) is Ok,
        0 <= k < sorted_keys(lists).len(),
    ensures
        ({
            let keys = sorted_keys(lists);
            let s = type_list_section(lists)->Ok_0;
            let end = s.remap[keys[k]] + 4 + 2 * lists[keys[k]]@.len();
            &&& k == 0 ==> s.remap[keys[k]] == 0
            &&& k + 1 < keys.len() ==> s.remap[keys[k + 1]] == next_fourth(end)
            &&& k + 1 == keys.len() ==> s.blob.len() == end
        }),
{
    let keys = sorted_keys(lists);
    let items = type_list_parts(lists);
    let over = section_overflow("type_list_section", "type_list blob exceeds u32 byte offset");
    let idxs = lists[keys[k]]@;
    sorted_keys_list(lists);
    lemma_neighbours(keys, items, over, k);
    assert(lists.contains_key(keys[k])) by {
        assert(keys.contains(keys[k]));
    }
    type_lists_are_aligned(lists, keys[k]);
    assert(items[k] == type_list_part(idxs, k + 1 == keys.len()));
    lemma_list_part(idxs, k + 1 == keys.len());
}

proof fn lemma_list_part(idxs: Seq<TypeIdx>, last: bool)
    requires
        type_list_part(idxs, last) is Ok,
    ensures
        type_list_part(idxs, last)->Ok_0.len() == 4 + 2 * idxs.len() + if !last && idxs.len() % 2
            == 1 {
            2int
        } else {
            0int
        },
{
    type_list_len(idxs);
}

proof fn lemma_neighbours(
    keys: Seq<u32>,
    items: Seq<Result<Seq<u8>, DexEmitError>>,
    over: DexEmitError,
    k: int,
)
    requires
        ascending(keys),
        items.len() == keys.len(),
        section(keys, items, 1, over) is Ok,
        0 <= k < keys.len(),
    ensures
        ({
            let s = section(keys, items, 1, over)->Ok_0;
            &&& items[k] is Ok
            &&& k == 0 ==> s.remap[keys[k]] == 0
            &&& k + 1 < keys.len() ==> s.remap[keys[k + 1]] == s.remap[keys[k]]
                + items[k]->Ok_0.len()
            &&& k + 1 == keys.len() ==> s.blob.len() == s.remap[keys[k]] + items[k]->Ok_0.len()
        }),
{
    sections_are_packed(keys, items, 1, over);
    sections_are_accepted(keys, items, 1, over);
    if k + 1 < keys.len() {
        let next = keys[k + 1];
    }
}

// Items put back

/// Position `i` is in none of the items from `from` on that are put back into a section at
/// `base`.
pub open spec fn in_no_item(
    keys: Seq<u32>,
    items: Seq<Result<Seq<u8>, DexEmitError>>,
    base: u32,
    from: int,
    i: int,
) -> bool {
    forall|k: int|
        #![trigger keys[k]]
        from <= k < keys.len() ==> !(behind(keys[k], base) <= i < behind(keys[k], base)
            + items[k]->Ok_0.len())
}

proof fn lemma_put_back(
    keys: Seq<u32>,
    items: Seq<Result<Seq<u8>, DexEmitError>>,
    base: u32,
    overrun: &'static str,
    n: nat,
    acc: Section,
    i: int,
)
    requires
        items.len() == keys.len(),
        put_back(keys, items, base, overrun, n, acc) is Ok,
        in_no_item(keys, items, base, n as int, i),
        0 <= i < acc.blob.len(),
    ensures
        put_back(keys, items, base, overrun, n, acc)->Ok_0.blob.len() == acc.blob.len(),
        put_back(keys, items, base, overrun, n, acc)->Ok_0.blob[i] == acc.blob[i],
    decreases keys.len() - n,
{
    if n < keys.len() {
        let local = behind(keys[n as int], base);
        let part = items[n as int]->Ok_0;
        let now = Section {
            blob: overlay(acc.blob, local as int, part),
            remap: acc.remap.insert(keys[n as int], local),
        };
        assert(now.blob[i] == acc.blob[i]);
        lemma_put_back(keys, items, base, overrun, n + 1, now, i);
    }
}

/// In a section whose items are put back, bytes that belong to no item are zero.
pub proof fn other_bytes_are_zero(
    keys: Seq<u32>,
    items: Seq<Result<Seq<u8>, DexEmitError>>,
    base: u32,
    size: u32,
    overrun: &'static str,
    i: int,
)
    requires
        items.len() == keys.len(),
        in_place(keys, items, base, size, overrun) is Ok,
        in_no_item(keys, items, base, 0, i),
        0 <= i < size,
    ensures
        in_place(keys, items, base, size, overrun)->Ok_0.blob[i] == 0,
{
    lemma_put_back(
        keys,
        items,
        base,
        overrun,
        0,
        Section { blob: zeros(size as nat), remap: Map::empty() },
        i,
    );
}

proof fn lemma_strings_placed(
    strings: Seq<(u32, Seq<u8>)>,
    offs: Seq<u32>,
    base: u32,
    acc: StringPool,
    n: nat,
    i: int,
)
    requires
        strings.len() == offs.len(),
        strings_placed(strings, offs, base, acc, n) is Ok,
        0 <= i < acc.data.len(),
        forall|k: int|
            #![trigger offs[k]]
            n <= k < strings.len() ==> !(offs[k] - base <= i < offs[k] - base + string_item(
                strings[k].0,
                strings[k].1,
            ).len()),
    ensures
        strings_placed(strings, offs, base, acc, n)->Ok_0.data.len() == acc.data.len(),
        strings_placed(strings, offs, base, acc, n)->Ok_0.data[i] == acc.data[i],
    decreases strings.len() - n,
{
    if n < strings.len() {
        let off = offs[n as int];
        let item = string_item(strings[n as int].0, strings[n as int].1);
        let now = StringPool {
            ids: acc.ids + crate::bytes::le32(off),
            data: overlay(acc.data, off - base, item),
        };
        assert(now.data[i] == acc.data[i]);
        lemma_strings_placed(strings, offs, base, now, n + 1, i);
    }
}

/// Where the data of strings is put back, bytes that belong to no string are zero.
pub proof fn bytes_between_strings_are_zero(
    strings: Seq<(u32, Seq<u8>)>,
    offs: Seq<u32>,
    base: u32,
    size: u32,
    i: int,
)
    requires
        string_pool_placed(strings, offs, base, size) is Ok,
        0 <= i < size,
        forall|k: int|
            #![trigger offs[k]]
            0 <= k < strings.len() ==> !(offs[k] - base <= i < offs[k] - base + string_item(
                strings[k].0,
                strings[k].1,
            ).len()),
    ensures
        string_pool_placed(strings, offs, base, size)->Ok_0.data.len() == size,
        string_pool_placed(strings, offs, base, size)->Ok_0.data[i] == 0,
{
    lemma_strings_placed(
        strings,
        offs,
        base,
        StringPool { ids: Seq::empty(), data: zeros(size as nat) },
        0,
        i,
    );
}

// Instruction streams

proof fn lemma_stream_insns(insns: Seq<Instruction>, n: nat, stream: Seq<u8>, i: int)
    requires
        stream_insns(insns, n, stream) is Ok,
        0 <= i < stream.len(),
        forall|k: int|
            #![trigger insns[k]]
            n <= k < insns.len() ==> !(byte_span(insns[k].addr) <= i < byte_span(insns[k].addr)
                + unit_bytes(insn_units(insns[k])->Ok_0).len()),
    ensures
        stream_insns(insns, n, stream)->Ok_0.len() == stream.len(),
        stream_insns(insns, n, stream)->Ok_0[i] == stream[i],
    decreases insns.len() - n,
{
    if n < insns.len() {
        let insn = insns[n as int];
        let part = unit_bytes(insn_units(insn)->Ok_0);
        let next = overlay(stream, byte_span(insn.addr) as int, part);
        assert(next[i] == stream[i]);
        lemma_stream_insns(insns, n + 1, next, i);
    }
}

proof fn lemma_stream_payloads(
    insns: Seq<Instruction>,
    m: Map<u32, PayloadData>,
    keys: Seq<u32>,
    n: nat,
    stream: Seq<u8>,
    i: int,
)
    requires
        stream_payloads(insns, m, keys, n, stream) is Ok,
        0 <= i < stream.len(),
        forall|k: int|
            #![trigger keys[k]]
            n <= k < keys.len() ==> !(byte_span(keys[k]) <= i < byte_span(keys[k])
                + placed_payload(insns, keys[k], m[keys[k]])->Ok_0.len()),
    ensures
        stream_payloads(insns, m, keys, n, stream)->Ok_0.len() == stream.len(),
        stream_payloads(insns, m, keys, n, stream)->Ok_0[i] == stream[i],
    decreases keys.len() - n,
{
    if n < keys.len() {
        let key = keys[n as int];
        let part = placed_payload(insns, key, m[key])->Ok_0;
        let next = overlay(stream, byte_span(key) as int, part);
        assert(next[i] == stream[i]);
        lemma_stream_payloads(insns, m, keys, n + 1, next, i);
    }
}

/// In an instruction stream, which is as long as it is said to be, bytes that belong to no
/// instruction and to no data block are zero.
pub proof fn bytes_between_instructions_are_zero(
    insns: Seq<Instruction>,
    payloads: Map<u32, PayloadData>,
    size: u32,
    i: int,
)
    requires
        insn_stream(insns, payloads, size) is Ok,
        2 * size <= usize::MAX,
        0 <= i < 2 * size,
        forall|k: int|
            #![trigger insns[k]]
            0 <= k < insns.len() ==> !(byte_span(insns[k].addr) <= i < byte_span(insns[k].addr)
                + unit_bytes(insn_units(insns[k])->Ok_0).len()),
        forall|pc: u32| #[trigger]
            payloads.contains_key(pc) ==> !(byte_span(pc) <= i < byte_span(pc) + placed_payload(
                insns,
                pc,
                payloads[pc],
            )->Ok_0.len()),
    ensures
        insn_stream(insns, payloads, size)->Ok_0.len() == 2 * size,
        insn_stream(insns, payloads, size)->Ok_0[i] == 0,
{
    let blank = zeros(byte_span(size));
    let keys = sorted_keys(payloads);
    sorted_keys_list(payloads);
    lemma_stream_insns(insns, 0, blank, i);
    assert forall|k: int| #![trigger keys[k]] 0 <= k < keys.len() implies !(byte_span(keys[k]) <= i
        < byte_span(keys[k]) + placed_payload(insns, keys[k], payloads[keys[k]])->Ok_0.len()) by {
        assert(keys.contains(keys[k]));
        assert(payloads.contains_key(keys[k]));
    }
    lemma_stream_payloads(
        insns,
        payloads,
        keys,
        0,
        stream_insns(insns, 0, blank)->Ok_0,
        i,
    );
}

/// Where an instruction ends.
pub open spec fn insn_end(insn: Instruction) -> int {
    insn.addr + insn.size
}

proof fn lemma_insns_end(insns: Seq<Instruction>, n: nat, acc: u32)
    requires
        forall|k: int| 0 <= k < insns.len() ==> insn_end(#[trigger] insns[k]) <= u32::MAX,
    ensures
        insns_end(insns, n, acc) == acc || exists|k: int|
            n <= k < insns.len() && insns_end(insns, n, acc) == insn_end(#[trigger] insns[k]),
    decreases insns.len() - n,
{
    if n < insns.len() {
        let end = insn_end(insns[n as int]) as u32;
        let best = if end > acc {
            end
        } else {
            acc
        };
        lemma_insns_end(insns, n + 1, best);
        if insns_end(insns, n + 1, best) == best && best != acc {
            assert(insns_end(insns, n, acc) == insn_end(insns[n as int]));
        }
    }
}

/// Where a data block of `p` at `pc` ends: a switch has four units and two for each target, or
/// two units and four for each key; an array has four units and one for each two bytes.
pub open spec fn payload_end(pc: u32, p: PayloadData) -> int {
    pc + match p {
        PayloadData::PackedSwitch { targets, .. } => 4 + 2 * targets@.len() as int,
        PayloadData::SparseSwitch { keys, .. } => 2 + 4 * keys@.len() as int,
        PayloadData::FillArrayData { data, .. } => 4 + (data@.len() as int + 1) / 2,
    }
}

/// 32 bits can say where a data block ends, and how many bytes an array has.
pub open spec fn payload_ends(pc: u32, p: PayloadData) -> bool {
    payload_end(pc, p) <= u32::MAX && (p matches PayloadData::FillArrayData { data, .. }
        ==> data@.len() < u32::MAX)
}

proof fn lemma_payloads_end(m: Map<u32, PayloadData>, keys: Seq<u32>, n: nat, acc: u32)
    requires
        forall|k: int| 0 <= k < keys.len() ==> payload_ends(#[trigger] keys[k], m[keys[k]]),
    ensures
        payloads_end(m, keys, n, acc) is Ok,
        payloads_end(m, keys, n, acc)->Ok_0 >= acc,
        payloads_end(m, keys, n, acc)->Ok_0 == acc || exists|k: int|
            n <= k < keys.len() && payloads_end(m, keys, n, acc)->Ok_0 == payload_end(
                #[trigger] keys[k],
                m[keys[k]],
            ),
        forall|k: int|
            n <= k < keys.len() ==> payload_end(#[trigger] keys[k], m[keys[k]]) <= payloads_end(
                m,
                keys,
                n,
                acc,
            )->Ok_0,
    decreases keys.len() - n,
{
    if n < keys.len() {
        let key = keys[n as int];
        assert(payload_ends(keys[n as int], m[key]));
        assert(payload_units(m[key]) is Ok && key + payload_units(m[key])->Ok_0 == payload_end(
            key,
            m[key],
        ));
        let end = payload_end(key, m[key]) as u32;
        let best = if end > acc {
            end
        } else {
            acc
        };
        lemma_payloads_end(m, keys, n + 1, best);
        let whole = payloads_end(m, keys, n, acc)->Ok_0;
        assert(payloads_end(m, keys, n, acc) == payloads_end(m, keys, n + 1, best));
        if whole == best && best != acc {
            assert(whole == payload_end(keys[n as int], m[keys[n as int]]));
        }
        assert forall|k: int| n <= k < keys.len() implies payload_end(
            #[trigger] keys[k],
            m[keys[k]],
        ) <= whole by {
            if k > n {
                assert(n + 1 <= k);
            }
        }
    }
}

/// An instruction stream is as long as it has to be: it ends with one of its instructions or
/// data blocks, or is empty.
pub proof fn streams_end_with_what_is_last(insns: Seq<Instruction>, payloads: Map<u32, PayloadData>)
    requires
        forall|k: int| 0 <= k < insns.len() ==> insn_end(#[trigger] insns[k]) <= u32::MAX,
        forall|pc: u32| #[trigger]
            payloads.contains_key(pc) ==> payload_ends(pc, payloads[pc]),
    ensures
        insns_extent(insns, payloads) is Ok,
        ({
            let n = insns_extent(insns, payloads)->Ok_0;
            &&& n == 0 || (exists|k: int|
                0 <= k < insns.len() && n == insn_end(#[trigger] insns[k])) || (exists|pc: u32|
             #[trigger]
                payloads.contains_key(pc) && n == payload_end(pc, payloads[pc]))
            &&& forall|pc: u32| #[trigger]
                payloads.contains_key(pc) ==> payload_end(pc, payloads[pc]) <= n
        }),
{
    let keys = sorted_keys(payloads);
    sorted_keys_list(payloads);
    assert forall|k: int| 0 <= k < keys.len() implies payload_ends(
        #[trigger] keys[k],
        payloads[keys[k]],
    ) by {
        assert(keys.contains(keys[k]));
        assert(payloads.contains_key(keys[k]));
    }
    let first = insns_end(insns, 0, 0);
    lemma_insns_end(insns, 0, 0);
    lemma_payloads_end(payloads, keys, 0, first);
    let n = insns_extent(insns, payloads)->Ok_0;
    if n != first {
        let k = choose|k: int|
            0 <= k < keys.len() && n == payload_end(#[trigger] keys[k], payloads[keys[k]]);
        assert(keys.contains(keys[k]));
        assert(payloads.contains_key(keys[k]));
    }
    assert forall|pc: u32| #[trigger] payloads.contains_key(pc) implies payload_end(
        pc,
        payloads[pc],
    ) <= n by {
        assert(keys.contains(pc));
        let k = choose|k: int| 0 <= k < keys.len() && keys[k] == pc;
        assert(payload_end(keys[k], payloads[keys[k]]) <= n);
    }
}

// Files whose layout is kept

/// Position `i` is in none of the parts from `from` on.
pub open spec fn in_no_part(parts: Seq<(u32, Seq<u8>)>, from: int, i: int) -> bool {
    forall|k: int|
        #![trigger parts[k]]
        from <= k < parts.len() ==> !(parts[k].0 <= i < parts[k].0 + parts[k].1.len())
}

proof fn lemma_all_written(buf: Seq<u8>, parts: Seq<(u32, Seq<u8>)>, n: nat, i: int)
    requires
        all_written(buf, parts, n) is Ok,
        in_no_part(parts, n as int, i),
        0 <= i < buf.len(),
    ensures
        all_written(buf, parts, n)->Ok_0.len() == buf.len(),
        all_written(buf, parts, n)->Ok_0[i] == buf[i],
    decreases parts.len() - n,
{
    if n < parts.len() {
        let (off, bytes) = parts[n as int];
        let next = overlay(buf, off as int, bytes);
        assert(next[i] == buf[i]);
        lemma_all_written(next, parts, n + 1, i);
    }
}

/// In a file whose layout is kept, bytes that belong to no part are zero.
pub proof fn bytes_between_parts_are_zero(
    file_size: u32,
    header: Seq<u8>,
    pools: Seq<(u32, Seq<u8>)>,
    sections: Seq<(u32, Seq<u8>)>,
    map_off: u32,
    map: Seq<u8>,
    i: int,
)
    requires
        filled(file_size, header, pools, sections, map_off, map) is Ok,
        header.len() <= i < file_size,
        in_no_part(pools, 0, i),
        in_no_part(sections, 0, i),
        !(map_off <= i < map_off + map.len()),
    ensures
        filled(file_size, header, pools, sections, map_off, map)->Ok_0[i] == 0,
{
    reveal(filled);
    let a = written_at(zeros(file_size as nat), 0, header)->Ok_0;
    let b = all_written(a, pools, 0)->Ok_0;
    assert(a[i] == 0);
    lemma_all_written(a, pools, 0, i);
    lemma_all_written(b, sections, 0, i);
}

} // verus!
