//! What is read at the places of a file in the canonical layout is what was to be
//! written.
use vstd::prelude::*;

use crate::annotation::{AnnotationItem, EncodedValue};
use crate::bytes::{le16, le32, read_le16, read_le32};
use crate::collections::sorted_keys;
use crate::decode::CodeItem;
use crate::dex_file::DexFile;
use crate::dex_string::DexString;
use crate::emit_dex::assembly::canonical_file;
use crate::emit_dex::canonical::{call_site_places, data, front};
use crate::emit_dex::code_item::{byte_span, code_item, insn_stream, insns_extent};
use crate::emit_dex::config::EmitConfig;
use crate::emit_dex::directory::Labels;
use crate::emit_dex::encoded_value::value_written;
use crate::emit_dex::error::DexEmitError;
use crate::emit_dex::instruction::{insn_units, unit_bytes};
use crate::emit_dex::laws::code::{
    container_fields_read_back, insns_apart, instructions_stand, payloads_apart,
};
use crate::emit_dex::laws::file::{
    canonical_parts, canonical_pools_stand, canonical_sections_stand, canonical_steps,
};
use crate::emit_dex::laws::links::{
    arrays_and_directories_are_laid_out, bodies_and_lists_are_laid_out,
    method_bodies_are_in_the_file, section_keys,
};
use crate::emit_dex::laws::members::{next_number, number_then_rest};
use crate::emit_dex::laws::notes::{
    annotations_are_laid_out, holds_word, resolved_one_by_one, word_at,
};
use crate::emit_dex::laws::place::{
    half_in, holding_is_transitive, holds_at, in_front, in_rest, rest_after, word_in,
};
use crate::emit_dex::laws::pools::{
    field_read, fields_read_back, handle_read, handles_read_back, method_read, methods_read_back,
    type_read, types_read_back,
};
use crate::emit_dex::laws::sections::{
    annotations_are_found, encoded_arrays_are_found, last_key, type_lists_are_found,
};
use crate::emit_dex::laws::values::{
    array_read, arrays_read_back, body_height, body_meaning, element_meanings, elements_are_finite,
    elements_height, elements_read, items_height, meanings, values_read_back, Constant,
};
use crate::emit_dex::layout::{debug_place, string_index, type_indexes};
use crate::emit_dex::pools::{
    field_ids, field_ids_len, low32, method_handles_len, method_ids, method_ids_len, type_ids,
    type_ids_len, type_items, type_list, words, words_len,
};
use crate::emit_dex::sections::{
    annotation_item_part, encoded_array_parts, recorded_widths, section_overflow, type_list_part,
};
use crate::emit_dex::widths::{annotation_written, array_written, elements_alone};
use crate::ids::{StringIdx, TypeIdx};
use crate::leb128::uleb;

verus! {

// Pools

proof fn lemma_string_index(strings: Seq<DexString>, n: nat, text: Seq<char>)
    requires
        n <= strings.len() <= u32::MAX,
        string_index(strings, n, text) is Some,
    ensures
        ({
            let idx = string_index(strings, n, text)->Some_0;
            idx.0 < n && strings[idx.0 as int].text() == text
        }),
    decreases n,
{
    if n > 0 && strings[n - 1].text() != text {
        lemma_string_index(strings, (n - 1) as nat, text);
    }
}

proof fn lemma_type_index_at(
    strings: Seq<DexString>,
    descriptors: Seq<String>,
    i: nat,
    acc: Seq<StringIdx>,
    j: int,
)
    requires
        acc.len() == i <= descriptors.len(),
        0 <= j < descriptors.len(),
        type_indexes(strings, descriptors, i, acc) is Ok,
        j < i ==> string_index(strings, strings.len(), descriptors[j]@) == Some(acc[j]),
    ensures
        ({
            let idxs = type_indexes(strings, descriptors, i, acc)->Ok_0;
            &&& idxs.len() == descriptors.len()
            &&& string_index(strings, strings.len(), descriptors[j]@) == Some(idxs[j])
        }),
    decreases descriptors.len() - i,
{
    if i < descriptors.len() {
        let idx = string_index(strings, strings.len(), descriptors[i as int]@)->Some_0;
        lemma_type_index_at(strings, descriptors, i + 1, acc.push(idx), j);
    }
}

/// The pools of types, fields and methods of a file in the canonical layout could be made.
pub proof fn pools_are_made(dex: DexFile, config: EmitConfig)
    requires
        canonical_file(dex, config) is Ok,
    ensures
        ({
            let f = canonical_parts(dex, config).front;
            let idxs = type_indexes(dex.strings@, dex.type_descriptors@, 0, Seq::empty());
            &&& idxs is Ok
            &&& f.types == type_ids(idxs->Ok_0, idxs->Ok_0.len())
            &&& field_ids(dex.fields@, 0).fault is None
            &&& f.fields == field_ids(dex.fields@, 0).bytes
            &&& method_ids(dex.methods@, 0).fault is None
            &&& f.methods == method_ids(dex.methods@, 0).bytes
        }),
{
    canonical_steps(dex, config);
    reveal(front);
}

/// Wherever the type pool stands, it gives, for each type, the index of a string that reads
/// its descriptor.
pub proof fn type_pools_read_back(
    out: Seq<u8>,
    at: int,
    strings: Seq<DexString>,
    descriptors: Seq<String>,
    i: int,
)
    requires
        type_indexes(strings, descriptors, 0, Seq::empty()) is Ok,
        ({
            let idxs = type_indexes(strings, descriptors, 0, Seq::empty())->Ok_0;
            holds_at(out, at, type_ids(idxs, idxs.len()))
        }),
        strings.len() <= u32::MAX,
        0 <= i < descriptors.len(),
    ensures
        ({
            let idx = type_read(out, at + 4 * i);
            &&& idx.0 < strings.len()
            &&& strings[idx.0 as int].text() == descriptors[i]@
        }),
{
    let idxs = type_indexes(strings, descriptors, 0, Seq::empty())->Ok_0;
    lemma_type_index_at(strings, descriptors, 0, Seq::empty(), i);
    types_read_back(out, at, idxs, i);
    lemma_string_index(strings, strings.len(), descriptors[i]@);
}

/// In a file in the canonical layout the type pool gives, for each type, the index of a
/// string that reads its descriptor.
pub proof fn types_are_in_the_file(dex: DexFile, config: EmitConfig, i: int)
    requires
        canonical_file(dex, config) is Ok,
        dex.strings@.len() <= u32::MAX,
        0 <= i < dex.type_descriptors@.len(),
    ensures
        ({
            let c = canonical_parts(dex, config);
            let out = canonical_file(dex, config)->Ok_0.bytes;
            let idx = type_read(out, c.places.type_ids_off + 4 * i);
            &&& idx.0 < dex.strings@.len()
            &&& dex.strings@[idx.0 as int].text() == dex.type_descriptors@[i]@
        }),
{
    let c = canonical_parts(dex, config);
    let out = canonical_file(dex, config)->Ok_0.bytes;
    let idxs = type_indexes(dex.strings@, dex.type_descriptors@, 0, Seq::empty())->Ok_0;
    pools_are_made(dex, config);
    lemma_type_index_at(dex.strings@, dex.type_descriptors@, 0, Seq::empty(), i);
    canonical_pools_stand(dex, config);
    type_ids_len(idxs, idxs.len());
    type_pools_read_back(
        out,
        c.places.type_ids_off as int,
        dex.strings@,
        dex.type_descriptors@,
        i,
    );
}

/// In a file in the canonical layout every field reference reads back.
pub proof fn fields_are_in_the_file(dex: DexFile, config: EmitConfig, i: int)
    requires
        canonical_file(dex, config) is Ok,
        0 <= i < dex.fields@.len(),
    ensures
        field_read(
            canonical_file(dex, config)->Ok_0.bytes,
            canonical_parts(dex, config).places.field_ids_off + 8 * i,
        ) == dex.fields@[i],
{
    let c = canonical_parts(dex, config);
    let out = canonical_file(dex, config)->Ok_0.bytes;
    pools_are_made(dex, config);
    canonical_pools_stand(dex, config);
    field_ids_len(dex.fields@, 0);
    fields_read_back(out, c.places.field_ids_off as int, dex.fields@, i);
}

/// In a file in the canonical layout every method reference reads back.
pub proof fn methods_are_in_the_file(dex: DexFile, config: EmitConfig, i: int)
    requires
        canonical_file(dex, config) is Ok,
        0 <= i < dex.methods@.len(),
    ensures
        method_read(
            canonical_file(dex, config)->Ok_0.bytes,
            canonical_parts(dex, config).places.method_ids_off + 8 * i,
        ) == dex.methods@[i],
{
    let c = canonical_parts(dex, config);
    let out = canonical_file(dex, config)->Ok_0.bytes;
    pools_are_made(dex, config);
    canonical_pools_stand(dex, config);
    method_ids_len(dex.methods@, 0);
    methods_read_back(out, c.places.method_ids_off as int, dex.methods@, i);
}

/// In a file in the canonical layout every method handle reads back.
pub proof fn handles_are_in_the_file(dex: DexFile, config: EmitConfig, i: int)
    requires
        canonical_file(dex, config) is Ok,
        0 <= i < dex.method_handles@.len(),
    ensures
        handle_read(
            canonical_file(dex, config)->Ok_0.bytes,
            canonical_parts(dex, config).places.method_handles_off + 8 * i,
        ) == dex.method_handles@[i],
{
    let c = canonical_parts(dex, config);
    let out = canonical_file(dex, config)->Ok_0.bytes;
    canonical_pools_stand(dex, config);
    method_handles_len(dex.method_handles@, dex.method_handles@.len());
    handles_read_back(out, c.places.method_handles_off as int, dex.method_handles@, i);
}

// Type lists

/// The entry at position `i` of the type list at `at`.
pub open spec fn list_entry(file: Seq<u8>, at: int, i: int) -> TypeIdx {
    TypeIdx(read_le16(file, at + 4 + 2 * i) as u32)
}

proof fn lemma_type_item_at(idxs: Seq<TypeIdx>, k: nat, i: int)
    requires
        k <= i < idxs.len(),
        type_items(idxs, k).fault is None,
    ensures
        idxs[i].0 <= 0xFFFF,
        holds_at(type_items(idxs, k).bytes, 2 * (i - k), le16(idxs[i].0 as u16)),
    decreases idxs.len() - k,
{
    let first = le16(idxs[k as int].0 as u16);
    let rest = type_items(idxs, k + 1).bytes;
    if k < i {
        lemma_type_item_at(idxs, k + 1, i);
        in_rest(first, rest, 2 * (i - k - 1), le16(idxs[i].0 as u16));
    } else {
        in_front(first, rest);
    }
}

/// Wherever a type list stands, its length reads back, as far as it fits in 32 bits, and
/// so does every entry.
pub proof fn type_lists_read_back(file: Seq<u8>, at: int, idxs: Seq<TypeIdx>, i: int)
    requires
        type_list(idxs).fault is None,
        holds_at(file, at, type_list(idxs).bytes),
        0 <= i < idxs.len(),
    ensures
        read_le32(file, at) == low32(idxs.len()),
        list_entry(file, at, i) == idxs[i],
{
    let n = low32(idxs.len());
    let entry = le16(idxs[i].0 as u16);
    let list = type_list(idxs).bytes;
    let items = type_items(idxs, 0).bytes;
    in_front(le32(n), items);
    holding_is_transitive(file, at, list, 0, le32(n));
    assert(le32(n).subrange(0, 4) =~= le32(n));
    word_in(file, at, le32(n), 0, n);
    lemma_type_item_at(idxs, 0, i);
    in_rest(le32(n), items, 2 * i, entry);
    holding_is_transitive(file, at, list, 4 + 2 * i, entry);
    assert(entry.subrange(0, 2) =~= entry);
    half_in(file, at + 4 + 2 * i, entry, 0, idxs[i].0 as u16);
}

/// In a file in the canonical layout every type list reads back at its place.
pub proof fn type_lists_are_in_the_file(dex: DexFile, config: EmitConfig, key: u32, i: int)
    requires
        canonical_file(dex, config) is Ok,
        dex.type_lists@.contains_key(key),
        0 <= i < dex.type_lists@[key]@.len(),
    ensures
        ({
            let c = canonical_parts(dex, config);
            let out = canonical_file(dex, config)->Ok_0.bytes;
            let at = c.data.tail.list_base + c.front.lists.remap[key];
            &&& read_le32(out, at) == low32(dex.type_lists@[key]@.len())
            &&& list_entry(out, at, i) == dex.type_lists@[key]@[i]
        }),
{
    let c = canonical_parts(dex, config);
    let out = canonical_file(dex, config)->Ok_0.bytes;
    let idxs = dex.type_lists@[key]@;
    let part = type_list_part(idxs, last_key(dex.type_lists@, key))->Ok_0;
    let at = c.data.tail.list_base + c.front.lists.remap[key];
    canonical_sections_stand(dex, config);
    bodies_and_lists_are_laid_out(dex, config);
    type_lists_are_found(dex.type_lists@, key);
    holding_is_transitive(
        out,
        c.data.tail.list_base as int,
        c.front.lists.blob,
        c.front.lists.remap[key] as int,
        part,
    );
    let list = type_list(idxs).bytes;
    assert(holds_at(part, 0, list)) by {
        if part == list {
            assert(list.subrange(0, list.len() as int) =~= list);
        } else {
            in_front(list, crate::bytes::zeros(2));
        }
    }
    holding_is_transitive(out, at, part, 0, list);
    type_lists_read_back(out, at, idxs, i);
}

// Constants

/// In a file in the canonical layout every encoded array reads back at its place, with or
/// without recorded widths.
pub proof fn arrays_are_in_the_file(dex: DexFile, config: EmitConfig, key: u32, fuel: nat)
    requires
        canonical_file(dex, config) is Ok,
        dex.encoded_arrays@.contains_key(key),
        fuel >= items_height(dex.encoded_arrays@[key]@, 0),
    ensures
        ({
            let c = canonical_parts(dex, config);
            let out = canonical_file(dex, config)->Ok_0.bytes;
            let at = c.data.tail.array_base + c.data.tail.arrays.remap[key];
            let read = array_read(out.skip(at), fuel);
            read is Some && read->Some_0.0 == meanings(dex.encoded_arrays@[key]@, 0)
        }),
{
    let c = canonical_parts(dex, config);
    let t = c.data.tail;
    let out = canonical_file(dex, config)->Ok_0.bytes;
    let values = dex.encoded_arrays@[key]@;
    let all = if config.preserve_encoded_value_width {
        Some(dex.encoded_array_widths@)
    } else {
        None
    };
    let widths = recorded_widths(all, key);
    let at = t.array_base + t.arrays.remap[key];
    canonical_sections_stand(dex, config);
    arrays_and_directories_are_laid_out(dex, config);
    encoded_arrays_are_found(dex.encoded_arrays@, all, key);
    let part = array_written(values, widths).bytes;
    holding_is_transitive(
        out,
        t.array_base as int,
        t.arrays.blob,
        t.arrays.remap[key] as int,
        part,
    );
    rest_after(out, at, part);
    arrays_read_back(values, widths, out.skip(at + part.len()), fuel);
}

/// The annotation that starts `s`: its visibility, its type and its elements.
pub open spec fn annotation_read(s: Seq<u8>, fuel: nat) -> Option<
    (u8, nat, Seq<(nat, Constant)>),
> {
    if s.len() == 0 {
        None
    } else {
        match next_number(s.skip(1)) {
            None => None,
            Some((ty, t)) => match next_number(t) {
                None => None,
                Some((n, t)) => match elements_read(t, n, fuel) {
                    None => None,
                    Some((elements, _)) => Some((s[0], ty, elements)),
                },
            },
        }
    }
}

proof fn lemma_elements_alone_read(
    m: Map<u32, EncodedValue>,
    keys: Seq<u32>,
    i: nat,
    rest: Seq<u8>,
    fuel: nat,
)
    requires
        i <= keys.len(),
        m.dom().finite(),
        forall|j: int| 0 <= j < keys.len() ==> m.contains_key(#[trigger] keys[j]),
        elements_alone(m, keys, i).fault is None,
        fuel >= elements_height(m, keys, i),
    ensures
        elements_read(
            elements_alone(m, keys, i).bytes + rest,
            (keys.len() - i) as nat,
            fuel,
        ) == Some((element_meanings(m, keys, i), rest)),
    decreases keys.len() - i,
{
    let s = elements_alone(m, keys, i).bytes + rest;
    if i == keys.len() {
        assert(s =~= rest);
    } else {
        let key = keys[i as int];
        let first = value_written(m[key], 0).bytes;
        let more = elements_alone(m, keys, i + 1).bytes + rest;
        values_read_back(m[key], 0, more, fuel);
        lemma_elements_alone_read(m, keys, i + 1, rest, fuel);
        assert(s =~= uleb(key as nat) + (first + more));
        number_then_rest(key as nat, first + more);
    }
}

/// An annotation reads back, whatever follows it.
pub proof fn annotations_read_back(item: AnnotationItem, rest: Seq<u8>, fuel: nat)
    requires
        annotation_item_part(item) is Ok,
        fuel >= body_height(item.annotation),
    ensures
        annotation_read(annotation_item_part(item)->Ok_0 + rest, fuel) == Some(
            (
                item.visibility,
                item.annotation.type_idx.0 as nat,
                body_meaning(item.annotation),
            ),
        ),
{
    let ann = item.annotation;
    let keys = sorted_keys(ann.elements@);
    let ty = ann.type_idx.0 as nat;
    let body = elements_alone(ann.elements@, keys, 0).bytes;
    let s = annotation_item_part(item)->Ok_0 + rest;
    elements_are_finite(ann.elements@);
    assert(annotation_written(ann).bytes =~= uleb(ty) + uleb(keys.len()) + body);
    assert(s =~= seq![item.visibility] + (uleb(ty) + (uleb(keys.len()) + (body + rest))));
    assert(s.skip(1) =~= uleb(ty) + (uleb(keys.len()) + (body + rest)));
    number_then_rest(ty, uleb(keys.len()) + (body + rest));
    number_then_rest(keys.len(), body + rest);
    lemma_elements_alone_read(ann.elements@, keys, 0, rest, fuel);
}

/// In a file in the canonical layout every annotation reads back at its place.
pub proof fn annotations_are_in_the_file(dex: DexFile, config: EmitConfig, key: u32, fuel: nat)
    requires
        canonical_file(dex, config) is Ok,
        dex.annotation_items@.contains_key(key),
        fuel >= body_height(dex.annotation_items@[key].annotation),
    ensures
        ({
            let n = canonical_parts(dex, config).data.notes;
            let out = canonical_file(dex, config)->Ok_0.bytes;
            let item = dex.annotation_items@[key];
            annotation_read(out.skip(n.item_base + n.items.remap[key]), fuel) == Some(
                (
                    item.visibility,
                    item.annotation.type_idx.0 as nat,
                    body_meaning(item.annotation),
                ),
            )
        }),
{
    let n = canonical_parts(dex, config).data.notes;
    let out = canonical_file(dex, config)->Ok_0.bytes;
    let item = dex.annotation_items@[key];
    let at = n.item_base + n.items.remap[key];
    canonical_sections_stand(dex, config);
    annotations_are_laid_out(dex, config);
    annotations_are_found(dex.annotation_items@, key);
    let part = annotation_item_part(item)->Ok_0;
    holding_is_transitive(
        out,
        n.item_base as int,
        n.items.blob,
        n.items.remap[key] as int,
        part,
    );
    rest_after(out, at, part);
    annotations_read_back(item, out.skip(at + part.len()), fuel);
}

// Call sites

/// In a file in the canonical layout every call site is 0, as it was, or the place of its
/// encoded array.
pub proof fn call_sites_are_in_the_file(dex: DexFile, config: EmitConfig, i: int)
    requires
        canonical_file(dex, config) is Ok,
        0 <= i < dex.call_site_ids@.len(),
    ensures
        ({
            let c = canonical_parts(dex, config);
            let t = c.data.tail;
            let out = canonical_file(dex, config)->Ok_0.bytes;
            let was = dex.call_site_ids@[i];
            let now = read_le32(out, c.places.call_site_ids_off + 4 * i);
            if was == 0 {
                now == 0
            } else {
                dex.encoded_arrays@.contains_key(was) && now == t.array_base + t.arrays.remap[was]
            }
        }),
{
    let c = canonical_parts(dex, config);
    let t = c.data.tail;
    let out = canonical_file(dex, config)->Ok_0.bytes;
    let was = dex.call_site_ids@[i];
    let l = Labels {
        missing: "call_site_id references encoded_array not in dex.encoded_arrays",
        section: "call_site_id",
        context: "absolute offset overflow",
    };
    canonical_pools_stand(dex, config);
    lemma_call_sites(dex, config);
    resolved_one_by_one(
        dex.call_site_ids@,
        t.array_base,
        t.arrays.remap,
        l,
        0,
        Seq::empty(),
        i,
    );
    words_len(t.call_sites, t.call_sites.len());
    holds_word(t.call_sites, t.call_sites.len(), i);
    holding_is_transitive(
        out,
        c.places.call_site_ids_off as int,
        words(t.call_sites, t.call_sites.len()),
        4 * i,
        le32(t.call_sites[i]),
    );
    word_at(out, c.places.call_site_ids_off + 4 * i, t.call_sites[i]);
    if was != 0 {
        let all = if config.preserve_encoded_value_width {
            Some(dex.encoded_array_widths@)
        } else {
            None
        };
        arrays_and_directories_are_laid_out(dex, config);
        section_keys(
            dex.encoded_arrays@,
            encoded_array_parts(dex.encoded_arrays@, all),
            1,
            section_overflow("encoded_array_section", "encoded_array blob exceeds u32 byte offset"),
        );
        assert(dex.encoded_arrays@.dom().contains(was));
    }
}

proof fn lemma_call_sites(dex: DexFile, config: EmitConfig)
    requires
        canonical_file(dex, config) is Ok,
    ensures
        ({
            let t = canonical_parts(dex, config).data.tail;
            call_site_places(dex.call_site_ids@, t.array_base, t.arrays.remap) == Ok::<
                Seq<u32>,
                DexEmitError,
            >(t.call_sites)
        }),
{
    canonical_steps(dex, config);
    reveal(data);
}

// Instructions

/// The body at `at` holds the instruction stream `stream` sixteen bytes on.
proof fn lemma_stream_stands(out: Seq<u8>, at: int, ci: CodeItem, off: u32)
    requires
        code_item(ci, off) is Ok,
        holds_at(out, at, code_item(ci, off)->Ok_0),
    ensures
        insns_extent(ci.instructions@, ci.payloads@) is Ok,
        ({
            let size = insns_extent(ci.instructions@, ci.payloads@)->Ok_0;
            let stream = insn_stream(ci.instructions@, ci.payloads@, size);
            stream is Ok && holds_at(out, at + 16, stream->Ok_0)
        }),
{
    let size = insns_extent(ci.instructions@, ci.payloads@)->Ok_0;
    let stream = insn_stream(ci.instructions@, ci.payloads@, size)->Ok_0;
    container_fields_read_back(
        ci.registers_size,
        ci.ins_size,
        ci.outs_size,
        off,
        stream,
        ci.tries@,
        ci.catch_handlers@,
    );
    holding_is_transitive(out, at, code_item(ci, off)->Ok_0, 16, stream);
}

/// Where the instructions of a method body start in a file in the canonical layout.
pub open spec fn stream_place(dex: DexFile, config: EmitConfig, key: u32) -> int {
    let c = canonical_parts(dex, config);
    c.data.bodies.code_base + c.front.code.remap[key] + 16
}

/// In a file in the canonical layout every instruction stands at its address behind the
/// start of its body's instructions, unless a later instruction or a payload of the body
/// is written over it.
pub proof fn instructions_are_in_the_file(dex: DexFile, config: EmitConfig, key: u32, j: int)
    requires
        canonical_file(dex, config) is Ok,
        dex.code_items@.contains_key(key),
        0 <= j < dex.code_items@[key].instructions@.len(),
        ({
            let ci = dex.code_items@[key];
            let insn = ci.instructions@[j];
            insn_units(insn) matches Ok(units) ==> insns_apart(
                ci.instructions@,
                j + 1,
                byte_span(insn.addr) as int,
                unit_bytes(units).len(),
            ) && payloads_apart(
                ci.instructions@,
                ci.payloads@,
                -1,
                byte_span(insn.addr) as int,
                unit_bytes(units).len(),
            )
        }),
    ensures
        ({
            let insn = dex.code_items@[key].instructions@[j];
            &&& insn_units(insn) is Ok
            &&& holds_at(
                canonical_file(dex, config)->Ok_0.bytes,
                stream_place(dex, config, key) + byte_span(insn.addr),
                unit_bytes(insn_units(insn)->Ok_0),
            )
        }),
{
    let c = canonical_parts(dex, config);
    let out = canonical_file(dex, config)->Ok_0.bytes;
    let ci = dex.code_items@[key];
    let insn = ci.instructions@[j];
    let at = c.data.bodies.code_base + c.front.code.remap[key];
    let off = debug_place(ci.debug_info_off, c.front.debug.remap, c.data.bodies.debug_base);
    method_bodies_are_in_the_file(dex, config, key);
    lemma_stream_stands(out, at, ci, off);
    let size = insns_extent(ci.instructions@, ci.payloads@)->Ok_0;
    instructions_stand(ci.instructions@, ci.payloads@, size, j);
    holding_is_transitive(
        out,
        at + 16,
        insn_stream(ci.instructions@, ci.payloads@, size)->Ok_0,
        byte_span(insn.addr) as int,
        unit_bytes(insn_units(insn)->Ok_0),
    );
}

} // verus!
