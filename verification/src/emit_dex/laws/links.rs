//! The offsets in a file in the canonical layout lead to what they name.
use vstd::prelude::*;

use crate::bytes::{le32, overlay, read_le32};
use crate::collections::{sorted_keys, sorted_keys_list};
use crate::decode::{ClassData, CodeItem, EncodedMethod};
use crate::dex_file::DexFile;
use crate::emit_dex::assembly::{canonical_file, data_links};
use crate::emit_dex::canonical::{arrays_of, data, front, stored};
use crate::emit_dex::code_item::{code_item, insn_stream, insns_extent, sat32};
use crate::emit_dex::config::EmitConfig;
use crate::emit_dex::directory::{
    annotation_directory_parts, annotation_directory_section, directory_part, Moved,
};
use crate::emit_dex::error::DexEmitError;
use crate::emit_dex::laws::code::{container_fields_read_back, debug_offset_is_one_word};
use crate::emit_dex::laws::file::{
    canonical_header_describes_the_file, canonical_links, canonical_parts, canonical_pools_stand,
    canonical_sections_stand, canonical_steps, linked_pools_len,
};
use crate::emit_dex::laws::members::{class_data_reads_back, members_read, Members};
use crate::emit_dex::laws::place::{
    apart, holding_is_transitive, holds_at, overlay_apart, rest_after,
};
use crate::emit_dex::laws::pools::{
    class_read, classes_read_back, lifted_len, lifting_adds_the_base, proto_read, protos_read_back,
    string_ids_point_at_the_data, string_read, string_reads_back,
};
use crate::emit_dex::laws::sections::{
    class_members_are_found, debug_infos_are_found, directories_are_found, encoded_arrays_are_found,
    items_stand_in_order, last_key, method_bodies_are_found, type_lists_are_found,
};
use crate::emit_dex::layout::{
    class_moved, classes_moved, debug_linked, debug_place, lifted, linked_classes, linked_protos,
    proto_moved, protos_moved, Link, Links,
};
use crate::emit_dex::pools::{string_data, string_ids, string_ids_len, string_item};
use crate::emit_dex::sections::{
    class_data_part, class_data_parts, class_data_section, code_item_parts, code_item_section,
    debug_info_parts, debug_info_section, encoded_array_parts, methods_moved, recorded_widths,
    resolved, section, section_overflow, type_list_part, type_list_parts, type_list_section,
    Section,
};
use crate::emit_dex::widths::array_written;
use crate::ids::{ClassDefItem, ProtoIdItem};
use crate::mutf8::{cesu8_units, mutf8, mutf8_has_no_zero_byte, mutf8_reads_back, utf16_text};

verus! {

// Debug info

/// A part of the method-body section with its debug-info offset written.
spec fn with_debug(part: Seq<u8>, place: u32) -> Seq<u8> {
    overlay(part, 8, le32(place))
}

/// `blob` after the debug-info offset of the body at `at` has been written.
proof fn lemma_write_debug(blob: Seq<u8>, at: int, part: Seq<u8>, place: u32)
    requires
        holds_at(blob, at, part),
        part.len() >= 16,
    ensures
        holds_at(overlay(blob, at + 8, le32(place)), at, with_debug(part, place)),
{
    let now = overlay(blob, at + 8, le32(place));
    let want = with_debug(part, place);
    assert forall|j: int| 0 <= j < want.len() implies now[at + j] == want[j] by {
        assert(blob.subrange(at, at + part.len())[j] == part[j]);
    }
    assert(now.subrange(at, at + want.len()) =~= want);
}

/// The bodies stand in `blob`, those before position `i` with their debug-info
/// offsets written.
spec fn partly_linked(
    s: Section,
    parts: Seq<Seq<u8>>,
    places: Seq<u32>,
    keys: Seq<u32>,
    blob: Seq<u8>,
    i: nat,
) -> bool {
    &&& parts.len() == keys.len()
    &&& places.len() == keys.len()
    &&& forall|k: int|
        #![trigger keys[k]]
        #![trigger parts[k]]
        0 <= k < keys.len() ==> parts[k].len() >= 16 && holds_at(
            blob,
            s.remap[keys[k]] as int,
            if k < i {
                with_debug(parts[k], places[k])
            } else {
                parts[k]
            },
        )
    &&& forall|j: int, k: int|
        #![trigger keys[j], keys[k]]
        0 <= j < k < keys.len() ==> apart(
            s.remap[keys[j]] as int,
            parts[j].len(),
            s.remap[keys[k]] as int,
            parts[k].len(),
        )
}

proof fn lemma_debug_step(
    s: Section,
    parts: Seq<Seq<u8>>,
    places: Seq<u32>,
    keys: Seq<u32>,
    blob: Seq<u8>,
    i: nat,
)
    requires
        partly_linked(s, parts, places, keys, blob, i),
        i < keys.len(),
    ensures
        partly_linked(
            s,
            parts,
            places,
            keys,
            overlay(blob, s.remap[keys[i as int]] + 8, le32(places[i as int])),
            i + 1,
        ),
{
    let at = s.remap[keys[i as int]] as int;
    let now = overlay(blob, at + 8, le32(places[i as int]));
    let n = i as int;
    assert(parts[n].len() >= 16 && holds_at(blob, at, parts[n]));
    assert forall|k: int|
        #![trigger keys[k]]
        #![trigger parts[k]]
        0 <= k < keys.len() implies parts[k].len() >= 16 && holds_at(
        now,
        s.remap[keys[k]] as int,
        if k < i + 1 {
            with_debug(parts[k], places[k])
        } else {
            parts[k]
        },
    ) by {
        if k == n {
            lemma_write_debug(blob, at, parts[n], places[n]);
        } else if k < n {
            assert(apart(
                s.remap[keys[k]] as int,
                parts[k].len(),
                s.remap[keys[n]] as int,
                parts[n].len(),
            ));
            overlay_apart(
                blob,
                at + 8,
                le32(places[n]),
                s.remap[keys[k]] as int,
                with_debug(parts[k], places[k]),
            );
        } else {
            assert(apart(
                s.remap[keys[n]] as int,
                parts[n].len(),
                s.remap[keys[k]] as int,
                parts[k].len(),
            ));
            overlay_apart(blob, at + 8, le32(places[n]), s.remap[keys[k]] as int, parts[k]);
        }
    }
}

proof fn lemma_debug_linked(
    s: Section,
    items: Map<u32, CodeItem>,
    debug: Map<u32, u32>,
    base: u32,
    parts: Seq<Seq<u8>>,
    places: Seq<u32>,
    blob: Seq<u8>,
    i: nat,
)
    requires
        s.remap.dom() == items.dom(),
        i <= sorted_keys(s.remap).len(),
        partly_linked(s, parts, places, sorted_keys(s.remap), blob, i),
        forall|k: int|
            0 <= k < places.len() ==> #[trigger] places[k] == debug_place(
                items[sorted_keys(s.remap)[k]].debug_info_off,
                debug,
                base,
            ),
        debug_linked(s.remap, items, debug, base, blob, i) is Ok,
    ensures
        partly_linked(
            s,
            parts,
            places,
            sorted_keys(s.remap),
            debug_linked(s.remap, items, debug, base, blob, i)->Ok_0,
            sorted_keys(s.remap).len(),
        ),
    decreases sorted_keys(s.remap).len() - i,
{
    let keys = sorted_keys(s.remap);
    if i < keys.len() {
        sorted_keys_list(s.remap);
        assert(keys.contains(keys[i as int]));
        assert(s.remap.dom().contains(keys[i as int]));
        assert(items.contains_key(keys[i as int]));
        let now = overlay(blob, s.remap[keys[i as int]] + 8, le32(places[i as int]));
        lemma_debug_step(s, parts, places, keys, blob, i);
        lemma_debug_linked(s, items, debug, base, parts, places, now, i + 1);
    }
}

proof fn lemma_body_len(ci: CodeItem, off: u32)
    requires
        code_item(ci, 0) is Ok,
    ensures
        code_item(ci, 0)->Ok_0.len() >= 16,
        code_item(ci, off) == Ok::<Seq<u8>, DexEmitError>(with_debug(code_item(ci, 0)->Ok_0, off)),
{
    let size = insns_extent(ci.instructions@, ci.payloads@)->Ok_0;
    let stream = insn_stream(ci.instructions@, ci.payloads@, size)->Ok_0;
    container_fields_read_back(
        ci.registers_size,
        ci.ins_size,
        ci.outs_size,
        0,
        stream,
        ci.tries@,
        ci.catch_handlers@,
    );
    debug_offset_is_one_word(
        ci.registers_size,
        ci.ins_size,
        ci.outs_size,
        off,
        stream,
        ci.tries@,
        ci.catch_handlers@,
    );
}

/// The method bodies stand in a section, apart from each other.
pub open spec fn bodies_apart(s: Section, items: Map<u32, CodeItem>) -> bool {
    &&& s.remap.dom() == items.dom()
    &&& forall|key: u32| #[trigger]
        items.contains_key(key) ==> code_item(items[key], 0) is Ok && holds_at(
            s.blob,
            s.remap[key] as int,
            code_item(items[key], 0)->Ok_0,
        )
    &&& forall|a: u32, b: u32|
        #![trigger s.remap[a], s.remap[b]]
        items.contains_key(a) && items.contains_key(b) && a < b ==> apart(
            s.remap[a] as int,
            code_item(items[a], 0)->Ok_0.len(),
            s.remap[b] as int,
            code_item(items[b], 0)->Ok_0.len(),
        )
}

/// After linking, every method body stands at its place as if the place of its debug
/// info had been known from the start, if the bodies stood apart from each other.
pub proof fn bodies_apart_stay(
    s: Section,
    items: Map<u32, CodeItem>,
    debug: Map<u32, u32>,
    base: u32,
    key: u32,
)
    requires
        bodies_apart(s, items),
        items.contains_key(key),
        debug_linked(s.remap, items, debug, base, s.blob, 0) is Ok,
    ensures
        ({
            let linked = debug_linked(s.remap, items, debug, base, s.blob, 0)->Ok_0;
            let body = code_item(
                items[key],
                debug_place(items[key].debug_info_off, debug, base),
            );
            &&& body is Ok
            &&& holds_at(linked, s.remap[key] as int, body->Ok_0)
        }),
{
    let keys = sorted_keys(s.remap);
    sorted_keys_list(s.remap);
    let parts = Seq::new(keys.len(), |k: int| code_item(items[keys[k]], 0)->Ok_0);
    let places = Seq::new(
        keys.len(),
        |k: int| debug_place(items[keys[k]].debug_info_off, debug, base),
    );
    assert forall|k: int| 0 <= k < keys.len() implies items.contains_key(#[trigger] keys[k]) by {
        assert(keys.contains(keys[k]));
        assert(items.dom().contains(keys[k]));
    }
    assert forall|k: int|
        #![trigger keys[k]]
        #![trigger parts[k]]
        0 <= k < keys.len() implies parts[k].len() >= 16 && holds_at(
        s.blob,
        s.remap[keys[k]] as int,
        parts[k],
    ) by {
        assert(items.contains_key(keys[k]));
        lemma_body_len(items[keys[k]], 0);
    }
    lemma_debug_linked(s, items, debug, base, parts, places, s.blob, 0);
    assert(s.remap.dom().contains(key));
    assert(keys.contains(key));
    let m = choose|m: int| 0 <= m < keys.len() && keys[m] == key;
    lemma_body_len(items[key], places[m]);
    assert(parts[m].len() >= 16);
}

/// After linking, every method body stands at its place as if the place of its debug
/// info had been known from the start.
pub proof fn linked_bodies_stand(
    items: Map<u32, CodeItem>,
    debug: Map<u32, u32>,
    base: u32,
    key: u32,
)
    requires
        code_item_section(items) is Ok,
        items.contains_key(key),
        debug_linked(
            code_item_section(items)->Ok_0.remap,
            items,
            debug,
            base,
            code_item_section(items)->Ok_0.blob,
            0,
        ) is Ok,
    ensures
        ({
            let s = code_item_section(items)->Ok_0;
            let linked = debug_linked(s.remap, items, debug, base, s.blob, 0)->Ok_0;
            let body = code_item(
                items[key],
                debug_place(items[key].debug_info_off, debug, base),
            );
            &&& body is Ok
            &&& holds_at(linked, s.remap[key] as int, body->Ok_0)
        }),
{
    let s = code_item_section(items)->Ok_0;
    let keys = sorted_keys(items);
    let results = code_item_parts(items);
    let over = section_overflow("code_item_section", "code_item blob exceeds u32 byte offset");
    sorted_keys_list(items);
    method_bodies_are_found(items, key);
    assert forall|x: u32| #[trigger] items.contains_key(x) implies code_item(items[x], 0) is Ok
        && holds_at(s.blob, s.remap[x] as int, code_item(items[x], 0)->Ok_0) by {
        method_bodies_are_found(items, x);
    }
    assert forall|a: u32, b: u32|
        #![trigger s.remap[a], s.remap[b]]
        items.contains_key(a) && items.contains_key(b) && a < b implies apart(
        s.remap[a] as int,
        code_item(items[a], 0)->Ok_0.len(),
        s.remap[b] as int,
        code_item(items[b], 0)->Ok_0.len(),
    ) by {
        assert(keys.contains(a) && keys.contains(b));
        let j = choose|j: int| 0 <= j < keys.len() && keys[j] == a;
        let k = choose|k: int| 0 <= k < keys.len() && keys[k] == b;
        assert(j < k) by {
            if k < j {
                assert(keys[k] < keys[j]);
            }
        }
        items_stand_in_order(keys, results, 4, over, j, k);
    }
    bodies_apart_stay(s, items, debug, base, key);
}

// Strings

proof fn lemma_front_strings(dex: DexFile, config: EmitConfig)
    requires
        canonical_file(dex, config) is Ok,
    ensures
        ({
            let c = canonical_parts(dex, config);
            let n = dex.strings@.len();
            &&& c.front.string_ids == string_ids(stored(dex.strings@), n)
            &&& c.front.string_data == string_data(stored(dex.strings@), n)
            &&& c.front.string_data.len() <= u32::MAX
            &&& stored(dex.strings@).len() == n
            &&& c.front.string_ids.len() == 4 * n
        }),
{
    canonical_steps(dex, config);
    reveal(front);
    reveal(data);
    string_ids_len(stored(dex.strings@), dex.strings@.len());
}

/// A word of a lifted pool that stands in a file reads back.
pub proof fn lifted_words_read_back(out: Seq<u8>, at: int, ids: Seq<u8>, base: u32, n: nat, i: int)
    requires
        holds_at(out, at, lifted(ids, base, n)),
        0 <= i < n,
        4 * n <= ids.len(),
    ensures
        read_le32(out, at + 4 * i) == sat32(base + read_le32(ids, 4 * i)),
{
    let lift = lifted(ids, base, n);
    lifting_adds_the_base(ids, base, n, i);
    lifted_len(ids, base, n);
    assert forall|j: int| 0 <= j < lift.len() implies out[at + j] == lift[j] by {
        assert(out.subrange(at, at + lift.len())[j] == lift[j]);
    }
    assert(out[at + 4 * i] == lift[4 * i]);
    assert(out[at + (4 * i + 1)] == lift[4 * i + 1]);
    assert(out[at + (4 * i + 2)] == lift[4 * i + 2]);
    assert(out[at + (4 * i + 3)] == lift[4 * i + 3]);
}

/// In a file in the canonical layout, the place that the string pool gives for a
/// string is where its data stands in the file: the declared length, the bytes as
/// they were read, and a zero byte.
pub proof fn strings_are_found(dex: DexFile, config: EmitConfig, i: int)
    requires
        canonical_file(dex, config) is Ok,
        0 <= i < dex.strings@.len(),
    ensures
        ({
            let c = canonical_parts(dex, config);
            let out = canonical_file(dex, config)->Ok_0.bytes;
            let s = dex.strings@[i];
            holds_at(
                out,
                read_le32(out, c.places.string_ids_off + 4 * i),
                string_item(s.declared(), s.stored()),
            )
        }),
{
    let c = canonical_parts(dex, config);
    let out = canonical_file(dex, config)->Ok_0.bytes;
    let strings = stored(dex.strings@);
    let ids = c.front.string_ids;
    let base = c.places.data_off;
    let rel = read_le32(ids, 4 * i);
    let item = string_item(strings[i].0, strings[i].1);
    lemma_front_strings(dex, config);
    assert(holds_at(out, base as int, c.front.string_data) && out.len() <= u32::MAX) by {
        canonical_sections_stand(dex, config);
        canonical_header_describes_the_file(dex, config, 0);
    }
    string_ids_point_at_the_data(strings, i);
    holding_is_transitive(out, base as int, c.front.string_data, rel, item);
    assert(holds_at(out, c.places.string_ids_off as int, lifted(ids, base, dex.strings@.len())))
        by {
        canonical_pools_stand(dex, config);
        lifted_len(ids, base, dex.strings@.len());
    }
    lifted_words_read_back(
        out,
        c.places.string_ids_off as int,
        ids,
        base,
        dex.strings@.len(),
        i,
    );
    assert(item.len() > 0);
}

/// In a file in the canonical layout a string whose bytes are the encoding of its text
/// reads back: what stands at its place spells the text.
pub proof fn texts_are_found(dex: DexFile, config: EmitConfig, i: int)
    requires
        canonical_file(dex, config) is Ok,
        0 <= i < dex.strings@.len(),
        dex.strings@[i].stored() == mutf8(dex.strings@[i].text()),
    ensures
        ({
            let c = canonical_parts(dex, config);
            let out = canonical_file(dex, config)->Ok_0.bytes;
            let s = dex.strings@[i];
            let read = string_read(out, read_le32(out, c.places.string_ids_off + 4 * i));
            &&& read is Some
            &&& read->Some_0.0 == s.declared()
            &&& utf16_text(cesu8_units(read->Some_0.1, 0)) == s.text()
        }),
{
    let c = canonical_parts(dex, config);
    let out = canonical_file(dex, config)->Ok_0.bytes;
    let s = dex.strings@[i];
    strings_are_found(dex, config, i);
    assert forall|k: int| 0 <= k < s.stored().len() implies s.stored()[k] != 0 by {
        mutf8_has_no_zero_byte(s.text(), k);
    }
    string_reads_back(
        out,
        read_le32(out, c.places.string_ids_off + 4 * i),
        s.declared(),
        s.stored(),
    );
    mutf8_reads_back(s.text());
}

// Method bodies

/// In a file in the canonical layout every method body stands at the start of the
/// bodies plus its place among them, with the place of its debug info in it.
pub proof fn method_bodies_are_in_the_file(dex: DexFile, config: EmitConfig, key: u32)
    requires
        canonical_file(dex, config) is Ok,
        dex.code_items@.contains_key(key),
    ensures
        ({
            let c = canonical_parts(dex, config);
            let out = canonical_file(dex, config)->Ok_0.bytes;
            let ci = dex.code_items@[key];
            let body = code_item(
                ci,
                debug_place(ci.debug_info_off, c.front.debug.remap, c.data.bodies.debug_base),
            );
            &&& body is Ok
            &&& c.front.code.remap.contains_key(key)
            &&& holds_at(out, c.data.bodies.code_base + c.front.code.remap[key], body->Ok_0)
        }),
{
    let c = canonical_parts(dex, config);
    let out = canonical_file(dex, config)->Ok_0.bytes;
    let ci = dex.code_items@[key];
    canonical_sections_stand(dex, config);
    bodies_and_lists_are_laid_out(dex, config);
    method_bodies_are_found(dex.code_items@, key);
    linked_bodies_stand(
        dex.code_items@,
        c.front.debug.remap,
        c.data.bodies.debug_base,
        key,
    );
    let body = code_item(
        ci,
        debug_place(ci.debug_info_off, c.front.debug.remap, c.data.bodies.debug_base),
    )->Ok_0;
    holding_is_transitive(
        out,
        c.data.bodies.code_base as int,
        c.data.bodies.code,
        c.front.code.remap[key] as int,
        body,
    );
}

/// The type lists, the method bodies, their debug info and the class members of a file in
/// the canonical layout could be laid out.
pub proof fn bodies_and_lists_are_laid_out(dex: DexFile, config: EmitConfig)
    requires
        canonical_file(dex, config) is Ok,
    ensures
        ({
            let c = canonical_parts(dex, config);
            let b = c.data.bodies;
            &&& code_item_section(dex.code_items@) == Ok::<Section, DexEmitError>(c.front.code)
            &&& debug_info_section(dex.debug_info_raw_bytes@) == Ok::<Section, DexEmitError>(
                c.front.debug,
            )
            &&& type_list_section(dex.type_lists@) == Ok::<Section, DexEmitError>(c.front.lists)
            &&& debug_linked(
                c.front.code.remap,
                dex.code_items@,
                c.front.debug.remap,
                b.debug_base,
                c.front.code.blob,
                0,
            ) == Ok::<Seq<u8>, DexEmitError>(b.code)
            &&& class_data_section(dex.class_datas@, c.front.code.remap, b.code_base) == Ok::<
                Section,
                DexEmitError,
            >(b.classes)
        }),
{
    canonical_steps(dex, config);
    reveal(front);
    reveal(data);
}

/// The debug-info offset of a method body is 0, or the place in the file at which
/// its debug info stands: it never leads nowhere.
pub proof fn debug_offsets_lead_to_debug_info(dex: DexFile, config: EmitConfig, key: u32)
    requires
        canonical_file(dex, config) is Ok,
        dex.code_items@.contains_key(key),
    ensures
        ({
            let c = canonical_parts(dex, config);
            let out = canonical_file(dex, config)->Ok_0.bytes;
            let off = dex.code_items@[key].debug_info_off;
            let place = debug_place(off, c.front.debug.remap, c.data.bodies.debug_base);
            if off != 0 && dex.debug_info_raw_bytes@.contains_key(off) {
                holds_at(out, place as int, dex.debug_info_raw_bytes@[off]@)
            } else {
                place == 0
            }
        }),
{
    let c = canonical_parts(dex, config);
    let out = canonical_file(dex, config)->Ok_0.bytes;
    let off = dex.code_items@[key].debug_info_off;
    canonical_sections_stand(dex, config);
    canonical_header_describes_the_file(dex, config, 0);
    bodies_and_lists_are_laid_out(dex, config);
    if dex.debug_info_raw_bytes@.contains_key(off) {
        debug_infos_are_found(dex.debug_info_raw_bytes@, off);
        holding_is_transitive(
            out,
            c.data.bodies.debug_base as int,
            c.front.debug.blob,
            c.front.debug.remap[off] as int,
            dex.debug_info_raw_bytes@[off]@,
        );
    } else {
        section_keys(
            dex.debug_info_raw_bytes@,
            debug_info_parts(dex.debug_info_raw_bytes@),
            1,
            section_overflow("debug_info_section", "debug_info blob exceeds u32 byte offset"),
        );
    }
}

// Prototypes and classes

proof fn lemma_proto_moved_at(
    protos: Seq<ProtoIdItem>,
    lists: Link,
    i: nat,
    acc: Seq<ProtoIdItem>,
    j: int,
)
    requires
        acc.len() == i <= protos.len(),
        0 <= j < protos.len(),
        protos_moved(protos, lists, i, acc) is Ok,
        forall|k: int|
            0 <= k < i ==> proto_moved(protos[k], lists) == Ok::<ProtoIdItem, DexEmitError>(
                #[trigger] acc[k],
            ),
    ensures
        ({
            let moved = protos_moved(protos, lists, i, acc)->Ok_0;
            &&& moved.len() == protos.len()
            &&& proto_moved(protos[j], lists) == Ok::<ProtoIdItem, DexEmitError>(moved[j])
        }),
    decreases protos.len() - i,
{
    if i < protos.len() {
        let p = proto_moved(protos[i as int], lists)->Ok_0;
        lemma_proto_moved_at(protos, lists, i + 1, acc.push(p), j);
    }
}

proof fn lemma_class_moved_at(
    classes: Seq<ClassDefItem>,
    to: Links,
    i: nat,
    acc: Seq<ClassDefItem>,
    j: int,
)
    requires
        acc.len() == i <= classes.len(),
        0 <= j < classes.len(),
        classes_moved(classes, to, i, acc) is Ok,
        forall|k: int|
            0 <= k < i ==> class_moved(classes[k], to) == Ok::<ClassDefItem, DexEmitError>(
                #[trigger] acc[k],
            ),
    ensures
        ({
            let moved = classes_moved(classes, to, i, acc)->Ok_0;
            &&& moved.len() == classes.len()
            &&& class_moved(classes[j], to) == Ok::<ClassDefItem, DexEmitError>(moved[j])
        }),
    decreases classes.len() - i,
{
    if i < classes.len() {
        let c = class_moved(classes[i as int], to)->Ok_0;
        lemma_class_moved_at(classes, to, i + 1, acc.push(c), j);
    }
}

/// Wherever the linked prototypes stand, every one reads back, its parameter list moved.
pub proof fn linked_protos_read_back(
    out: Seq<u8>,
    at: int,
    protos: Seq<ProtoIdItem>,
    lists: Link,
    j: int,
)
    requires
        linked_protos(protos, lists) is Ok,
        holds_at(out, at, linked_protos(protos, lists)->Ok_0),
        0 <= j < protos.len(),
    ensures
        proto_moved(protos[j], lists) == Ok::<ProtoIdItem, DexEmitError>(
            proto_read(out, at + 12 * j),
        ),
{
    reveal(linked_protos);
    let moved = protos_moved(protos, lists, 0, Seq::empty())->Ok_0;
    lemma_proto_moved_at(protos, lists, 0, Seq::empty(), j);
    protos_read_back(out, at, moved, j);
}

/// Wherever the linked classes stand, every one reads back, its offsets moved.
pub proof fn linked_classes_read_back(
    out: Seq<u8>,
    at: int,
    classes: Seq<ClassDefItem>,
    to: Links,
    j: int,
)
    requires
        linked_classes(classes, to) is Ok,
        holds_at(out, at, linked_classes(classes, to)->Ok_0),
        0 <= j < classes.len(),
    ensures
        class_moved(classes[j], to) == Ok::<ClassDefItem, DexEmitError>(
            class_read(out, at + 32 * j),
        ),
{
    reveal(linked_classes);
    let moved = classes_moved(classes, to, 0, Seq::empty())->Ok_0;
    lemma_class_moved_at(classes, to, 0, Seq::empty(), j);
    classes_read_back(out, at, moved, j);
}

/// In a file in the canonical layout every prototype reads back, its parameter list
/// moved to where the lists now are.
pub proof fn protos_are_found(dex: DexFile, config: EmitConfig, j: int)
    requires
        canonical_file(dex, config) is Ok,
        0 <= j < dex.protos@.len(),
    ensures
        ({
            let c = canonical_parts(dex, config);
            let out = canonical_file(dex, config)->Ok_0.bytes;
            proto_moved(dex.protos@[j], data_links(c.front, c.data).lists) == Ok::<
                ProtoIdItem,
                DexEmitError,
            >(proto_read(out, c.places.proto_ids_off + 12 * j))
        }),
{
    let c = canonical_parts(dex, config);
    let out = canonical_file(dex, config)->Ok_0.bytes;
    let lists = data_links(c.front, c.data).lists;
    canonical_pools_stand(dex, config);
    canonical_links(dex, config);
    linked_pools_len(dex.protos@, dex.class_defs@, data_links(c.front, c.data));
    linked_protos_read_back(out, c.places.proto_ids_off as int, dex.protos@, lists, j);
}

/// In a file in the canonical layout every class definition reads back, its offsets
/// moved to where the sections now are.
pub proof fn classes_are_found(dex: DexFile, config: EmitConfig, j: int)
    requires
        canonical_file(dex, config) is Ok,
        0 <= j < dex.class_defs@.len(),
    ensures
        ({
            let c = canonical_parts(dex, config);
            let out = canonical_file(dex, config)->Ok_0.bytes;
            class_moved(dex.class_defs@[j], data_links(c.front, c.data)) == Ok::<
                ClassDefItem,
                DexEmitError,
            >(class_read(out, c.places.class_defs_off + 32 * j))
        }),
{
    let c = canonical_parts(dex, config);
    let out = canonical_file(dex, config)->Ok_0.bytes;
    let to = data_links(c.front, c.data);
    canonical_pools_stand(dex, config);
    canonical_links(dex, config);
    linked_pools_len(dex.protos@, dex.class_defs@, to);
    linked_classes_read_back(out, c.places.class_defs_off as int, dex.class_defs@, to, j);
}

/// The encoded arrays and the annotation directories of a file in the canonical layout
/// could be laid out.
pub proof fn arrays_and_directories_are_laid_out(dex: DexFile, config: EmitConfig)
    requires
        canonical_file(dex, config) is Ok,
    ensures
        ({
            let c = canonical_parts(dex, config);
            let n = c.data.notes;
            &&& arrays_of(dex, config) == Ok::<Section, DexEmitError>(c.data.tail.arrays)
            &&& annotation_directory_section(
                dex.annotations@,
                (Moved {
                    set_base: n.set_base,
                    set_remap: n.sets.remap,
                    list_base: n.ref_base,
                    list_remap: n.refs.remap,
                }),
            ) == Ok::<Section, DexEmitError>(n.dirs)
        }),
{
    canonical_steps(dex, config);
    reveal(data);
}

/// The offsets of a class definition in a file in the canonical layout lead to its
/// members, its interfaces, its annotations and its static values; one that was 0 is
/// 0 still.
pub proof fn class_offsets_lead_to_sections(dex: DexFile, config: EmitConfig, j: int)
    requires
        canonical_file(dex, config) is Ok,
        0 <= j < dex.class_defs@.len(),
    ensures
        ({
            let c = canonical_parts(dex, config);
            let b = c.data.bodies;
            let n = c.data.notes;
            let out = canonical_file(dex, config)->Ok_0.bytes;
            let was = dex.class_defs@[j];
            let now = class_read(out, c.places.class_defs_off + 32 * j);
            let to = Moved {
                set_base: n.set_base,
                set_remap: n.sets.remap,
                list_base: n.ref_base,
                list_remap: n.refs.remap,
            };
            &&& leads(
                out,
                was.class_data_off,
                now.class_data_off,
                class_data_part(dex.class_datas@[was.class_data_off], c.front.code.remap, b.code_base),
            )
            &&& leads(
                out,
                was.interfaces_off,
                now.interfaces_off,
                type_list_part(
                    dex.type_lists@[was.interfaces_off]@,
                    last_key(dex.type_lists@, was.interfaces_off),
                ),
            )
            &&& leads(
                out,
                was.annotations_off,
                now.annotations_off,
                directory_part(dex.annotations@[was.annotations_off], to, false),
            )
            &&& leads(
                out,
                was.static_values_off,
                now.static_values_off,
                array_written(
                    dex.encoded_arrays@[was.static_values_off]@,
                    recorded_widths(
                        if config.preserve_encoded_value_width {
                            Some(dex.encoded_array_widths@)
                        } else {
                            None
                        },
                        was.static_values_off,
                    ),
                ).result(),
            )
        }),
{
    let c = canonical_parts(dex, config);
    let out = canonical_file(dex, config)->Ok_0.bytes;
    let was = dex.class_defs@[j];
    let n = c.data.notes;
    let t = c.data.tail;
    let to = Moved {
        set_base: n.set_base,
        set_remap: n.sets.remap,
        list_base: n.ref_base,
        list_remap: n.refs.remap,
    };
    let widths = if config.preserve_encoded_value_width {
        Some(dex.encoded_array_widths@)
    } else {
        None
    };
    classes_are_found(dex, config, j);
    canonical_sections_stand(dex, config);
    bodies_and_lists_are_laid_out(dex, config);
    arrays_and_directories_are_laid_out(dex, config);
    let b = c.data.bodies;
    if was.class_data_off != 0 {
        let key = was.class_data_off;
        section_keys(dex.class_datas@, class_data_parts(dex.class_datas@, c.front.code.remap, b.code_base), 1, section_overflow("class_data_section", "class_data blob exceeds u32 byte offset"));
        class_members_are_found(dex.class_datas@, c.front.code.remap, b.code_base, key);
        let part = class_data_part(dex.class_datas@[key], c.front.code.remap, b.code_base)->Ok_0;
        holding_is_transitive(out, b.class_base as int, b.classes.blob, b.classes.remap[key] as int, part);
    }
    if was.interfaces_off != 0 {
        let key = was.interfaces_off;
        section_keys(dex.type_lists@, type_list_parts(dex.type_lists@), 1, section_overflow("type_list_section", "type_list blob exceeds u32 byte offset"));
        type_lists_are_found(dex.type_lists@, key);
        let part = type_list_part(dex.type_lists@[key]@, last_key(dex.type_lists@, key))->Ok_0;
        holding_is_transitive(out, t.list_base as int, c.front.lists.blob, c.front.lists.remap[key] as int, part);
    }
    if was.annotations_off != 0 {
        let key = was.annotations_off;
        section_keys(dex.annotations@, annotation_directory_parts(dex.annotations@, to), 4, section_overflow("annotation_directory_section", "annotation_directory blob exceeds u32 byte offset"));
        directories_are_found(dex.annotations@, to, key);
        let part = directory_part(dex.annotations@[key], to, false)->Ok_0;
        holding_is_transitive(out, n.dir_base as int, n.dirs.blob, n.dirs.remap[key] as int, part);
    }
    if was.static_values_off != 0 {
        let key = was.static_values_off;
        section_keys(dex.encoded_arrays@, encoded_array_parts(dex.encoded_arrays@, widths), 1, section_overflow("encoded_array_section", "encoded_array blob exceeds u32 byte offset"));
        encoded_arrays_are_found(dex.encoded_arrays@, widths, key);
        let part = array_written(dex.encoded_arrays@[key]@, recorded_widths(widths, key)).result()->Ok_0;
        holding_is_transitive(out, t.array_base as int, t.arrays.blob, t.arrays.remap[key] as int, part);
    }
}

/// An offset that was 0 is 0, and any other leads to `part`.
pub open spec fn leads(
    out: Seq<u8>,
    was: u32,
    now: u32,
    part: Result<Seq<u8>, DexEmitError>,
) -> bool {
    if was == 0 {
        now == 0
    } else {
        part is Ok && holds_at(out, now as int, part->Ok_0)
    }
}

/// A section has a place for just the items that it was made of.
pub proof fn section_keys<V>(
    items: Map<u32, V>,
    parts: Seq<Result<Seq<u8>, DexEmitError>>,
    align: nat,
    over: DexEmitError,
)
    requires
        section(sorted_keys(items), parts, align, over) is Ok,
        parts.len() == sorted_keys(items).len(),
    ensures
        section(sorted_keys(items), parts, align, over)->Ok_0.remap.dom() == items.dom(),
{
    let keys = sorted_keys(items);
    sorted_keys_list(items);
    if keys.len() > 0 {
        items_stand_in_order(keys, parts, align, over, 0, 0);
    } else {
        assert(items.dom() =~= Set::empty()) by {
            assert forall|x: u32| !items.contains_key(x) by {
                assert(!keys.contains(x));
            }
        }
    }
}

// Members

proof fn lemma_method_moved_at(
    methods: Seq<EncodedMethod>,
    remap: Map<u32, u32>,
    base: u32,
    i: nat,
    acc: Seq<EncodedMethod>,
    j: int,
)
    requires
        acc.len() == i <= methods.len(),
        0 <= j < methods.len(),
        methods_moved(methods, remap, base, i, acc) is Ok,
        j < i ==> moved_to(methods[j], acc[j], remap, base),
    ensures
        ({
            let moved = methods_moved(methods, remap, base, i, acc)->Ok_0;
            &&& moved.len() == methods.len()
            &&& moved_to(methods[j], moved[j], remap, base)
        }),
    decreases methods.len() - i,
{
    if i < methods.len() {
        let m = methods[i as int];
        let code_off = resolved(
            m.code_off,
            base,
            remap,
            "encoded_method.code_off references code_item not in DexFile.code_items",
            "class_data.code_off",
            "remapped code_off exceeds u32",
        )->Ok_0;
        lemma_method_moved_at(
            methods,
            remap,
            base,
            i + 1,
            acc.push(
                EncodedMethod {
                    method_idx: m.method_idx,
                    access_flags: m.access_flags,
                    code_off,
                },
            ),
            j,
        );
    }
}

/// The same method, its body moved.
spec fn moved_to(was: EncodedMethod, now: EncodedMethod, remap: Map<u32, u32>, base: u32) -> bool {
    &&& now.method_idx == was.method_idx
    &&& now.access_flags == was.access_flags
    &&& if was.code_off == 0 {
        now.code_off == 0
    } else {
        remap.contains_key(was.code_off) && now.code_off == base + remap[was.code_off]
    }
}

/// The members of a class as they are read in a file in the canonical layout.
pub open spec fn members_in_the_file(dex: DexFile, config: EmitConfig, key: u32) -> Members {
    let c = canonical_parts(dex, config);
    let out = canonical_file(dex, config)->Ok_0.bytes;
    let at = c.data.bodies.class_base + c.data.bodies.classes.remap[key];
    members_read(out.skip(at))->Some_0.0
}

/// In a file in the canonical layout the members of a class stand at their place.
pub proof fn members_stand(dex: DexFile, config: EmitConfig, key: u32)
    requires
        canonical_file(dex, config) is Ok,
        dex.class_datas@.contains_key(key),
    ensures
        ({
            let c = canonical_parts(dex, config);
            let b = c.data.bodies;
            let part = class_data_part(
                dex.class_datas@[key],
                c.front.code.remap,
                b.code_base,
            );
            &&& part is Ok
            &&& holds_at(
                canonical_file(dex, config)->Ok_0.bytes,
                b.class_base + b.classes.remap[key],
                part->Ok_0,
            )
        }),
{
    let c = canonical_parts(dex, config);
    let b = c.data.bodies;
    canonical_sections_stand(dex, config);
    bodies_and_lists_are_laid_out(dex, config);
    class_members_are_found(dex.class_datas@, c.front.code.remap, b.code_base, key);
    holding_is_transitive(
        canonical_file(dex, config)->Ok_0.bytes,
        b.class_base as int,
        b.classes.blob,
        b.classes.remap[key] as int,
        class_data_part(dex.class_datas@[key], c.front.code.remap, b.code_base)->Ok_0,
    );
}

proof fn lemma_class_data_reads(cd: ClassData, remap: Map<u32, u32>, base: u32, rest: Seq<u8>)
    requires
        class_data_part(cd, remap, base) is Ok,
    ensures
        ({
            let direct = methods_moved(cd.direct_methods@, remap, base, 0, Seq::empty());
            let virt = methods_moved(cd.virtual_methods@, remap, base, 0, Seq::empty());
            &&& direct is Ok
            &&& virt is Ok
            &&& members_read(class_data_part(cd, remap, base)->Ok_0 + rest) == Some(
                (
                    Members {
                        static_fields: cd.static_fields@,
                        instance_fields: cd.instance_fields@,
                        direct_methods: direct->Ok_0,
                        virtual_methods: virt->Ok_0,
                    },
                    rest,
                ),
            )
        }),
{
    let direct = methods_moved(cd.direct_methods@, remap, base, 0, Seq::empty())->Ok_0;
    let virt = methods_moved(cd.virtual_methods@, remap, base, 0, Seq::empty())->Ok_0;
    class_data_reads_back(cd.static_fields@, cd.instance_fields@, direct, virt, rest);
}

proof fn lemma_members(dex: DexFile, config: EmitConfig, key: u32)
    requires
        canonical_file(dex, config) is Ok,
        dex.class_datas@.contains_key(key),
    ensures
        ({
            let c = canonical_parts(dex, config);
            let out = canonical_file(dex, config)->Ok_0.bytes;
            let cd = dex.class_datas@[key];
            let remap = c.front.code.remap;
            let base = c.data.bodies.code_base;
            let direct = methods_moved(cd.direct_methods@, remap, base, 0, Seq::empty());
            let virt = methods_moved(cd.virtual_methods@, remap, base, 0, Seq::empty());
            &&& direct is Ok
            &&& virt is Ok
            &&& members_read(
                out.skip(c.data.bodies.class_base + c.data.bodies.classes.remap[key]),
            ) is Some
            &&& members_in_the_file(dex, config, key) == (Members {
                static_fields: cd.static_fields@,
                instance_fields: cd.instance_fields@,
                direct_methods: direct->Ok_0,
                virtual_methods: virt->Ok_0,
            })
        }),
{
    let c = canonical_parts(dex, config);
    let b = c.data.bodies;
    let out = canonical_file(dex, config)->Ok_0.bytes;
    let cd = dex.class_datas@[key];
    let at = b.class_base + b.classes.remap[key];
    members_stand(dex, config, key);
    let part = class_data_part(cd, c.front.code.remap, b.code_base)->Ok_0;
    let rest = out.skip(at + part.len());
    rest_after(out, at, part);
    lemma_class_data_reads(cd, c.front.code.remap, b.code_base, rest);
}

/// The body of a method as it stands in a file in the canonical layout.
pub open spec fn body_in_the_file(dex: DexFile, config: EmitConfig, off: u32) -> Result<
    Seq<u8>,
    DexEmitError,
> {
    let c = canonical_parts(dex, config);
    let ci = dex.code_items@[off];
    code_item(
        ci,
        debug_place(ci.debug_info_off, c.front.debug.remap, c.data.bodies.debug_base),
    )
}

proof fn lemma_body_dom(dex: DexFile, config: EmitConfig, off: u32)
    requires
        canonical_file(dex, config) is Ok,
        canonical_parts(dex, config).front.code.remap.contains_key(off),
    ensures
        dex.code_items@.contains_key(off),
{
    bodies_and_lists_are_laid_out(dex, config);
    section_keys(
        dex.code_items@,
        code_item_parts(dex.code_items@),
        4,
        section_overflow("code_item_section", "code_item blob exceeds u32 byte offset"),
    );
    assert(dex.code_items@.dom().contains(off));
}

/// In a file in the canonical layout the members of a class read back: its fields as
/// they were, and its methods with offsets that lead to their bodies.
pub proof fn members_are_found(dex: DexFile, config: EmitConfig, key: u32, direct: bool, j: int)
    requires
        canonical_file(dex, config) is Ok,
        dex.class_datas@.contains_key(key),
        0 <= j < (if direct {
            dex.class_datas@[key].direct_methods@
        } else {
            dex.class_datas@[key].virtual_methods@
        }).len(),
    ensures
        ({
            let out = canonical_file(dex, config)->Ok_0.bytes;
            let cd = dex.class_datas@[key];
            let read = members_in_the_file(dex, config, key);
            let was = if direct {
                cd.direct_methods@
            } else {
                cd.virtual_methods@
            };
            let now = if direct {
                read.direct_methods
            } else {
                read.virtual_methods
            };
            &&& read.static_fields == cd.static_fields@
            &&& read.instance_fields == cd.instance_fields@
            &&& now.len() == was.len()
            &&& now[j].method_idx == was[j].method_idx
            &&& now[j].access_flags == was[j].access_flags
            &&& leads(
                out,
                was[j].code_off,
                now[j].code_off,
                body_in_the_file(dex, config, was[j].code_off),
            )
        }),
{
    let c = canonical_parts(dex, config);
    let cd = dex.class_datas@[key];
    let was = if direct {
        cd.direct_methods@
    } else {
        cd.virtual_methods@
    };
    lemma_members(dex, config, key);
    lemma_method_moved_at(was, c.front.code.remap, c.data.bodies.code_base, 0, Seq::empty(), j);
    if was[j].code_off != 0 {
        lemma_body_dom(dex, config, was[j].code_off);
        method_bodies_are_in_the_file(dex, config, was[j].code_off);
    }
}

} // verus!
