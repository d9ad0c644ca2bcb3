//! The new places of what a file holds come in the order of the old ones.
use vstd::prelude::*;

use crate::collections::{sorted_keys, sorted_keys_list};
use crate::decode::{ClassData, CodeItem};
use crate::dex_file::DexFile;
use crate::emit_dex::assembly::canonical_file;
use crate::emit_dex::code_item::{code_item, insn_stream, insns_extent};
use crate::emit_dex::config::EmitConfig;
use crate::emit_dex::directory::annotation_directory_parts;
use crate::emit_dex::error::DexEmitError;
use crate::emit_dex::laws::code::container_fields_read_back;
use crate::emit_dex::laws::file::canonical_parts;
use crate::emit_dex::laws::links::{
    arrays_and_directories_are_laid_out, bodies_and_lists_are_laid_out,
};
use crate::emit_dex::laws::notes::{annotations_are_laid_out, sets_moved};
use crate::emit_dex::laws::round_trip::new_places;
use crate::emit_dex::laws::says::shifted;
use crate::emit_dex::laws::sections::{items_stand_in_order, type_list_len};
use crate::emit_dex::sections::{
    annotation_item_parts, annotation_set_parts, annotation_set_ref_list_parts, class_data_part,
    class_data_parts, code_item_parts, debug_info_parts, encoded_array_parts, section,
    section_overflow, type_list_parts,
};
use crate::leb128::uleb_len;

verus! {

/// What comes later comes later still.
pub open spec fn order_stays(places: Map<u32, int>) -> bool {
    forall|a: u32, b: u32|
        #![trigger places[a], places[b]]
        places.contains_key(a) && places.contains_key(b) && a < b ==> places[a] < places[b]
}

/// Every part takes at least a byte.
spec fn none_empty(parts: Seq<Result<Seq<u8>, DexEmitError>>) -> bool {
    forall|k: int|
        0 <= k < parts.len() ==> ((#[trigger] parts[k]) matches Ok(part) ==> part.len() > 0)
}

proof fn lemma_order<V>(
    items: Map<u32, V>,
    parts: Seq<Result<Seq<u8>, DexEmitError>>,
    align: nat,
    over: DexEmitError,
    base: u32,
)
    requires
        section(sorted_keys(items), parts, align, over) is Ok,
        parts.len() == sorted_keys(items).len(),
        none_empty(parts),
    ensures
        order_stays(shifted(base, section(sorted_keys(items), parts, align, over)->Ok_0.remap)),
{
    let keys = sorted_keys(items);
    let s = section(keys, parts, align, over)->Ok_0;
    let places = shifted(base, s.remap);
    sorted_keys_list(items);
    assert forall|a: u32, b: u32|
        #![trigger places[a], places[b]]
        places.contains_key(a) && places.contains_key(b) && a < b implies places[a] < places[b] by {
        if keys.len() == 0 {
            assert(s.remap =~= Map::empty());
        } else {
            items_stand_in_order(keys, parts, align, over, 0, 0);
            assert(s.remap.dom().contains(a) && s.remap.dom().contains(b));
            assert(keys.contains(a) && keys.contains(b));
            let j = choose|j: int| 0 <= j < keys.len() && keys[j] == a;
            let k = choose|k: int| 0 <= k < keys.len() && keys[k] == b;
            assert(j < k) by {
                if k < j {
                    assert(keys[k] < keys[j]);
                }
            }
            items_stand_in_order(keys, parts, align, over, j, j);
            items_stand_in_order(keys, parts, align, over, j, k);
            assert(parts[j] is Ok);
        }
    }
}

proof fn lemma_body_len(ci: CodeItem)
    ensures
        code_item(ci, 0) matches Ok(part) ==> part.len() > 0,
{
    if code_item(ci, 0) is Ok {
        let size = insns_extent(ci.instructions@, ci.payloads@)->Ok_0;
        container_fields_read_back(
            ci.registers_size,
            ci.ins_size,
            ci.outs_size,
            0,
            insn_stream(ci.instructions@, ci.payloads@, size)->Ok_0,
            ci.tries@,
            ci.catch_handlers@,
        );
    }
}

proof fn lemma_members_len(cd: ClassData, remap: Map<u32, u32>, base: u32)
    ensures
        class_data_part(cd, remap, base) matches Ok(part) ==> part.len() > 0,
{
    if cd.static_fields@.len() <= u32::MAX {
        uleb_len(cd.static_fields@.len() as u32);
    }
}

proof fn lemma_code_order(dex: DexFile, config: EmitConfig)
    requires
        canonical_file(dex, config) is Ok,
    ensures
        order_stays(new_places(dex, config).lists),
        order_stays(new_places(dex, config).bodies),
        order_stays(new_places(dex, config).members),
{
    let c = canonical_parts(dex, config);
    let b = c.data.bodies;
    bodies_and_lists_are_laid_out(dex, config);
    let lists = type_list_parts(dex.type_lists@);
    assert forall|k: int| 0 <= k < lists.len() implies ((#[trigger] lists[k]) matches Ok(part)
        ==> part.len() > 0) by {
        let idxs = dex.type_lists@[sorted_keys(dex.type_lists@)[k]]@;
        if lists[k] is Ok {
            type_list_len(idxs);
        }
    }
    lemma_order(
        dex.type_lists@,
        lists,
        1,
        section_overflow("type_list_section", "type_list blob exceeds u32 byte offset"),
        c.data.tail.list_base,
    );
    let codes = code_item_parts(dex.code_items@);
    assert forall|k: int| 0 <= k < codes.len() implies ((#[trigger] codes[k]) matches Ok(part)
        ==> part.len() > 0) by {
        lemma_body_len(dex.code_items@[sorted_keys(dex.code_items@)[k]]);
    }
    lemma_order(
        dex.code_items@,
        codes,
        4,
        section_overflow("code_item_section", "code_item blob exceeds u32 byte offset"),
        b.code_base,
    );
    let members = class_data_parts(dex.class_datas@, c.front.code.remap, b.code_base);
    assert forall|k: int| 0 <= k < members.len() implies ((#[trigger] members[k]) matches Ok(part)
        ==> part.len() > 0) by {
        lemma_members_len(
            dex.class_datas@[sorted_keys(dex.class_datas@)[k]],
            c.front.code.remap,
            b.code_base,
        );
    }
    lemma_order(
        dex.class_datas@,
        members,
        1,
        section_overflow("class_data_section", "class_data blob exceeds u32 byte offset"),
        b.class_base,
    );
}

proof fn lemma_debug_order(dex: DexFile, config: EmitConfig)
    requires
        canonical_file(dex, config) is Ok,
        forall|key: u32| #[trigger]
            dex.debug_info_raw_bytes@.contains_key(key) ==> dex.debug_info_raw_bytes@[key]@.len()
                > 0,
    ensures
        order_stays(new_places(dex, config).debug),
{
    let c = canonical_parts(dex, config);
    bodies_and_lists_are_laid_out(dex, config);
    let keys = sorted_keys(dex.debug_info_raw_bytes@);
    let parts = debug_info_parts(dex.debug_info_raw_bytes@);
    sorted_keys_list(dex.debug_info_raw_bytes@);
    assert forall|k: int| 0 <= k < parts.len() implies ((#[trigger] parts[k]) matches Ok(part)
        ==> part.len() > 0) by {
        assert(keys.contains(keys[k]));
    }
    lemma_order(
        dex.debug_info_raw_bytes@,
        parts,
        1,
        section_overflow("debug_info_section", "debug_info blob exceeds u32 byte offset"),
        c.data.bodies.debug_base,
    );
}

proof fn lemma_note_order(dex: DexFile, config: EmitConfig)
    requires
        canonical_file(dex, config) is Ok,
    ensures
        order_stays(new_places(dex, config).notes),
        order_stays(new_places(dex, config).sets),
        order_stays(new_places(dex, config).set_lists),
{
    let n = canonical_parts(dex, config).data.notes;
    annotations_are_laid_out(dex, config);
    lemma_order(
        dex.annotation_items@,
        annotation_item_parts(dex.annotation_items@),
        1,
        section_overflow("annotation_item_section", "annotation_item blob exceeds u32 byte offset"),
        n.item_base,
    );
    lemma_order(
        dex.annotation_sets@,
        annotation_set_parts(dex.annotation_sets@, n.item_base, n.items.remap),
        4,
        section_overflow("annotation_set_section", "annotation_set blob exceeds u32 byte offset"),
        n.set_base,
    );
    lemma_order(
        dex.annotation_set_ref_lists@,
        annotation_set_ref_list_parts(dex.annotation_set_ref_lists@, n.set_base, n.sets.remap),
        4,
        section_overflow(
            "annotation_set_ref_list_section",
            "annotation_set_ref_list blob exceeds u32 byte offset",
        ),
        n.ref_base,
    );
}

proof fn lemma_tail_order(dex: DexFile, config: EmitConfig)
    requires
        canonical_file(dex, config) is Ok,
    ensures
        order_stays(new_places(dex, config).directories),
        order_stays(new_places(dex, config).arrays),
{
    let c = canonical_parts(dex, config);
    arrays_and_directories_are_laid_out(dex, config);
    lemma_order(
        dex.annotations@,
        annotation_directory_parts(dex.annotations@, sets_moved(c)),
        4,
        section_overflow(
            "annotation_directory_section",
            "annotation_directory blob exceeds u32 byte offset",
        ),
        c.data.notes.dir_base,
    );
    let arrays = encoded_array_parts(
        dex.encoded_arrays@,
        if config.preserve_encoded_value_width {
            Some(dex.encoded_array_widths@)
        } else {
            None
        },
    );
    assert forall|k: int| 0 <= k < arrays.len() implies ((#[trigger] arrays[k]) matches Ok(part)
        ==> part.len() > 0) by {
        let values = dex.encoded_arrays@[sorted_keys(dex.encoded_arrays@)[k]]@;
        if values.len() <= u32::MAX {
            uleb_len(values.len() as u32);
        }
    }
    lemma_order(
        dex.encoded_arrays@,
        arrays,
        1,
        section_overflow("encoded_array_section", "encoded_array blob exceeds u32 byte offset"),
        c.data.tail.array_base,
    );
}

/// In a file in the canonical layout the items of a section come in the order in which they
/// were found, and no two share a place: renumbering merges nothing. Only debug info without
/// any bytes could share its place.
pub proof fn renumbering_keeps_the_order(dex: DexFile, config: EmitConfig)
    requires
        canonical_file(dex, config) is Ok,
    ensures
        ({
            let n = new_places(dex, config);
            &&& order_stays(n.lists)
            &&& order_stays(n.bodies)
            &&& order_stays(n.members)
            &&& order_stays(n.notes)
            &&& order_stays(n.sets)
            &&& order_stays(n.set_lists)
            &&& order_stays(n.directories)
            &&& order_stays(n.arrays)
            &&& (forall|key: u32| #[trigger]
                dex.debug_info_raw_bytes@.contains_key(key)
                    ==> dex.debug_info_raw_bytes@[key]@.len() > 0) ==> order_stays(n.debug)
        }),
{
    if forall|key: u32| #[trigger]
        dex.debug_info_raw_bytes@.contains_key(key) ==> dex.debug_info_raw_bytes@[key]@.len() > 0 {
        lemma_debug_order(dex, config);
    }
    lemma_code_order(dex, config);
    lemma_note_order(dex, config);
    lemma_tail_order(dex, config);
}

} // verus!
