//! A file in the canonical layout says what was serialized: whoever reads it finds the
//! same contents, with offsets renumbered.
use vstd::prelude::*;

use crate::bytes::read_le32;
use crate::dex_file::DexFile;
use crate::emit_dex::assembly::{
    canonical_file, data_bases, data_links, file_map, joined, layout_map,
};
use crate::emit_dex::canonical::{front, stored};
use crate::emit_dex::code_item::code_item;
use crate::emit_dex::config::{strict, EmitConfig};
use crate::emit_dex::directory::{annotation_directory_parts, Labels};
use crate::emit_dex::emit::emitted_bytes;
use crate::emit_dex::error::DexEmitError;
use crate::emit_dex::laws::contents::{
    annotations_are_in_the_file, arrays_are_in_the_file, call_sites_are_in_the_file,
    fields_are_in_the_file, handles_are_in_the_file, methods_are_in_the_file, pools_are_made,
    types_are_in_the_file,
};
use crate::emit_dex::laws::file::{
    canonical_header, canonical_header_describes_the_file, canonical_links, canonical_parts,
    canonical_pools_stand, canonical_sections_stand, canonical_steps, header_words,
    linked_pools_len,
};
use crate::emit_dex::laws::links::{
    arrays_and_directories_are_laid_out, bodies_and_lists_are_laid_out, classes_are_found,
    members_stand, method_bodies_are_in_the_file, protos_are_found, section_keys, strings_are_found,
};
use crate::emit_dex::laws::notes::{
    annotations_are_laid_out, directories_stand, directory_place, set_list_place, set_lists_stand,
    set_place, sets_moved, sets_stand,
};
use crate::emit_dex::laws::place::{holding_is_transitive, holds_at};
use crate::emit_dex::laws::pools::{
    class_read, field_read, handle_read, lifted_len, method_read, proto_read,
};
use crate::emit_dex::laws::says::{
    array_says, bodies_say, body_says, calls_are_listed, calls_say, class_says, classes_say,
    directories_say, directory_says, entries_say, header_says, header_word, list_says, lists_say,
    map_read, maps_are_not_empty, members_say, moved_offsets_say, moves, note_says, notes_say,
    offsets_say, protos_say, references_say, says, sections_say, shifted, strings_say, type_says,
    types_say, NewPlaces,
};
use crate::emit_dex::laws::sections::{
    class_members_are_found, debug_infos_are_found, last_key, type_lists_are_found,
};
use crate::emit_dex::laws::values::{body_height, items_height};
use crate::emit_dex::layout::{debug_place, type_indexes, type_indexes_len};
use crate::emit_dex::map_list::map_list;
use crate::emit_dex::pools::{
    field_ids_len, method_ids_len, string_ids_len, string_item, type_ids_len, type_list,
};
use crate::emit_dex::sections::{
    annotation_item_parts, annotation_set_parts, annotation_set_ref_list_parts, class_data_parts,
    code_item_parts, debug_info_parts, encoded_array_parts, section_overflow, type_list_part,
    type_list_parts,
};

verus! {

/// The places in a file in the canonical layout.
pub open spec fn new_places(dex: DexFile, config: EmitConfig) -> NewPlaces {
    let c = canonical_parts(dex, config);
    let b = c.data.bodies;
    let n = c.data.notes;
    let t = c.data.tail;
    NewPlaces {
        lists: shifted(t.list_base, c.front.lists.remap),
        bodies: shifted(b.code_base, c.front.code.remap),
        debug: shifted(b.debug_base, c.front.debug.remap),
        members: shifted(b.class_base, b.classes.remap),
        notes: shifted(n.item_base, n.items.remap),
        sets: shifted(n.set_base, n.sets.remap),
        set_lists: shifted(n.ref_base, n.refs.remap),
        directories: shifted(n.dir_base, n.dirs.remap),
        arrays: shifted(t.array_base, t.arrays.remap),
        call_sites: c.places.call_site_ids_off as int,
        handles: c.places.method_handles_off as int,
    }
}

proof fn lemma_sizes(dex: DexFile, config: EmitConfig)
    requires
        canonical_file(dex, config) is Ok,
    ensures
        dex.strings@.len() <= u32::MAX,
        dex.type_descriptors@.len() <= u32::MAX,
        dex.protos@.len() <= u32::MAX,
        dex.fields@.len() <= u32::MAX,
        dex.methods@.len() <= u32::MAX,
        dex.class_defs@.len() <= u32::MAX,
{
    let c = canonical_parts(dex, config);
    canonical_steps(dex, config);
    canonical_header_describes_the_file(dex, config, 0);
    canonical_pools_stand(dex, config);
    canonical_links(dex, config);
    pools_are_made(dex, config);
    linked_pools_len(dex.protos@, dex.class_defs@, data_links(c.front, c.data));
    let idxs = type_indexes(dex.strings@, dex.type_descriptors@, 0, Seq::empty())->Ok_0;
    type_indexes_len(dex.strings@, dex.type_descriptors@, 0, Seq::empty());
    type_ids_len(idxs, idxs.len());
    field_ids_len(dex.fields@, 0);
    method_ids_len(dex.methods@, 0);
    assert(c.front.string_ids.len() == 4 * dex.strings@.len()) by {
        reveal(front);
        string_ids_len(stored(dex.strings@), dex.strings@.len());
    }
    lifted_len(c.front.string_ids, c.places.data_off, c.front.string_ids.len() / 4);
}

/// The header of a file in the canonical layout reads back: the sizes of the pools, and
/// where they and the map list are.
pub proof fn headers_read_back(dex: DexFile, config: EmitConfig)
    requires
        canonical_file(dex, config) is Ok,
    ensures
        ({
            let p = canonical_parts(dex, config).places;
            let out = canonical_file(dex, config)->Ok_0.bytes;
            &&& header_says(out, dex)
            &&& header_word(out, 7) == p.string_ids_off
            &&& header_word(out, 9) == p.type_ids_off
            &&& header_word(out, 11) == p.proto_ids_off
            &&& header_word(out, 13) == p.field_ids_off
            &&& header_word(out, 15) == p.method_ids_off
            &&& header_word(out, 17) == p.class_defs_off
            &&& header_word(out, 5) == canonical_parts(dex, config).data.tail.map_base
        }),
{
    let c = canonical_parts(dex, config);
    let out = canonical_file(dex, config)->Ok_0.bytes;
    let h = canonical_header(dex, c, out.len());
    lemma_sizes(dex, config);
    assert forall|i: int| 0 <= i < 20 implies header_word(out, i) == #[trigger] header_words(
        h,
    )[i] by {
        canonical_header_describes_the_file(dex, config, i);
    }
    canonical_header_describes_the_file(dex, config, 0);
    reveal(canonical_header);
    assert(out.take(8) =~= seq![0x64u8, 0x65u8, 0x78u8, 0x0Au8] + seq![
        dex.header.magic[4],
        dex.header.magic[5],
        dex.header.magic[6],
        0u8,
    ]);
    let w = header_words(h);
    assert(w[0] == out.len());
    assert(w[5] == c.data.tail.map_base);
    assert(w[6] == dex.strings@.len() && w[7] == c.places.string_ids_off);
    assert(w[8] == dex.type_descriptors@.len() && w[9] == c.places.type_ids_off);
    assert(w[10] == dex.protos@.len() && w[11] == c.places.proto_ids_off);
    assert(w[12] == dex.fields@.len() && w[13] == c.places.field_ids_off);
    assert(w[14] == dex.methods@.len() && w[15] == c.places.method_ids_off);
    assert(w[16] == dex.class_defs@.len() && w[17] == c.places.class_defs_off);
}

proof fn lemma_plain_pools(dex: DexFile, config: EmitConfig)
    requires
        canonical_file(dex, config) is Ok,
    ensures
        strings_say(canonical_file(dex, config)->Ok_0.bytes, dex),
        types_say(canonical_file(dex, config)->Ok_0.bytes, dex),
        references_say(canonical_file(dex, config)->Ok_0.bytes, dex),
{
    let out = canonical_file(dex, config)->Ok_0.bytes;
    headers_read_back(dex, config);
    lemma_sizes(dex, config);
    assert forall|i: int|
        #![trigger dex.strings@[i]]
        0 <= i < dex.strings@.len() implies holds_at(
        out,
        read_le32(out, header_word(out, 7) + 4 * i),
        string_item(dex.strings@[i].declared(), dex.strings@[i].stored()),
    ) by {
        strings_are_found(dex, config, i);
    }
    assert forall|i: int| 0 <= i < dex.type_descriptors@.len() implies #[trigger] type_says(
        out,
        dex,
        i,
    ) by {
        types_are_in_the_file(dex, config, i);
    }
    assert forall|i: int|
        #![trigger dex.fields@[i]]
        0 <= i < dex.fields@.len() implies field_read(out, header_word(out, 13) + 8 * i)
        == dex.fields@[i] by {
        fields_are_in_the_file(dex, config, i);
    }
    assert forall|i: int|
        #![trigger dex.methods@[i]]
        0 <= i < dex.methods@.len() implies method_read(out, header_word(out, 15) + 8 * i)
        == dex.methods@[i] by {
        methods_are_in_the_file(dex, config, i);
    }
}

proof fn lemma_linked_pools(dex: DexFile, config: EmitConfig)
    requires
        canonical_file(dex, config) is Ok,
    ensures
        protos_say(canonical_file(dex, config)->Ok_0.bytes, dex, new_places(dex, config)),
        classes_say(canonical_file(dex, config)->Ok_0.bytes, dex, new_places(dex, config)),
{
    let n = new_places(dex, config);
    let out = canonical_file(dex, config)->Ok_0.bytes;
    headers_read_back(dex, config);
    assert forall|i: int| #![trigger dex.protos@[i]] 0 <= i < dex.protos@.len() implies {
        let was = dex.protos@[i];
        let now = proto_read(out, header_word(out, 11) + 12 * i);
        &&& now.shorty_idx == was.shorty_idx
        &&& now.return_type_idx == was.return_type_idx
        &&& moves(n.lists, was.parameters_off, now.parameters_off as int)
    } by {
        protos_are_found(dex, config, i);
    }
    assert forall|i: int| #![trigger dex.class_defs@[i]] 0 <= i < dex.class_defs@.len() implies {
        let was = dex.class_defs@[i];
        let now = class_read(out, header_word(out, 17) + 32 * i);
        &&& now.class_idx == was.class_idx
        &&& now.access_flags == was.access_flags
        &&& now.superclass_idx == was.superclass_idx
        &&& now.source_file_idx == was.source_file_idx
        &&& moves(n.lists, was.interfaces_off, now.interfaces_off as int)
        &&& moves(n.directories, was.annotations_off, now.annotations_off as int)
        &&& moves(n.members, was.class_data_off, now.class_data_off as int)
        &&& moves(n.arrays, was.static_values_off, now.static_values_off as int)
    } by {
        classes_are_found(dex, config, i);
    }
}

// Type lists

proof fn lemma_list(dex: DexFile, config: EmitConfig, key: u32)
    requires
        canonical_file(dex, config) is Ok,
        dex.type_lists@.contains_key(key),
    ensures
        new_places(dex, config).lists.contains_key(key),
        list_says(
            canonical_file(dex, config)->Ok_0.bytes,
            new_places(dex, config).lists[key],
            dex.type_lists@[key]@,
        ),
{
    let c = canonical_parts(dex, config);
    let out = canonical_file(dex, config)->Ok_0.bytes;
    let idxs = dex.type_lists@[key]@;
    let last = last_key(dex.type_lists@, key);
    canonical_sections_stand(dex, config);
    canonical_header_describes_the_file(dex, config, 0);
    bodies_and_lists_are_laid_out(dex, config);
    type_lists_are_found(dex.type_lists@, key);
    holding_is_transitive(
        out,
        c.data.tail.list_base as int,
        c.front.lists.blob,
        c.front.lists.remap[key] as int,
        type_list_part(idxs, last)->Ok_0,
    );
    lists_say(out, c.data.tail.list_base + c.front.lists.remap[key], idxs, last);
}

proof fn lemma_body_in_the_file(dex: DexFile, config: EmitConfig, key: u32)
    requires
        canonical_file(dex, config) is Ok,
        dex.code_items@.contains_key(key),
    ensures
        new_places(dex, config).bodies.contains_key(key),
        body_says(
            canonical_file(dex, config)->Ok_0.bytes,
            new_places(dex, config).bodies[key],
            dex.code_items@[key],
            new_places(dex, config).debug,
        ),
{
    let c = canonical_parts(dex, config);
    let n = new_places(dex, config);
    let out = canonical_file(dex, config)->Ok_0.bytes;
    let ci = dex.code_items@[key];
    let off = debug_place(ci.debug_info_off, c.front.debug.remap, c.data.bodies.debug_base);
    method_bodies_are_in_the_file(dex, config, key);
    if ci.debug_info_off != 0 && n.debug.contains_key(ci.debug_info_off) {
        lemma_debug_keys(dex, config);
        lemma_debug(dex, config, ci.debug_info_off);
        canonical_header_describes_the_file(dex, config, 0);
    }
    bodies_say(out, n.bodies[key], ci, off, n.debug);
}

proof fn lemma_debug_keys(dex: DexFile, config: EmitConfig)
    requires
        canonical_file(dex, config) is Ok,
    ensures
        new_places(dex, config).debug.dom() == dex.debug_info_raw_bytes@.dom(),
        new_places(dex, config).bodies.dom() == dex.code_items@.dom(),
        new_places(dex, config).lists.dom() == dex.type_lists@.dom(),
        new_places(dex, config).members.dom() == dex.class_datas@.dom(),
{
    let c = canonical_parts(dex, config);
    let n = new_places(dex, config);
    bodies_and_lists_are_laid_out(dex, config);
    section_keys(
        dex.debug_info_raw_bytes@,
        debug_info_parts(dex.debug_info_raw_bytes@),
        1,
        section_overflow("debug_info_section", "debug_info blob exceeds u32 byte offset"),
    );
    section_keys(
        dex.code_items@,
        code_item_parts(dex.code_items@),
        4,
        section_overflow("code_item_section", "code_item blob exceeds u32 byte offset"),
    );
    section_keys(
        dex.type_lists@,
        type_list_parts(dex.type_lists@),
        1,
        section_overflow("type_list_section", "type_list blob exceeds u32 byte offset"),
    );
    section_keys(
        dex.class_datas@,
        class_data_parts(dex.class_datas@, c.front.code.remap, c.data.bodies.code_base),
        1,
        section_overflow("class_data_section", "class_data blob exceeds u32 byte offset"),
    );
    assert(n.debug.dom() =~= c.front.debug.remap.dom());
    assert(n.bodies.dom() =~= c.front.code.remap.dom());
    assert(n.lists.dom() =~= c.front.lists.remap.dom());
    assert(n.members.dom() =~= c.data.bodies.classes.remap.dom());
}

proof fn lemma_debug(dex: DexFile, config: EmitConfig, key: u32)
    requires
        canonical_file(dex, config) is Ok,
        dex.debug_info_raw_bytes@.contains_key(key),
    ensures
        holds_at(
            canonical_file(dex, config)->Ok_0.bytes,
            new_places(dex, config).debug[key],
            dex.debug_info_raw_bytes@[key]@,
        ),
{
    let c = canonical_parts(dex, config);
    let out = canonical_file(dex, config)->Ok_0.bytes;
    canonical_sections_stand(dex, config);
    bodies_and_lists_are_laid_out(dex, config);
    debug_infos_are_found(dex.debug_info_raw_bytes@, key);
    holding_is_transitive(
        out,
        c.data.bodies.debug_base as int,
        c.front.debug.blob,
        c.front.debug.remap[key] as int,
        dex.debug_info_raw_bytes@[key]@,
    );
}

proof fn lemma_members(dex: DexFile, config: EmitConfig, key: u32)
    requires
        canonical_file(dex, config) is Ok,
        dex.class_datas@.contains_key(key),
    ensures
        class_says(
            canonical_file(dex, config)->Ok_0.bytes,
            new_places(dex, config).members[key],
            dex.class_datas@[key],
            new_places(dex, config).bodies,
        ),
{
    let c = canonical_parts(dex, config);
    let b = c.data.bodies;
    let out = canonical_file(dex, config)->Ok_0.bytes;
    let remap = c.front.code.remap;
    let at = b.class_base + b.classes.remap[key];
    members_stand(dex, config, key);
    members_say(out, at, dex.class_datas@[key], remap, b.code_base);
    assert(new_places(dex, config).members[key] == at) by {
        bodies_and_lists_are_laid_out(dex, config);
        class_members_are_found(dex.class_datas@, remap, b.code_base, key);
    }
}

// Annotations

proof fn lemma_note_keys(dex: DexFile, config: EmitConfig)
    requires
        canonical_file(dex, config) is Ok,
    ensures
        new_places(dex, config).notes.dom() == dex.annotation_items@.dom(),
        new_places(dex, config).sets.dom() == dex.annotation_sets@.dom(),
        new_places(dex, config).set_lists.dom() == dex.annotation_set_ref_lists@.dom(),
        new_places(dex, config).directories.dom() == dex.annotations@.dom(),
        new_places(dex, config).arrays.dom() == dex.encoded_arrays@.dom(),
{
    let c = canonical_parts(dex, config);
    let n = new_places(dex, config);
    let d = c.data.notes;
    annotations_are_laid_out(dex, config);
    arrays_and_directories_are_laid_out(dex, config);
    section_keys(
        dex.annotation_items@,
        annotation_item_parts(dex.annotation_items@),
        1,
        section_overflow("annotation_item_section", "annotation_item blob exceeds u32 byte offset"),
    );
    section_keys(
        dex.annotation_sets@,
        annotation_set_parts(dex.annotation_sets@, d.item_base, d.items.remap),
        4,
        section_overflow("annotation_set_section", "annotation_set blob exceeds u32 byte offset"),
    );
    section_keys(
        dex.annotation_set_ref_lists@,
        annotation_set_ref_list_parts(dex.annotation_set_ref_lists@, d.set_base, d.sets.remap),
        4,
        section_overflow(
            "annotation_set_ref_list_section",
            "annotation_set_ref_list blob exceeds u32 byte offset",
        ),
    );
    section_keys(
        dex.annotations@,
        annotation_directory_parts(dex.annotations@, sets_moved(c)),
        4,
        section_overflow(
            "annotation_directory_section",
            "annotation_directory blob exceeds u32 byte offset",
        ),
    );
    section_keys(
        dex.encoded_arrays@,
        encoded_array_parts(
            dex.encoded_arrays@,
            if config.preserve_encoded_value_width {
                Some(dex.encoded_array_widths@)
            } else {
                None
            },
        ),
        1,
        section_overflow("encoded_array_section", "encoded_array blob exceeds u32 byte offset"),
    );
    assert(n.notes.dom() =~= d.items.remap.dom());
    assert(n.sets.dom() =~= d.sets.remap.dom());
    assert(n.set_lists.dom() =~= d.refs.remap.dom());
    assert(n.directories.dom() =~= d.dirs.remap.dom());
    assert(n.arrays.dom() =~= c.data.tail.arrays.remap.dom());
}

proof fn lemma_sets(dex: DexFile, config: EmitConfig, key: u32)
    requires
        canonical_file(dex, config) is Ok,
    ensures
        dex.annotation_sets@.contains_key(key) ==> offsets_say(
            canonical_file(dex, config)->Ok_0.bytes,
            new_places(dex, config).sets[key],
            dex.annotation_sets@[key]@,
            new_places(dex, config).notes,
        ),
        dex.annotation_set_ref_lists@.contains_key(key) ==> offsets_say(
            canonical_file(dex, config)->Ok_0.bytes,
            new_places(dex, config).set_lists[key],
            dex.annotation_set_ref_lists@[key]@,
            new_places(dex, config).sets,
        ),
{
    let c = canonical_parts(dex, config);
    let n = c.data.notes;
    let out = canonical_file(dex, config)->Ok_0.bytes;
    lemma_note_keys(dex, config);
    canonical_header_describes_the_file(dex, config, 0);
    if dex.annotation_sets@.contains_key(key) {
        assert(new_places(dex, config).sets.dom().contains(key));
        sets_stand(dex, config, key);
        moved_offsets_say(
            out,
            set_place(c, key),
            dex.annotation_sets@[key]@,
            n.item_base,
            n.items.remap,
            Labels {
                missing: "annotation_set references annotation_item not in DexFile.annotation_items",
                section: "annotation_set.annotation_off",
                context: "remapped annotation_item offset exceeds u32",
            },
        );
    }
    if dex.annotation_set_ref_lists@.contains_key(key) {
        assert(new_places(dex, config).set_lists.dom().contains(key));
        set_lists_stand(dex, config, key);
        moved_offsets_say(
            out,
            set_list_place(c, key),
            dex.annotation_set_ref_lists@[key]@,
            n.set_base,
            n.sets.remap,
            Labels {
                missing: "annotation_set_ref_list references annotation_set not in DexFile.annotation_sets",
                section: "annotation_set_ref_list.annotations_off",
                context: "remapped annotation_set offset exceeds u32",
            },
        );
    }
}

proof fn lemma_directory(dex: DexFile, config: EmitConfig, key: u32)
    requires
        canonical_file(dex, config) is Ok,
        dex.annotations@.contains_key(key),
    ensures
        directory_says(
            canonical_file(dex, config)->Ok_0.bytes,
            new_places(dex, config).directories[key],
            dex.annotations@[key],
            new_places(dex, config),
        ),
{
    let c = canonical_parts(dex, config);
    let n = new_places(dex, config);
    let out = canonical_file(dex, config)->Ok_0.bytes;
    lemma_note_keys(dex, config);
    assert(n.directories.dom().contains(key));
    directories_stand(dex, config, key);
    directories_say(
        out,
        directory_place(c, key),
        dex.annotations@[key],
        sets_moved(c),
        false,
        n,
    );
}

proof fn lemma_map_made(dex: DexFile, config: EmitConfig)
    requires
        canonical_file(dex, config) is Ok,
    ensures
        ({
            let c = canonical_parts(dex, config);
            map_list(
                file_map(dex, config, c.places, data_bases(c.data, c.places.data_off)),
                config.preserve_map_list_order,
            ) == Ok::<Seq<u8>, DexEmitError>(c.map)
        }),
{
    canonical_steps(dex, config);
    reveal(canonical_parts);
    reveal(joined);
    reveal(layout_map);
}

/// The map list of a file in the canonical layout reads back.
pub proof fn canonical_map_reads_back(dex: DexFile, config: EmitConfig)
    requires
        canonical_file(dex, config) is Ok,
    ensures
        ({
            let c = canonical_parts(dex, config);
            map_read(canonical_file(dex, config)->Ok_0.bytes) == file_map(
                dex,
                config,
                c.places,
                data_bases(c.data, c.places.data_off),
            )
        }),
{
    let c = canonical_parts(dex, config);
    let b = data_bases(c.data, c.places.data_off);
    let items = file_map(dex, config, c.places, b);
    let out = canonical_file(dex, config)->Ok_0.bytes;
    let at = c.data.tail.map_base as int;
    let any = config.preserve_map_list_order;
    headers_read_back(dex, config);
    canonical_sections_stand(dex, config);
    lemma_map_made(dex, config);
    maps_are_not_empty(dex, config, c.places, b);
    entries_say(out, at, c.map, items, any, 0);
    assert forall|i: int| 0 <= i < items.len() implies #[trigger] map_read(out)[i] == items[i] by {
        entries_say(out, at, c.map, items, any, i);
    }
    assert(map_read(out) =~= items);
}

proof fn lemma_calls(dex: DexFile, config: EmitConfig)
    requires
        canonical_file(dex, config) is Ok,
    ensures
        calls_say(canonical_file(dex, config)->Ok_0.bytes, dex, new_places(dex, config)),
{
    let n = new_places(dex, config);
    let out = canonical_file(dex, config)->Ok_0.bytes;
    lemma_note_keys(dex, config);
    assert forall|i: int|
        #![trigger dex.call_site_ids@[i]]
        0 <= i < dex.call_site_ids@.len() implies moves(
        n.arrays,
        dex.call_site_ids@[i],
        read_le32(out, n.call_sites + 4 * i),
    ) by {
        call_sites_are_in_the_file(dex, config, i);
        if dex.call_site_ids@[i] != 0 {
            assert(n.arrays.dom().contains(dex.call_site_ids@[i]));
        }
    }
    assert forall|i: int|
        #![trigger dex.method_handles@[i]]
        0 <= i < dex.method_handles@.len() implies handle_read(out, n.handles + 8 * i)
        == dex.method_handles@[i] by {
        handles_are_in_the_file(dex, config, i);
    }
    let c = canonical_parts(dex, config);
    let b = data_bases(c.data, c.places.data_off);
    canonical_map_reads_back(dex, config);
    calls_are_listed(dex, config, c.places, b);
}

proof fn lemma_sections(dex: DexFile, config: EmitConfig)
    requires
        canonical_file(dex, config) is Ok,
    ensures
        sections_say(canonical_file(dex, config)->Ok_0.bytes, dex, new_places(dex, config)),
{
    let n = new_places(dex, config);
    let out = canonical_file(dex, config)->Ok_0.bytes;
    lemma_debug_keys(dex, config);
    lemma_note_keys(dex, config);
    assert forall|key: u32| #[trigger] dex.type_lists@.contains_key(key) implies list_says(
        out,
        n.lists[key],
        dex.type_lists@[key]@,
    ) by {
        lemma_list(dex, config, key);
    }
    assert forall|key: u32| #[trigger] dex.code_items@.contains_key(key) implies body_says(
        out,
        n.bodies[key],
        dex.code_items@[key],
        n.debug,
    ) by {
        lemma_body_in_the_file(dex, config, key);
    }
    assert forall|key: u32| #[trigger]
        dex.debug_info_raw_bytes@.contains_key(key) implies holds_at(
        out,
        n.debug[key],
        dex.debug_info_raw_bytes@[key]@,
    ) by {
        lemma_debug(dex, config, key);
    }
    assert forall|key: u32| #[trigger] dex.class_datas@.contains_key(key) implies class_says(
        out,
        n.members[key],
        dex.class_datas@[key],
        n.bodies,
    ) by {
        lemma_members(dex, config, key);
    }
    assert forall|key: u32| #[trigger] dex.encoded_arrays@.contains_key(key) implies array_says(
        out,
        n.arrays[key],
        dex.encoded_arrays@[key]@,
    ) by {
        assert(n.arrays.dom().contains(key));
        arrays_are_in_the_file(dex, config, key, items_height(dex.encoded_arrays@[key]@, 0));
    }
}

proof fn lemma_notes(dex: DexFile, config: EmitConfig)
    requires
        canonical_file(dex, config) is Ok,
    ensures
        notes_say(canonical_file(dex, config)->Ok_0.bytes, dex, new_places(dex, config)),
{
    let n = new_places(dex, config);
    let out = canonical_file(dex, config)->Ok_0.bytes;
    lemma_note_keys(dex, config);
    assert forall|key: u32| #[trigger] dex.annotation_items@.contains_key(key) implies note_says(
        out,
        n.notes[key],
        dex.annotation_items@[key],
    ) by {
        assert(n.notes.dom().contains(key));
        annotations_are_in_the_file(
            dex,
            config,
            key,
            body_height(dex.annotation_items@[key].annotation),
        );
    }
    assert forall|key: u32| #[trigger] dex.annotation_sets@.contains_key(key) implies offsets_say(
        out,
        n.sets[key],
        dex.annotation_sets@[key]@,
        n.notes,
    ) by {
        lemma_sets(dex, config, key);
    }
    assert forall|key: u32| #[trigger]
        dex.annotation_set_ref_lists@.contains_key(key) implies offsets_say(
        out,
        n.set_lists[key],
        dex.annotation_set_ref_lists@[key]@,
        n.sets,
    ) by {
        lemma_sets(dex, config, key);
    }
    assert forall|key: u32| #[trigger] dex.annotations@.contains_key(key) implies directory_says(
        out,
        n.directories[key],
        dex.annotations@[key],
        n,
    ) by {
        lemma_directory(dex, config, key);
    }
}

/// A file in the canonical layout says what was serialized: all strings, types, prototypes,
/// fields, methods, classes, members, method bodies, debug info, annotations, encoded
/// arrays, type lists, call sites and method handles read back, with their offsets
/// renumbered.
pub proof fn canonical_files_say_what_was_serialized(dex: DexFile, config: EmitConfig)
    requires
        canonical_file(dex, config) is Ok,
    ensures
        says(canonical_file(dex, config)->Ok_0.bytes, dex, new_places(dex, config)),
{
    headers_read_back(dex, config);
    lemma_plain_pools(dex, config);
    lemma_linked_pools(dex, config);
    lemma_calls(dex, config);
    lemma_sections(dex, config);
    lemma_notes(dex, config);
}

/// What a file serialized with default options holds can be read back: the file says what
/// was serialized.
pub proof fn serialized_files_read_back(dex: DexFile)
    requires
        emitted_bytes(dex, strict()) is Ok,
    ensures
        says(emitted_bytes(dex, strict())->Ok_0, dex, new_places(dex, strict())),
{
    canonical_files_say_what_was_serialized(dex, strict());
}

} // verus!
