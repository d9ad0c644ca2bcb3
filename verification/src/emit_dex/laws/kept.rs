//! A file whose layout is kept says what was serialized, as far as its parts stand apart.
use vstd::prelude::*;

use crate::bytes::{le32, overlay, read_le32, zeros};
use crate::collections::{sorted_keys, sorted_keys_list};
use crate::dex_file::DexFile;
use crate::emit_dex::map_type;
use crate::emit_dex::assembly::{file_map, pool_sizes, sealed};
use crate::emit_dex::canonical::{arrays_of, call_site_places, stored};
use crate::emit_dex::code_item::code_item;
use crate::emit_dex::config::EmitConfig;
use crate::emit_dex::directory::{annotation_directory_parts, directory_part, Labels, Moved};
use crate::emit_dex::emit::emitted_bytes;
use crate::emit_dex::error::DexEmitError;
use crate::emit_dex::in_place::{
    annotation_directories_kept_parts, annotation_item_kept, annotation_items_kept_parts,
    annotation_set_kept, annotation_set_ref_list_kept, annotation_set_ref_lists_kept_parts,
    annotation_sets_kept_parts, behind, class_data_kept, class_datas_kept_parts,
    code_items_kept_parts, debug_infos_kept_parts, in_place, put_back, widths_kept,
};
use crate::emit_dex::laws::contents::type_pools_read_back;
use crate::emit_dex::laws::file::{
    header_reads_back, header_words, linked_pools_len, sealing_keeps_parts, sealing_keeps_the_rest,
};
use crate::emit_dex::laws::links::{
    bodies_apart, bodies_apart_stay, lifted_words_read_back, linked_classes_read_back,
    linked_protos_read_back, section_keys,
};
use crate::emit_dex::laws::notes::{holds_word, resolved_one_by_one, word_at};
use crate::emit_dex::laws::place::{
    apart, holding_is_transitive, holds_at, rest_after, word_carries,
};
use crate::emit_dex::laws::pools::{
    class_read, field_read, fields_read_back, handle_read, handles_read_back, keeps_clear,
    lifted_len, method_read, methods_read_back, placed_strings_stand, proto_read,
    string_ids_point_at_the_data,
};
use crate::emit_dex::laws::preserve::{
    items_apart, kept_file_has_a_header, kept_file_is_its_parts, kept_header, kept_header_stands,
    kept_parts, kept_pools_stand, kept_sections_stand, no_items_no_keys, parts_apart,
    put_back_stands, KeptParts,
};
use crate::emit_dex::laws::round_trip::{canonical_files_say_what_was_serialized, new_places};
use crate::emit_dex::laws::says::{
    annotations_say, array_says, arrays_say, bodies_say, body_says, calls_are_listed, calls_say,
    class_says, classes_say, directories_say, directory_says, entries_say, header_says, header_word,
    list_says, lists_say, map_read, maps_are_not_empty, members_say, moved_offsets_say, moves,
    note_says, notes_say, offsets_say, protos_say, references_say, says, sections_say, shifted,
    strings_say, type_says, types_say, NewPlaces,
};
use crate::emit_dex::laws::sections::{encoded_arrays_are_found, last_key, type_lists_are_found};
use crate::emit_dex::layout::{
    debug_linked, debug_place, linked_classes, linked_protos, pool_layout, type_indexes,
    type_indexes_len, PoolPlaces,
};
use crate::emit_dex::map_list::section_start;
use crate::emit_dex::pools::{
    field_ids, field_ids_len, method_handles, method_ids, method_ids_len, placed_ids_len,
    string_ids_len, string_item, type_ids, type_ids_len, words, StringPool,
};
use crate::emit_dex::preserve::{
    all_placed, bases, branches, final_string_ids, kept_classes, kept_code, kept_debug, kept_dirs,
    kept_items, kept_links, kept_map, kept_refs, kept_sets, laid_out_anew, leaves, place,
    pool_parts, pools, preserved_file, section_parts, string_pool, strings_stay, Branches, Leaves,
    Pools,
};
use crate::emit_dex::sections::{
    annotation_item_parts, annotation_set_parts, annotation_set_ref_list_parts, class_data_parts,
    code_item_parts, debug_info_parts, encoded_array_parts, recorded_widths, section,
    section_overflow, type_list_part, type_list_parts, type_list_section, Section,
};
use crate::emit_dex::widths::array_written;

verus! {

// Places

/// The places in a file whose layout is kept.
pub open spec fn kept_places(dex: DexFile, config: EmitConfig) -> NewPlaces {
    let c = kept_parts(dex, config);
    let b = c.bases;
    NewPlaces {
        lists: shifted(b.type_list, c.leaves.lists.remap),
        bodies: shifted(b.code_item, c.leaves.code.remap),
        debug: shifted(b.debug_info, c.leaves.debug.remap),
        members: shifted(b.class_data, c.branches.classes.remap),
        notes: shifted(b.annotation_item, c.leaves.items.remap),
        sets: shifted(b.annotation_set, c.branches.sets.remap),
        set_lists: shifted(b.annotation_set_ref_list, c.branches.refs.remap),
        directories: shifted(b.annotation_directory, c.branches.dirs.remap),
        arrays: shifted(b.encoded_array, c.leaves.arrays.remap),
        call_sites: c.places.call_site_ids_off as int,
        handles: c.places.method_handles_off as int,
    }
}

// Parts

/// The header, the id pools, the sections and the map list, with their places.
pub open spec fn file_parts(dex: DexFile, c: KeptParts) -> Seq<(u32, Seq<u8>)> {
    seq![(0u32, c.header(dex))] + c.pools_placed(dex) + c.sections() + seq![
        (c.bases.map_list, c.map),
    ]
}

/// No two parts have anything in common.
pub open spec fn all_apart(parts: Seq<(u32, Seq<u8>)>) -> bool {
    forall|i: int, j: int|
        #![trigger parts[i], parts[j]]
        0 <= i < j < parts.len() ==> apart(
            parts[i].0 as int,
            parts[i].1.len(),
            parts[j].0 as int,
            parts[j].1.len(),
        )
}

/// The parts stand in a file.
pub open spec fn all_stand(out: Seq<u8>, parts: Seq<(u32, Seq<u8>)>) -> bool {
    forall|k: int|
        #![trigger parts[k]]
        0 <= k < parts.len() ==> holds_at(out, parts[k].0 as int, parts[k].1)
}

proof fn lemma_part_counts(dex: DexFile, c: KeptParts)
    ensures
        c.pools_placed(dex).len() == 8,
        c.sections().len() == 10,
        ({
            let all = file_parts(dex, c);
            &&& all.len() == 20
            &&& all[0] == (0u32, c.header(dex))
            &&& forall|k: int|
                #![trigger c.pools_placed(dex)[k]]
                0 <= k < 8 ==> all[1 + k] == c.pools_placed(dex)[k]
            &&& forall|k: int| #![trigger c.sections()[k]] 0 <= k < 10 ==> all[9 + k] == c.sections()[k]
            &&& all[19] == (c.bases.map_list, c.map)
        }),
{
    reveal(pool_parts);
    reveal(section_parts);
}

proof fn lemma_all_apart(dex: DexFile, c: KeptParts)
    requires
        all_apart(file_parts(dex, c)),
    ensures
        ({
            let h = c.header(dex);
            let p = c.pools_placed(dex);
            let s = c.sections();
            let m = c.bases.map_list as int;
            &&& parts_apart(p, 0, 0, h.len())
            &&& parts_apart(s, 0, 0, h.len())
            &&& apart(m, c.map.len(), 0, h.len())
            &&& forall|k: int|
                #![trigger p[k]]
                0 <= k < 8 ==> parts_apart(p, k + 1, p[k].0 as int, p[k].1.len()) && parts_apart(
                    s,
                    0,
                    p[k].0 as int,
                    p[k].1.len(),
                ) && apart(m, c.map.len(), p[k].0 as int, p[k].1.len())
            &&& forall|k: int|
                #![trigger s[k]]
                0 <= k < 10 ==> parts_apart(s, k + 1, s[k].0 as int, s[k].1.len()) && apart(
                    m,
                    c.map.len(),
                    s[k].0 as int,
                    s[k].1.len(),
                )
        }),
{
    let all = file_parts(dex, c);
    let h = c.header(dex);
    let p = c.pools_placed(dex);
    let s = c.sections();
    let m = c.bases.map_list as int;
    lemma_part_counts(dex, c);
    assert forall|j: int| #![trigger p[j]] 0 <= j < p.len() implies apart(
        p[j].0 as int,
        p[j].1.len(),
        0,
        h.len(),
    ) by {
        assert(apart(all[0].0 as int, all[0].1.len(), all[1 + j].0 as int, all[1 + j].1.len()));
    }
    assert forall|j: int| #![trigger s[j]] 0 <= j < s.len() implies apart(
        s[j].0 as int,
        s[j].1.len(),
        0,
        h.len(),
    ) by {
        assert(apart(all[0].0 as int, all[0].1.len(), all[9 + j].0 as int, all[9 + j].1.len()));
    }
    assert(apart(all[0].0 as int, all[0].1.len(), all[19].0 as int, all[19].1.len()));
    assert forall|k: int| #![trigger p[k]] 0 <= k < 8 implies parts_apart(
        p,
        k + 1,
        p[k].0 as int,
        p[k].1.len(),
    ) && parts_apart(s, 0, p[k].0 as int, p[k].1.len()) && apart(
        m,
        c.map.len(),
        p[k].0 as int,
        p[k].1.len(),
    ) by {
        let me = all[1 + k];
        assert(me == p[k]);
        assert forall|j: int| #![trigger p[j]] k + 1 <= j < p.len() implies apart(
            p[j].0 as int,
            p[j].1.len(),
            p[k].0 as int,
            p[k].1.len(),
        ) by {
            assert(apart(me.0 as int, me.1.len(), all[1 + j].0 as int, all[1 + j].1.len()));
        }
        assert forall|j: int| #![trigger s[j]] 0 <= j < s.len() implies apart(
            s[j].0 as int,
            s[j].1.len(),
            p[k].0 as int,
            p[k].1.len(),
        ) by {
            assert(apart(me.0 as int, me.1.len(), all[9 + j].0 as int, all[9 + j].1.len()));
        }
        assert(apart(me.0 as int, me.1.len(), all[19].0 as int, all[19].1.len()));
    }
    assert forall|k: int| #![trigger s[k]] 0 <= k < 10 implies parts_apart(
        s,
        k + 1,
        s[k].0 as int,
        s[k].1.len(),
    ) && apart(m, c.map.len(), s[k].0 as int, s[k].1.len()) by {
        let me = all[9 + k];
        assert(me == s[k]);
        assert forall|j: int| #![trigger s[j]] k + 1 <= j < s.len() implies apart(
            s[j].0 as int,
            s[j].1.len(),
            s[k].0 as int,
            s[k].1.len(),
        ) by {
            assert(apart(me.0 as int, me.1.len(), all[9 + j].0 as int, all[9 + j].1.len()));
        }
        assert(apart(me.0 as int, me.1.len(), all[19].0 as int, all[19].1.len()));
    }
}

proof fn lemma_sealed_part(
    dex: DexFile,
    config: EmitConfig,
    whole: Seq<u8>,
    at: int,
    part: Seq<u8>,
)
    requires
        whole.len() >= 112,
        holds_at(whole, at, part),
        apart(at, part.len(), 0, 112),
    ensures
        holds_at(sealed(dex, config, whole), at, part),
{
    sealing_keeps_the_rest(dex, config, whole);
    if part.len() == 0 {
        assert(sealed(dex, config, whole).subrange(at, at) =~= part);
    } else {
        sealing_keeps_parts(dex, config, whole, at, part);
    }
}

/// In a file whose layout is kept and whose parts are apart, every id pool, every section
/// and the map list stand at their places, and the numbers of the header read back.
pub proof fn kept_parts_stand(dex: DexFile, config: EmitConfig)
    requires
        all_placed(dex),
        preserved_file(dex, config) is Ok,
        all_apart(file_parts(dex, kept_parts(dex, config))),
    ensures
        ({
            let c = kept_parts(dex, config);
            let out = preserved_file(dex, config)->Ok_0.bytes;
            &&& out.len() == c.file_size(dex)
            &&& out.take(8) == c.header(dex).take(8)
            &&& forall|i: int|
                0 <= i < 20 ==> header_word(out, i) == #[trigger] header_words(
                    kept_header(dex, c),
                )[i]
            &&& all_stand(out, c.pools_placed(dex))
            &&& all_stand(out, c.sections())
            &&& holds_at(out, c.bases.map_list as int, c.map)
        }),
{
    let c = kept_parts(dex, config);
    let h = c.header(dex);
    let p = c.pools_placed(dex);
    let s = c.sections();
    let m = c.bases.map_list;
    let size = c.file_size(dex);
    let out = preserved_file(dex, config)->Ok_0.bytes;
    let whole = c.unsealed(dex)->Ok_0;
    let l = kept_header(dex, c);
    kept_file_is_its_parts(dex, config);
    kept_file_has_a_header(dex, config);
    lemma_part_counts(dex, c);
    lemma_all_apart(dex, c);
    sealing_keeps_the_rest(dex, config, whole);
    kept_header_stands(size, h, p, s, m, c.map);
    assert(out.take(8) =~= h.take(8)) by {
        assert forall|k: int| 0 <= k < 8 implies out[k] == h[k] by {
            assert(out.take(8)[k] == whole.take(8)[k]);
            assert(whole.subrange(0, h.len() as int)[k] == h[k]);
        }
    }
    assert forall|i: int| 0 <= i < 20 implies header_word(out, i) == #[trigger] header_words(
        l,
    )[i] by {
        header_reads_back(l, i);
        word_carries(whole, 0, h, 32 + 4 * i);
        let rest = whole.skip(32);
        assert(out.skip(32) == rest);
        assert(out.skip(32)[4 * i] == rest[4 * i] && out.skip(32)[4 * i + 1] == rest[4 * i + 1]);
        assert(out.skip(32)[4 * i + 2] == rest[4 * i + 2]);
        assert(out.skip(32)[4 * i + 3] == rest[4 * i + 3]);
    }
    assert forall|k: int| #![trigger p[k]] 0 <= k < p.len() implies holds_at(
        out,
        p[k].0 as int,
        p[k].1,
    ) by {
        kept_pools_stand(size, h, p, s, m, c.map, k);
        lemma_sealed_part(dex, config, whole, p[k].0 as int, p[k].1);
    }
    assert forall|k: int| #![trigger s[k]] 0 <= k < s.len() implies holds_at(
        out,
        s[k].0 as int,
        s[k].1,
    ) by {
        kept_sections_stand(size, h, p, s, m, c.map, k);
        lemma_sealed_part(dex, config, whole, s[k].0 as int, s[k].1);
    }
    let first = s[0];
    kept_sections_stand(size, h, p, s, m, c.map, 0);
    lemma_sealed_part(dex, config, whole, m as int, c.map);
}

// Steps

/// Every step of keeping the layout succeeded where the whole did.
pub proof fn kept_steps(dex: DexFile, config: EmitConfig)
    requires
        all_placed(dex),
        preserved_file(dex, config) is Ok,
    ensures
        ({
            let c = kept_parts(dex, config);
            let links = kept_links(c.leaves, c.bases, c.branches);
            &&& pools(dex) == Ok::<Pools, DexEmitError>(c.pools)
            &&& pool_layout(
                pool_sizes(dex, c.pools.string_ids, c.pools.types, c.pools.fields, c.pools.methods),
                true,
            ) == Ok::<PoolPlaces, DexEmitError>(c.places)
            &&& leaves(dex, config) == Ok::<Leaves, DexEmitError>(c.leaves)
            &&& bases(
                dex,
                c.leaves,
                c.pools.string_data.len() > 0,
                section_start(dex.map_entries@, map_type::MAP_LIST, 0)->Some_0,
            ) == Ok::<crate::emit_dex::assembly::Bases, DexEmitError>(c.bases)
            &&& branches(dex, c.leaves, c.bases) == Ok::<Branches, DexEmitError>(c.branches)
            &&& kept_map(dex, config, c.places, c.bases) == Ok::<Seq<u8>, DexEmitError>(c.map)
            &&& linked_protos(dex.protos@, links.lists) == Ok::<Seq<u8>, DexEmitError>(c.protos)
            &&& linked_classes(dex.class_defs@, links) == Ok::<Seq<u8>, DexEmitError>(c.classes)
        }),
{
}

// Items put back

/// No two items are put back over each other.
pub open spec fn clear(
    keys: Seq<u32>,
    items: Seq<Result<Seq<u8>, DexEmitError>>,
    base: u32,
) -> bool {
    forall|k: int| #![trigger keys[k]] 0 <= k < keys.len() ==> items_apart(keys, items, base, k, k + 1)
}

proof fn lemma_put_keys(
    keys: Seq<u32>,
    items: Seq<Result<Seq<u8>, DexEmitError>>,
    base: u32,
    overrun: &'static str,
    i: nat,
    acc: Section,
    x: u32,
)
    requires
        i <= keys.len(),
        acc.remap.contains_key(x) <==> exists|j: int| 0 <= j < i && #[trigger] keys[j] == x,
        put_back(keys, items, base, overrun, i, acc) is Ok,
    ensures
        put_back(keys, items, base, overrun, i, acc)->Ok_0.remap.contains_key(x)
            <==> keys.contains(x),
    decreases keys.len() - i,
{
    if i < keys.len() {
        let n = i as int;
        let local = behind(keys[n], base);
        let now = Section {
            blob: overlay(acc.blob, local as int, items[n]->Ok_0),
            remap: acc.remap.insert(keys[n], local),
        };
        if exists|j: int| 0 <= j < i + 1 && #[trigger] keys[j] == x {
            let j = choose|j: int| 0 <= j < i + 1 && #[trigger] keys[j] == x;
            if j < i {
                assert(exists|j: int| 0 <= j < i && #[trigger] keys[j] == x);
            }
        }
        lemma_put_keys(keys, items, base, overrun, i + 1, now, x);
    }
}

/// In a section whose items are put back clear of each other, every item has a place and
/// stands there, and nothing else has a place.
pub proof fn put_back_items_stand<V>(
    items: Map<u32, V>,
    parts: Seq<Result<Seq<u8>, DexEmitError>>,
    base: u32,
    size: u32,
    overrun: &'static str,
    key: u32,
) -> (k: int)
    requires
        parts.len() == sorted_keys(items).len(),
        in_place(sorted_keys(items), parts, base, size, overrun) is Ok,
        clear(sorted_keys(items), parts, base),
    ensures
        in_place(sorted_keys(items), parts, base, size, overrun)->Ok_0.remap.dom() == items.dom(),
        items.contains_key(key) ==> {
            let s = in_place(sorted_keys(items), parts, base, size, overrun)->Ok_0;
            &&& 0 <= k < parts.len()
            &&& sorted_keys(items)[k] == key
            &&& parts[k] is Ok
            &&& s.remap[key] == behind(key, base)
            &&& holds_at(s.blob, s.remap[key] as int, parts[k]->Ok_0)
        },
{
    let keys = sorted_keys(items);
    let acc = Section { blob: zeros(size as nat), remap: Map::empty() };
    sorted_keys_list(items);
    let s = in_place(keys, parts, base, size, overrun)->Ok_0;
    assert forall|x: u32| s.remap.dom().contains(x) == items.dom().contains(x) by {
        lemma_put_keys(keys, parts, base, overrun, 0, acc, x);
        assert(keys.contains(x) <==> items.contains_key(x));
    }
    assert(s.remap.dom() =~= items.dom());
    if items.contains_key(key) {
        assert(keys.contains(key));
        let k = choose|k: int| 0 <= k < keys.len() && keys[k] == key;
        put_back_stands(keys, parts, base, overrun, 0, acc, k);
        k
    } else {
        0
    }
}

// What has to be clear

/// The strings, where they go back to where they were found, and the items of each section
/// are put back clear of each other.
pub open spec fn items_clear(dex: DexFile, config: EmitConfig, c: KeptParts) -> bool {
    let l = c.leaves;
    let b = c.bases;
    &&& strings_stay(dex) ==> forall|i: int|
        0 <= i < dex.strings@.len() ==> #[trigger] keeps_clear(
            stored(dex.strings@),
            dex.string_data_offs@,
            i,
            i + 1,
        )
    &&& clear(
        sorted_keys(dex.code_items@),
        code_items_kept_parts(dex.code_items@),
        section_start(dex.map_entries@, map_type::CODE_ITEM, 0)->Some_0,
    )
    &&& clear(
        sorted_keys(dex.debug_info_raw_bytes@),
        debug_infos_kept_parts(dex.debug_info_raw_bytes@),
        section_start(dex.map_entries@, map_type::DEBUG_INFO_ITEM, 0)->Some_0,
    )
    &&& clear(
        sorted_keys(dex.annotation_items@),
        annotation_items_kept_parts(
            dex.annotation_items@,
            dex.annotation_item_widths@,
            config.preserve_encoded_value_width,
        ),
        section_start(dex.map_entries@, map_type::ANNOTATION_ITEM, 0)->Some_0,
    )
    &&& clear(
        sorted_keys(dex.class_datas@),
        class_datas_kept_parts(
            dex.class_datas@,
            dex.raw_class_data_bytes@,
            l.code.remap,
            b.code_item,
        ),
        b.class_data,
    )
    &&& clear(
        sorted_keys(dex.annotation_sets@),
        annotation_sets_kept_parts(dex.annotation_sets@, b.annotation_item, l.items.remap),
        b.annotation_set,
    )
    &&& clear(
        sorted_keys(dex.annotation_set_ref_lists@),
        annotation_set_ref_lists_kept_parts(
            dex.annotation_set_ref_lists@,
            b.annotation_set,
            c.branches.sets.remap,
        ),
        b.annotation_set_ref_list,
    )
    &&& clear(
        sorted_keys(dex.annotations@),
        annotation_directories_kept_parts(dex.annotations@, kept_sets_moved(c)),
        b.annotation_directory,
    )
}

/// Where sets and lists of sets are in a file whose layout is kept.
pub open spec fn kept_sets_moved(c: KeptParts) -> Moved {
    Moved {
        set_base: c.bases.annotation_set,
        set_remap: c.branches.sets.remap,
        list_base: c.bases.annotation_set_ref_list,
        list_remap: c.branches.refs.remap,
    }
}

/// Class members that are written as they were read read as the members that the file has,
/// with the places of their bodies.
pub open spec fn members_read_alike(dex: DexFile, n: NewPlaces) -> bool {
    forall|key: u32, rest: Seq<u8>|
        dex.class_datas@.contains_key(key) && dex.raw_class_data_bytes@.contains_key(key)
            ==> class_says(
            #[trigger] (dex.raw_class_data_bytes@[key]@ + rest),
            0,
            dex.class_datas@[key],
            n.bodies,
        )
}

// Pools

proof fn lemma_pool_contents(dex: DexFile, config: EmitConfig)
    requires
        all_placed(dex),
        preserved_file(dex, config) is Ok,
    ensures
        ({
            let c = kept_parts(dex, config);
            let idxs = type_indexes(dex.strings@, dex.type_descriptors@, 0, Seq::empty());
            &&& string_pool(dex) == Ok::<StringPool, DexEmitError>(
                StringPool { ids: c.pools.string_ids, data: c.pools.string_data },
            )
            &&& idxs is Ok
            &&& c.pools.types == type_ids(idxs->Ok_0, idxs->Ok_0.len())
            &&& idxs->Ok_0.len() == dex.type_descriptors@.len()
            &&& field_ids(dex.fields@, 0).fault is None
            &&& c.pools.fields == field_ids(dex.fields@, 0).bytes
            &&& method_ids(dex.methods@, 0).fault is None
            &&& c.pools.methods == method_ids(dex.methods@, 0).bytes
        }),
{
    kept_steps(dex, config);
    reveal(pools);
    type_indexes_len(dex.strings@, dex.type_descriptors@, 0, Seq::empty());
}

proof fn lemma_string_pool_len(dex: DexFile, base: u32)
    requires
        string_pool(dex) is Ok,
    ensures
        string_pool(dex)->Ok_0.ids.len() == 4 * dex.strings@.len(),
        final_string_ids(dex, string_pool(dex)->Ok_0.ids, base).len() == 4 * dex.strings@.len(),
{
    let strings = stored(dex.strings@);
    let ids = string_pool(dex)->Ok_0.ids;
    if strings_stay(dex) {
        let (at, size) = place(dex, map_type::STRING_DATA_ITEM)->0;
        placed_ids_len(
            strings,
            dex.string_data_offs@,
            at,
            StringPool { ids: Seq::empty(), data: zeros(size as nat) },
            0,
        );
    } else {
        string_ids_len(strings, dex.strings@.len());
        lifted_len(ids, base, ids.len() / 4);
    }
}

/// The pools with their places, one by one.
proof fn lemma_pool_list(dex: DexFile, c: KeptParts)
    ensures
        ({
            let p = c.pools_placed(dex);
            &&& p.len() == 8
            &&& p[0] == (
                c.places.string_ids_off,
                final_string_ids(dex, c.pools.string_ids, c.bases.string_data),
            )
            &&& p[1] == (c.places.type_ids_off, c.pools.types)
            &&& p[2] == (c.places.proto_ids_off, c.protos)
            &&& p[3] == (c.places.field_ids_off, c.pools.fields)
            &&& p[4] == (c.places.method_ids_off, c.pools.methods)
            &&& p[5] == (c.places.class_defs_off, c.classes)
            &&& p[6] == (
                c.places.call_site_ids_off,
                words(c.branches.call_sites, c.branches.call_sites.len()),
            )
            &&& p[7] == (
                c.places.method_handles_off,
                method_handles(dex.method_handles@, dex.method_handles@.len()),
            )
        }),
{
    reveal(pool_parts);
}

/// The sections with their places, one by one.
proof fn lemma_section_list(c: KeptParts)
    ensures
        ({
            let s = c.sections();
            let b = c.bases;
            &&& s.len() == 10
            &&& s[0] == (b.string_data, c.pools.string_data)
            &&& s[1] == (b.type_list, c.leaves.lists.blob)
            &&& s[2] == (b.code_item, c.branches.code)
            &&& s[3] == (b.debug_info, c.leaves.debug.blob)
            &&& s[4] == (b.class_data, c.branches.classes.blob)
            &&& s[5] == (b.annotation_item, c.leaves.items.blob)
            &&& s[6] == (b.annotation_set, c.branches.sets.blob)
            &&& s[7] == (b.annotation_set_ref_list, c.branches.refs.blob)
            &&& s[8] == (b.annotation_directory, c.branches.dirs.blob)
            &&& s[9] == (b.encoded_array, c.leaves.arrays.blob)
        }),
{
    reveal(section_parts);
}

proof fn lemma_kept_sizes(dex: DexFile, config: EmitConfig)
    requires
        all_placed(dex),
        preserved_file(dex, config) is Ok,
        all_apart(file_parts(dex, kept_parts(dex, config))),
    ensures
        dex.strings@.len() <= u32::MAX,
        dex.type_descriptors@.len() <= u32::MAX,
        dex.protos@.len() <= u32::MAX,
        dex.fields@.len() <= u32::MAX,
        dex.methods@.len() <= u32::MAX,
        dex.class_defs@.len() <= u32::MAX,
{
    let c = kept_parts(dex, config);
    let p = c.pools_placed(dex);
    kept_steps(dex, config);
    kept_parts_stand(dex, config);
    lemma_pool_list(dex, c);
    lemma_pool_contents(dex, config);
    lemma_string_pool_len(dex, c.bases.string_data);
    linked_pools_len(
        dex.protos@,
        dex.class_defs@,
        kept_links(c.leaves, c.bases, c.branches),
    );
    let idxs = type_indexes(dex.strings@, dex.type_descriptors@, 0, Seq::empty())->Ok_0;
    type_ids_len(idxs, idxs.len());
    field_ids_len(dex.fields@, 0);
    method_ids_len(dex.methods@, 0);
    let (a, b, d) = (p[0], p[1], p[2]);
    let (e, f, g) = (p[3], p[4], p[5]);
}

/// The header of a file whose layout is kept reads back: the sizes of the pools, and where
/// they and the map list are.
pub proof fn kept_headers_read_back(dex: DexFile, config: EmitConfig)
    requires
        all_placed(dex),
        preserved_file(dex, config) is Ok,
        all_apart(file_parts(dex, kept_parts(dex, config))),
    ensures
        ({
            let c = kept_parts(dex, config);
            let out = preserved_file(dex, config)->Ok_0.bytes;
            &&& header_says(out, dex)
            &&& header_word(out, 5) == c.bases.map_list
            &&& header_word(out, 7) == c.places.string_ids_off
            &&& header_word(out, 9) == c.places.type_ids_off
            &&& header_word(out, 11) == c.places.proto_ids_off
            &&& header_word(out, 13) == c.places.field_ids_off
            &&& header_word(out, 15) == c.places.method_ids_off
            &&& header_word(out, 17) == c.places.class_defs_off
        }),
{
    let c = kept_parts(dex, config);
    let out = preserved_file(dex, config)->Ok_0.bytes;
    let h = kept_header(dex, c);
    kept_parts_stand(dex, config);
    kept_file_has_a_header(dex, config);
    lemma_kept_sizes(dex, config);
    header_reads_back(h, 0);
    assert(out.take(8) =~= seq![0x64u8, 0x65u8, 0x78u8, 0x0Au8] + seq![
        dex.header.magic[4],
        dex.header.magic[5],
        dex.header.magic[6],
        0u8,
    ]);
    let w = header_words(h);
    assert(w[0] == out.len());
    assert(w[5] == c.bases.map_list);
    assert(w[6] == dex.strings@.len() && w[7] == c.places.string_ids_off);
    assert(w[8] == dex.type_descriptors@.len() && w[9] == c.places.type_ids_off);
    assert(w[10] == dex.protos@.len() && w[11] == c.places.proto_ids_off);
    assert(w[12] == dex.fields@.len() && w[13] == c.places.field_ids_off);
    assert(w[14] == dex.methods@.len() && w[15] == c.places.method_ids_off);
    assert(w[16] == dex.class_defs@.len() && w[17] == c.places.class_defs_off);
}

proof fn lemma_kept_string(dex: DexFile, config: EmitConfig, i: int)
    requires
        all_placed(dex),
        preserved_file(dex, config) is Ok,
        all_apart(file_parts(dex, kept_parts(dex, config))),
        items_clear(dex, config, kept_parts(dex, config)),
        0 <= i < dex.strings@.len(),
    ensures
        ({
            let c = kept_parts(dex, config);
            let out = preserved_file(dex, config)->Ok_0.bytes;
            holds_at(
                out,
                read_le32(out, c.places.string_ids_off + 4 * i),
                string_item(dex.strings@[i].declared(), dex.strings@[i].stored()),
            )
        }),
{
    let c = kept_parts(dex, config);
    let out = preserved_file(dex, config)->Ok_0.bytes;
    let strings = stored(dex.strings@);
    let n = dex.strings@.len();
    let ids = c.pools.string_ids;
    let data = c.pools.string_data;
    let base = c.bases.string_data;
    let at = c.places.string_ids_off as int;
    let item = string_item(strings[i].0, strings[i].1);
    kept_steps(dex, config);
    kept_parts_stand(dex, config);
    lemma_pool_list(dex, c);
    lemma_section_list(c);
    lemma_pool_contents(dex, config);
    lemma_string_pool_len(dex, base);
    let (p, s) = (c.pools_placed(dex)[0], c.sections()[0]);
    assert(holds_at(out, at, final_string_ids(dex, ids, base)));
    assert(holds_at(out, base as int, data));
    assert(item.len() > 0);
    if strings_stay(dex) {
        let (start, size) = place(dex, map_type::STRING_DATA_ITEM)->0;
        assert(keeps_clear(strings, dex.string_data_offs@, i, i + 1));
        placed_strings_stand(strings, dex.string_data_offs@, start, size, i);
        assert(data.len() > 0);
        assert(base == start) by {
            reveal(bases);
        }
        word_carries(out, at, ids, 4 * i);
        holding_is_transitive(out, base as int, data, dex.string_data_offs@[i] - start, item);
    } else {
        let rel = read_le32(ids, 4 * i);
        assert(ids.len() / 4 == n);
        string_ids_point_at_the_data(strings, i);
        holding_is_transitive(out, base as int, data, rel, item);
        lifted_words_read_back(out, at, ids, base, n, i);
    }
}

proof fn lemma_kept_plain_pools(dex: DexFile, config: EmitConfig)
    requires
        all_placed(dex),
        preserved_file(dex, config) is Ok,
        all_apart(file_parts(dex, kept_parts(dex, config))),
        items_clear(dex, config, kept_parts(dex, config)),
    ensures
        strings_say(preserved_file(dex, config)->Ok_0.bytes, dex),
        types_say(preserved_file(dex, config)->Ok_0.bytes, dex),
        references_say(preserved_file(dex, config)->Ok_0.bytes, dex),
{
    let c = kept_parts(dex, config);
    let out = preserved_file(dex, config)->Ok_0.bytes;
    kept_headers_read_back(dex, config);
    kept_parts_stand(dex, config);
    lemma_kept_sizes(dex, config);
    lemma_pool_list(dex, c);
    lemma_pool_contents(dex, config);
    let (types, fields, methods) = (
        c.pools_placed(dex)[1],
        c.pools_placed(dex)[3],
        c.pools_placed(dex)[4],
    );
    assert forall|i: int|
        #![trigger dex.strings@[i]]
        0 <= i < dex.strings@.len() implies holds_at(
        out,
        read_le32(out, header_word(out, 7) + 4 * i),
        string_item(dex.strings@[i].declared(), dex.strings@[i].stored()),
    ) by {
        lemma_kept_string(dex, config, i);
    }
    assert forall|i: int| 0 <= i < dex.type_descriptors@.len() implies #[trigger] type_says(
        out,
        dex,
        i,
    ) by {
        type_pools_read_back(
            out,
            c.places.type_ids_off as int,
            dex.strings@,
            dex.type_descriptors@,
            i,
        );
    }
    assert forall|i: int|
        #![trigger dex.fields@[i]]
        0 <= i < dex.fields@.len() implies field_read(out, header_word(out, 13) + 8 * i)
        == dex.fields@[i] by {
        fields_read_back(out, c.places.field_ids_off as int, dex.fields@, i);
    }
    assert forall|i: int|
        #![trigger dex.methods@[i]]
        0 <= i < dex.methods@.len() implies method_read(out, header_word(out, 15) + 8 * i)
        == dex.methods@[i] by {
        methods_read_back(out, c.places.method_ids_off as int, dex.methods@, i);
    }
}

proof fn lemma_kept_linked_pools(dex: DexFile, config: EmitConfig)
    requires
        all_placed(dex),
        preserved_file(dex, config) is Ok,
        all_apart(file_parts(dex, kept_parts(dex, config))),
    ensures
        protos_say(preserved_file(dex, config)->Ok_0.bytes, dex, kept_places(dex, config)),
        classes_say(preserved_file(dex, config)->Ok_0.bytes, dex, kept_places(dex, config)),
{
    let c = kept_parts(dex, config);
    let n = kept_places(dex, config);
    let out = preserved_file(dex, config)->Ok_0.bytes;
    let links = kept_links(c.leaves, c.bases, c.branches);
    kept_steps(dex, config);
    kept_headers_read_back(dex, config);
    kept_parts_stand(dex, config);
    lemma_pool_list(dex, c);
    let (p, q) = (c.pools_placed(dex)[2], c.pools_placed(dex)[5]);
    assert forall|i: int| #![trigger dex.protos@[i]] 0 <= i < dex.protos@.len() implies {
        let was = dex.protos@[i];
        let now = proto_read(out, header_word(out, 11) + 12 * i);
        &&& now.shorty_idx == was.shorty_idx
        &&& now.return_type_idx == was.return_type_idx
        &&& moves(n.lists, was.parameters_off, now.parameters_off as int)
    } by {
        linked_protos_read_back(
            out,
            c.places.proto_ids_off as int,
            dex.protos@,
            links.lists,
            i,
        );
    }
    assert forall|i: int| #![trigger dex.class_defs@[i]] 0 <= i < dex.class_defs@.len() implies {
        let was = dex.class_defs@[i];
        let now = class_read(out, header_word(out, 17) + 32 * i);
        &&& now.class_idx == was.class_idx
        &&& now.access_flags == was.access_flags
        &&& now.superclass_idx == was.superclass_idx
        &&& now.source_file_idx == was.source_file_idx
        &&& moves(n.lists, was.interfaces_off, now.interfaces_off as int)
        &&& moves(n.directories, was.annotations_off, now.annotations_off as int)
        &&& moves(n.members, was.class_data_off, now.class_data_off as int)
        &&& moves(n.arrays, was.static_values_off, now.static_values_off as int)
    } by {
        linked_classes_read_back(
            out,
            c.places.class_defs_off as int,
            dex.class_defs@,
            links,
            i,
        );
    }
}

// Sections

/// The sections of a file whose layout is kept could be made.
proof fn lemma_kept_made(dex: DexFile, config: EmitConfig)
    requires
        all_placed(dex),
        preserved_file(dex, config) is Ok,
    ensures
        ({
            let c = kept_parts(dex, config);
            let l = c.leaves;
            let b = c.bases;
            let s = c.branches;
            &&& type_list_section(dex.type_lists@) == Ok::<Section, DexEmitError>(l.lists)
            &&& kept_code(dex) == Ok::<Section, DexEmitError>(l.code)
            &&& kept_debug(dex) == Ok::<Section, DexEmitError>(l.debug)
            &&& kept_items(dex, config) == Ok::<Section, DexEmitError>(l.items)
            &&& arrays_of(dex, config) == Ok::<Section, DexEmitError>(l.arrays)
            &&& debug_linked(
                l.code.remap,
                dex.code_items@,
                l.debug.remap,
                b.debug_info,
                l.code.blob,
                0,
            ) == Ok::<Seq<u8>, DexEmitError>(s.code)
            &&& kept_classes(dex, l, b) == Ok::<Section, DexEmitError>(s.classes)
            &&& kept_sets(dex, l, b) == Ok::<Section, DexEmitError>(s.sets)
            &&& kept_refs(dex, s.sets, b) == Ok::<Section, DexEmitError>(s.refs)
            &&& kept_dirs(dex, s.sets, s.refs, b) == Ok::<Section, DexEmitError>(s.dirs)
            &&& call_site_places(dex.call_site_ids@, b.encoded_array, l.arrays.remap) == Ok::<
                Seq<u32>,
                DexEmitError,
            >(s.call_sites)
        }),
{
    kept_steps(dex, config);
    reveal(leaves);
    reveal(branches);
}

proof fn lemma_some<V>(m: Map<u32, V>, key: u32)
    requires
        m.contains_key(key),
    ensures
        m.len() > 0,
{
    if m.len() == 0 {
        no_items_no_keys(m);
        sorted_keys_list(m);
        assert(sorted_keys(m).contains(key));
    }
}

proof fn lemma_none<V>(
    m: Map<u32, V>,
    parts: Seq<Result<Seq<u8>, DexEmitError>>,
    align: nat,
    over: DexEmitError,
)
    requires
        m.len() == 0,
    ensures
        section(sorted_keys(m), parts, align, over) is Ok,
        section(sorted_keys(m), parts, align, over)->Ok_0.remap.dom() == m.dom(),
{
    no_items_no_keys(m);
    sorted_keys_list(m);
    let s = section(sorted_keys(m), parts, align, over)->Ok_0;
    assert forall|x: u32| !m.dom().contains(x) by {
        assert(sorted_keys(m).contains(x) <==> m.contains_key(x));
    }
    assert(s.remap.dom() =~= m.dom());
}

proof fn lemma_kept_list(dex: DexFile, config: EmitConfig, key: u32)
    requires
        all_placed(dex),
        preserved_file(dex, config) is Ok,
        all_apart(file_parts(dex, kept_parts(dex, config))),
        dex.type_lists@.contains_key(key),
    ensures
        list_says(
            preserved_file(dex, config)->Ok_0.bytes,
            kept_places(dex, config).lists[key],
            dex.type_lists@[key]@,
        ),
{
    let c = kept_parts(dex, config);
    let out = preserved_file(dex, config)->Ok_0.bytes;
    let idxs = dex.type_lists@[key]@;
    let last = last_key(dex.type_lists@, key);
    let at = c.bases.type_list + c.leaves.lists.remap[key];
    kept_parts_stand(dex, config);
    lemma_section_list(c);
    lemma_kept_made(dex, config);
    let part = c.sections()[1];
    type_lists_are_found(dex.type_lists@, key);
    holding_is_transitive(
        out,
        c.bases.type_list as int,
        c.leaves.lists.blob,
        c.leaves.lists.remap[key] as int,
        type_list_part(idxs, last)->Ok_0,
    );
    lists_say(out, at, idxs, last);
}

proof fn lemma_kept_array(dex: DexFile, config: EmitConfig, key: u32)
    requires
        all_placed(dex),
        preserved_file(dex, config) is Ok,
        all_apart(file_parts(dex, kept_parts(dex, config))),
        dex.encoded_arrays@.contains_key(key),
    ensures
        array_says(
            preserved_file(dex, config)->Ok_0.bytes,
            kept_places(dex, config).arrays[key],
            dex.encoded_arrays@[key]@,
        ),
{
    let c = kept_parts(dex, config);
    let out = preserved_file(dex, config)->Ok_0.bytes;
    let values = dex.encoded_arrays@[key]@;
    let all = if config.preserve_encoded_value_width {
        Some(dex.encoded_array_widths@)
    } else {
        None
    };
    let widths = recorded_widths(all, key);
    let at = c.bases.encoded_array + c.leaves.arrays.remap[key];
    kept_parts_stand(dex, config);
    lemma_section_list(c);
    lemma_kept_made(dex, config);
    let part = c.sections()[9];
    encoded_arrays_are_found(dex.encoded_arrays@, all, key);
    holding_is_transitive(
        out,
        c.bases.encoded_array as int,
        c.leaves.arrays.blob,
        c.leaves.arrays.remap[key] as int,
        array_written(values, widths).bytes,
    );
    arrays_say(out, at, values, widths);
}

proof fn lemma_laid_keys(dex: DexFile, config: EmitConfig)
    requires
        all_placed(dex),
        preserved_file(dex, config) is Ok,
    ensures
        kept_places(dex, config).lists.dom() == dex.type_lists@.dom(),
        kept_places(dex, config).arrays.dom() == dex.encoded_arrays@.dom(),
{
    let c = kept_parts(dex, config);
    let n = kept_places(dex, config);
    lemma_kept_made(dex, config);
    section_keys(
        dex.type_lists@,
        type_list_parts(dex.type_lists@),
        1,
        section_overflow("type_list_section", "type_list blob exceeds u32 byte offset"),
    );
    section_keys(
        dex.encoded_arrays@,
        encoded_array_parts(
            dex.encoded_arrays@,
            if config.preserve_encoded_value_width {
                Some(dex.encoded_array_widths@)
            } else {
                None
            },
        ),
        1,
        section_overflow("encoded_array_section", "encoded_array blob exceeds u32 byte offset"),
    );
    assert(n.lists.dom() =~= c.leaves.lists.remap.dom());
    assert(n.arrays.dom() =~= c.leaves.arrays.remap.dom());
}

// Debug info and method bodies

proof fn lemma_kept_debug(dex: DexFile, config: EmitConfig, key: u32)
    requires
        all_placed(dex),
        preserved_file(dex, config) is Ok,
        all_apart(file_parts(dex, kept_parts(dex, config))),
        items_clear(dex, config, kept_parts(dex, config)),
    ensures
        kept_places(dex, config).debug.dom() == dex.debug_info_raw_bytes@.dom(),
        dex.debug_info_raw_bytes@.contains_key(key) ==> holds_at(
            preserved_file(dex, config)->Ok_0.bytes,
            kept_places(dex, config).debug[key],
            dex.debug_info_raw_bytes@[key]@,
        ),
{
    let c = kept_parts(dex, config);
    let n = kept_places(dex, config);
    let out = preserved_file(dex, config)->Ok_0.bytes;
    let items = dex.debug_info_raw_bytes@;
    kept_parts_stand(dex, config);
    lemma_section_list(c);
    lemma_kept_made(dex, config);
    let part = c.sections()[3];
    if items.len() == 0 {
        lemma_none(
            items,
            debug_info_parts(items),
            1,
            section_overflow("debug_info_section", "debug_info blob exceeds u32 byte offset"),
        );
        if items.contains_key(key) {
            lemma_some(items, key);
        }
    } else {
        let (base, size) = place(dex, map_type::DEBUG_INFO_ITEM)->0;
        let k = put_back_items_stand(
            items,
            debug_infos_kept_parts(items),
            base,
            size,
            "preserve: debug_info overruns section",
            key,
        );
        if items.contains_key(key) {
            holding_is_transitive(
                out,
                c.bases.debug_info as int,
                c.leaves.debug.blob,
                c.leaves.debug.remap[key] as int,
                items[key]@,
            );
        }
    }
    assert(n.debug.dom() =~= c.leaves.debug.remap.dom());
}

proof fn lemma_bodies_clear(dex: DexFile, config: EmitConfig)
    requires
        all_placed(dex),
        preserved_file(dex, config) is Ok,
        items_clear(dex, config, kept_parts(dex, config)),
    ensures
        kept_parts(dex, config).leaves.code.remap.dom() == dex.code_items@.dom(),
        bodies_apart(kept_parts(dex, config).leaves.code, dex.code_items@),
{
    let c = kept_parts(dex, config);
    let items = dex.code_items@;
    let s = c.leaves.code;
    let keys = sorted_keys(items);
    let parts = code_items_kept_parts(items);
    lemma_kept_made(dex, config);
    if items.len() == 0 {
        lemma_none(
            items,
            code_item_parts(items),
            4,
            section_overflow("code_item_section", "code_item blob exceeds u32 byte offset"),
        );
        assert forall|x: u32| !(#[trigger] items.contains_key(x)) by {
            if items.contains_key(x) {
                lemma_some(items, x);
            }
        }
    } else {
        let (base, size) = place(dex, map_type::CODE_ITEM)->0;
        let overrun = "preserve: code_item overruns section";
        let k = put_back_items_stand(items, parts, base, size, overrun, 0);
        assert forall|x: u32| #[trigger] items.contains_key(x) implies code_item(items[x], 0) is Ok
            && holds_at(s.blob, s.remap[x] as int, code_item(items[x], 0)->Ok_0) by {
            let k = put_back_items_stand(items, parts, base, size, overrun, x);
        }
        assert forall|a: u32, b: u32|
            #![trigger s.remap[a], s.remap[b]]
            items.contains_key(a) && items.contains_key(b) && a < b implies apart(
            s.remap[a] as int,
            code_item(items[a], 0)->Ok_0.len(),
            s.remap[b] as int,
            code_item(items[b], 0)->Ok_0.len(),
        ) by {
            let j = put_back_items_stand(items, parts, base, size, overrun, a);
            let k = put_back_items_stand(items, parts, base, size, overrun, b);
            sorted_keys_list(items);
            assert(j < k) by {
                if k < j {
                    assert(keys[k] < keys[j]);
                }
            }
            assert(items_apart(keys, parts, base, j, j + 1));
            let other = keys[k];
        }
    }
}

proof fn lemma_kept_body(dex: DexFile, config: EmitConfig, key: u32)
    requires
        all_placed(dex),
        preserved_file(dex, config) is Ok,
        all_apart(file_parts(dex, kept_parts(dex, config))),
        items_clear(dex, config, kept_parts(dex, config)),
        dex.code_items@.contains_key(key),
    ensures
        body_says(
            preserved_file(dex, config)->Ok_0.bytes,
            kept_places(dex, config).bodies[key],
            dex.code_items@[key],
            kept_places(dex, config).debug,
        ),
{
    let c = kept_parts(dex, config);
    let n = kept_places(dex, config);
    let out = preserved_file(dex, config)->Ok_0.bytes;
    let ci = dex.code_items@[key];
    let debug = c.leaves.debug.remap;
    let off = debug_place(ci.debug_info_off, debug, c.bases.debug_info);
    let body = code_item(ci, off);
    kept_parts_stand(dex, config);
    lemma_section_list(c);
    lemma_kept_made(dex, config);
    lemma_bodies_clear(dex, config);
    let part = c.sections()[2];
    bodies_apart_stay(c.leaves.code, dex.code_items@, debug, c.bases.debug_info, key);
    holding_is_transitive(
        out,
        c.bases.code_item as int,
        c.branches.code,
        c.leaves.code.remap[key] as int,
        body->Ok_0,
    );
    if ci.debug_info_off != 0 && n.debug.contains_key(ci.debug_info_off) {
        lemma_kept_debug(dex, config, ci.debug_info_off);
        assert(dex.debug_info_raw_bytes@.dom().contains(ci.debug_info_off));
    }
    assert(c.leaves.code.remap.dom().contains(key));
    bodies_say(out, n.bodies[key], ci, off, n.debug);
}

// Class members

proof fn lemma_kept_members(dex: DexFile, config: EmitConfig, key: u32)
    requires
        all_placed(dex),
        preserved_file(dex, config) is Ok,
        all_apart(file_parts(dex, kept_parts(dex, config))),
        items_clear(dex, config, kept_parts(dex, config)),
        members_read_alike(dex, kept_places(dex, config)),
    ensures
        kept_places(dex, config).members.dom() == dex.class_datas@.dom(),
        dex.class_datas@.contains_key(key) ==> class_says(
            preserved_file(dex, config)->Ok_0.bytes,
            kept_places(dex, config).members[key],
            dex.class_datas@[key],
            kept_places(dex, config).bodies,
        ),
{
    let c = kept_parts(dex, config);
    let n = kept_places(dex, config);
    let out = preserved_file(dex, config)->Ok_0.bytes;
    let items = dex.class_datas@;
    let raw = dex.raw_class_data_bytes@;
    let code = c.leaves.code.remap;
    let base = c.bases.code_item;
    kept_parts_stand(dex, config);
    lemma_section_list(c);
    lemma_kept_made(dex, config);
    let part = c.sections()[4];
    if items.len() == 0 {
        lemma_none(
            items,
            class_data_parts(items, code, base),
            1,
            section_overflow("class_data_section", "class_data blob exceeds u32 byte offset"),
        );
        if items.contains_key(key) {
            lemma_some(items, key);
        }
    } else {
        let (_, size) = place(dex, map_type::CLASS_DATA_ITEM)->0;
        let k = put_back_items_stand(
            items,
            class_datas_kept_parts(items, raw, code, base),
            c.bases.class_data,
            size,
            "preserve: class_data overruns section",
            key,
        );
        if items.contains_key(key) {
            let bytes = class_data_kept(items[key], raw, key, code, base)->Ok_0;
            let at = c.bases.class_data + c.branches.classes.remap[key];
            holding_is_transitive(
                out,
                c.bases.class_data as int,
                c.branches.classes.blob,
                c.branches.classes.remap[key] as int,
                bytes,
            );
            if raw.contains_key(key) {
                let rest = out.skip(at + bytes.len());
                rest_after(out, at, bytes);
                assert((raw[key]@ + rest).skip(0) =~= raw[key]@ + rest);
                assert(class_says(raw[key]@ + rest, 0, items[key], n.bodies));
            } else {
                members_say(out, at, items[key], code, base);
            }
            assert(c.branches.classes.remap.dom().contains(key));
        }
    }
    assert(n.members.dom() =~= c.branches.classes.remap.dom());
}

// Annotations

proof fn lemma_kept_note(dex: DexFile, config: EmitConfig, key: u32)
    requires
        all_placed(dex),
        preserved_file(dex, config) is Ok,
        all_apart(file_parts(dex, kept_parts(dex, config))),
        items_clear(dex, config, kept_parts(dex, config)),
    ensures
        kept_places(dex, config).notes.dom() == dex.annotation_items@.dom(),
        dex.annotation_items@.contains_key(key) ==> note_says(
            preserved_file(dex, config)->Ok_0.bytes,
            kept_places(dex, config).notes[key],
            dex.annotation_items@[key],
        ),
{
    let c = kept_parts(dex, config);
    let n = kept_places(dex, config);
    let out = preserved_file(dex, config)->Ok_0.bytes;
    let items = dex.annotation_items@;
    let widths = dex.annotation_item_widths@;
    let keep = config.preserve_encoded_value_width;
    kept_parts_stand(dex, config);
    lemma_section_list(c);
    lemma_kept_made(dex, config);
    let part = c.sections()[5];
    if items.len() == 0 {
        lemma_none(
            items,
            annotation_item_parts(items),
            1,
            section_overflow(
                "annotation_item_section",
                "annotation_item blob exceeds u32 byte offset",
            ),
        );
        if items.contains_key(key) {
            lemma_some(items, key);
        }
    } else {
        let (base, size) = place(dex, map_type::ANNOTATION_ITEM)->0;
        let k = put_back_items_stand(
            items,
            annotation_items_kept_parts(items, widths, keep),
            base,
            size,
            "preserve: annotation_item overruns section",
            key,
        );
        if items.contains_key(key) {
            let ws = widths_kept(widths, keep, key);
            let at = c.bases.annotation_item + c.leaves.items.remap[key];
            holding_is_transitive(
                out,
                c.bases.annotation_item as int,
                c.leaves.items.blob,
                c.leaves.items.remap[key] as int,
                annotation_item_kept(items[key], ws)->Ok_0,
            );
            annotations_say(out, at, items[key], ws);
            assert(c.leaves.items.remap.dom().contains(key));
        }
    }
    assert(n.notes.dom() =~= c.leaves.items.remap.dom());
}

proof fn lemma_kept_set(dex: DexFile, config: EmitConfig, key: u32)
    requires
        all_placed(dex),
        preserved_file(dex, config) is Ok,
        all_apart(file_parts(dex, kept_parts(dex, config))),
        items_clear(dex, config, kept_parts(dex, config)),
    ensures
        kept_places(dex, config).sets.dom() == dex.annotation_sets@.dom(),
        dex.annotation_sets@.contains_key(key) ==> offsets_say(
            preserved_file(dex, config)->Ok_0.bytes,
            kept_places(dex, config).sets[key],
            dex.annotation_sets@[key]@,
            kept_places(dex, config).notes,
        ),
{
    let c = kept_parts(dex, config);
    let n = kept_places(dex, config);
    let out = preserved_file(dex, config)->Ok_0.bytes;
    let items = dex.annotation_sets@;
    let to_base = c.bases.annotation_item;
    let to_remap = c.leaves.items.remap;
    kept_parts_stand(dex, config);
    lemma_section_list(c);
    lemma_kept_made(dex, config);
    let part = c.sections()[6];
    if items.len() == 0 {
        lemma_none(
            items,
            annotation_set_parts(items, to_base, to_remap),
            4,
            section_overflow("annotation_set_section", "annotation_set blob exceeds u32 byte offset"),
        );
        if items.contains_key(key) {
            lemma_some(items, key);
        }
    } else {
        let (_, size) = place(dex, map_type::ANNOTATION_SET_ITEM)->0;
        let k = put_back_items_stand(
            items,
            annotation_sets_kept_parts(items, to_base, to_remap),
            c.bases.annotation_set,
            size,
            "preserve: annotation_set overruns section",
            key,
        );
        if items.contains_key(key) {
            let at = c.bases.annotation_set + c.branches.sets.remap[key];
            holding_is_transitive(
                out,
                c.bases.annotation_set as int,
                c.branches.sets.blob,
                c.branches.sets.remap[key] as int,
                annotation_set_kept(items[key], to_base, to_remap)->Ok_0,
            );
            moved_offsets_say(
                out,
                at,
                items[key]@,
                to_base,
                to_remap,
                Labels {
                    missing: "annotation_set references missing annotation_item",
                    section: "annotation_set.entry",
                    context: "absolute offset overflow",
                },
            );
            assert(c.branches.sets.remap.dom().contains(key));
        }
    }
    assert(n.sets.dom() =~= c.branches.sets.remap.dom());
}

proof fn lemma_kept_set_list(dex: DexFile, config: EmitConfig, key: u32)
    requires
        all_placed(dex),
        preserved_file(dex, config) is Ok,
        all_apart(file_parts(dex, kept_parts(dex, config))),
        items_clear(dex, config, kept_parts(dex, config)),
    ensures
        kept_places(dex, config).set_lists.dom() == dex.annotation_set_ref_lists@.dom(),
        dex.annotation_set_ref_lists@.contains_key(key) ==> offsets_say(
            preserved_file(dex, config)->Ok_0.bytes,
            kept_places(dex, config).set_lists[key],
            dex.annotation_set_ref_lists@[key]@,
            kept_places(dex, config).sets,
        ),
{
    let c = kept_parts(dex, config);
    let n = kept_places(dex, config);
    let out = preserved_file(dex, config)->Ok_0.bytes;
    let items = dex.annotation_set_ref_lists@;
    let to_base = c.bases.annotation_set;
    let to_remap = c.branches.sets.remap;
    kept_parts_stand(dex, config);
    lemma_section_list(c);
    lemma_kept_made(dex, config);
    let part = c.sections()[7];
    if items.len() == 0 {
        lemma_none(
            items,
            annotation_set_ref_list_parts(items, to_base, to_remap),
            4,
            section_overflow(
                "annotation_set_ref_list_section",
                "annotation_set_ref_list blob exceeds u32 byte offset",
            ),
        );
        if items.contains_key(key) {
            lemma_some(items, key);
        }
    } else {
        let (_, size) = place(dex, map_type::ANNOTATION_SET_REF_LIST)->0;
        let k = put_back_items_stand(
            items,
            annotation_set_ref_lists_kept_parts(items, to_base, to_remap),
            c.bases.annotation_set_ref_list,
            size,
            "preserve: annotation_set_ref_list overruns section",
            key,
        );
        if items.contains_key(key) {
            let at = c.bases.annotation_set_ref_list + c.branches.refs.remap[key];
            holding_is_transitive(
                out,
                c.bases.annotation_set_ref_list as int,
                c.branches.refs.blob,
                c.branches.refs.remap[key] as int,
                annotation_set_ref_list_kept(items[key], to_base, to_remap)->Ok_0,
            );
            moved_offsets_say(
                out,
                at,
                items[key]@,
                to_base,
                to_remap,
                Labels {
                    missing: "annotation_set_ref_list references missing annotation_set",
                    section: "annotation_set_ref_list.entry",
                    context: "absolute offset overflow",
                },
            );
            assert(c.branches.refs.remap.dom().contains(key));
        }
    }
    assert(n.set_lists.dom() =~= c.branches.refs.remap.dom());
}

proof fn lemma_kept_directory(dex: DexFile, config: EmitConfig, key: u32)
    requires
        all_placed(dex),
        preserved_file(dex, config) is Ok,
        all_apart(file_parts(dex, kept_parts(dex, config))),
        items_clear(dex, config, kept_parts(dex, config)),
    ensures
        kept_places(dex, config).directories.dom() == dex.annotations@.dom(),
        dex.annotations@.contains_key(key) ==> directory_says(
            preserved_file(dex, config)->Ok_0.bytes,
            kept_places(dex, config).directories[key],
            dex.annotations@[key],
            kept_places(dex, config),
        ),
{
    let c = kept_parts(dex, config);
    let n = kept_places(dex, config);
    let out = preserved_file(dex, config)->Ok_0.bytes;
    let items = dex.annotations@;
    let to = kept_sets_moved(c);
    kept_parts_stand(dex, config);
    lemma_section_list(c);
    lemma_kept_made(dex, config);
    let part = c.sections()[8];
    if items.len() == 0 {
        lemma_none(
            items,
            annotation_directory_parts(items, to),
            4,
            section_overflow(
                "annotation_directory_section",
                "annotation_directory blob exceeds u32 byte offset",
            ),
        );
        if items.contains_key(key) {
            lemma_some(items, key);
        }
    } else {
        let (_, size) = place(dex, map_type::ANNOTATION_DIRECTORY_ITEM)->0;
        let k = put_back_items_stand(
            items,
            annotation_directories_kept_parts(items, to),
            c.bases.annotation_directory,
            size,
            "preserve: annotation_directory overruns section",
            key,
        );
        if items.contains_key(key) {
            let at = c.bases.annotation_directory + c.branches.dirs.remap[key];
            holding_is_transitive(
                out,
                c.bases.annotation_directory as int,
                c.branches.dirs.blob,
                c.branches.dirs.remap[key] as int,
                directory_part(items[key], to, true)->Ok_0,
            );
            directories_say(out, at, items[key], to, true, n);
            assert(c.branches.dirs.remap.dom().contains(key));
        }
    }
    assert(n.directories.dom() =~= c.branches.dirs.remap.dom());
}

// The map list, call sites and method handles

/// The map list of a file whose layout is kept reads back.
pub proof fn kept_map_reads_back(dex: DexFile, config: EmitConfig)
    requires
        all_placed(dex),
        preserved_file(dex, config) is Ok,
        all_apart(file_parts(dex, kept_parts(dex, config))),
    ensures
        ({
            let c = kept_parts(dex, config);
            map_read(preserved_file(dex, config)->Ok_0.bytes) == file_map(
                dex,
                config,
                c.places,
                c.bases,
            )
        }),
{
    let c = kept_parts(dex, config);
    let items = file_map(dex, config, c.places, c.bases);
    let out = preserved_file(dex, config)->Ok_0.bytes;
    let at = c.bases.map_list as int;
    let any = config.preserve_map_list_order;
    kept_steps(dex, config);
    kept_headers_read_back(dex, config);
    kept_parts_stand(dex, config);
    reveal(kept_map);
    maps_are_not_empty(dex, config, c.places, c.bases);
    entries_say(out, at, c.map, items, any, 0);
    assert forall|i: int| 0 <= i < items.len() implies #[trigger] map_read(out)[i] == items[i] by {
        entries_say(out, at, c.map, items, any, i);
    }
    assert(map_read(out) =~= items);
}

proof fn lemma_kept_calls(dex: DexFile, config: EmitConfig)
    requires
        all_placed(dex),
        preserved_file(dex, config) is Ok,
        all_apart(file_parts(dex, kept_parts(dex, config))),
    ensures
        calls_say(preserved_file(dex, config)->Ok_0.bytes, dex, kept_places(dex, config)),
{
    let c = kept_parts(dex, config);
    let n = kept_places(dex, config);
    let out = preserved_file(dex, config)->Ok_0.bytes;
    let offs = dex.call_site_ids@;
    let base = c.bases.encoded_array;
    let remap = c.leaves.arrays.remap;
    let abs = c.branches.call_sites;
    let l = Labels {
        missing: "call_site_id references encoded_array not in dex.encoded_arrays",
        section: "call_site_id",
        context: "absolute offset overflow",
    };
    kept_parts_stand(dex, config);
    lemma_pool_list(dex, c);
    lemma_kept_made(dex, config);
    let (p, q) = (c.pools_placed(dex)[6], c.pools_placed(dex)[7]);
    assert forall|i: int| #![trigger offs[i]] 0 <= i < offs.len() implies moves(
        n.arrays,
        offs[i],
        read_le32(out, n.call_sites + 4 * i),
    ) by {
        resolved_one_by_one(offs, base, remap, l, 0, Seq::empty(), i);
        holds_word(abs, abs.len(), i);
        holding_is_transitive(out, n.call_sites, words(abs, abs.len()), 4 * i, le32(abs[i]));
        word_at(out, n.call_sites + 4 * i, abs[i]);
    }
    assert forall|i: int|
        #![trigger dex.method_handles@[i]]
        0 <= i < dex.method_handles@.len() implies handle_read(out, n.handles + 8 * i)
        == dex.method_handles@[i] by {
        handles_read_back(out, n.handles, dex.method_handles@, i);
    }
    kept_map_reads_back(dex, config);
    calls_are_listed(dex, config, c.places, c.bases);
}

// The whole

proof fn lemma_kept_sections(dex: DexFile, config: EmitConfig)
    requires
        all_placed(dex),
        preserved_file(dex, config) is Ok,
        all_apart(file_parts(dex, kept_parts(dex, config))),
        items_clear(dex, config, kept_parts(dex, config)),
        members_read_alike(dex, kept_places(dex, config)),
    ensures
        sections_say(preserved_file(dex, config)->Ok_0.bytes, dex, kept_places(dex, config)),
{
    let c = kept_parts(dex, config);
    let n = kept_places(dex, config);
    let out = preserved_file(dex, config)->Ok_0.bytes;
    lemma_laid_keys(dex, config);
    lemma_bodies_clear(dex, config);
    lemma_kept_debug(dex, config, 0);
    lemma_kept_members(dex, config, 0);
    assert(n.bodies.dom() =~= c.leaves.code.remap.dom());
    assert forall|key: u32| #[trigger] dex.type_lists@.contains_key(key) implies list_says(
        out,
        n.lists[key],
        dex.type_lists@[key]@,
    ) by {
        lemma_kept_list(dex, config, key);
    }
    assert forall|key: u32| #[trigger] dex.code_items@.contains_key(key) implies body_says(
        out,
        n.bodies[key],
        dex.code_items@[key],
        n.debug,
    ) by {
        lemma_kept_body(dex, config, key);
    }
    assert forall|key: u32| #[trigger]
        dex.debug_info_raw_bytes@.contains_key(key) implies holds_at(
        out,
        n.debug[key],
        dex.debug_info_raw_bytes@[key]@,
    ) by {
        lemma_kept_debug(dex, config, key);
    }
    assert forall|key: u32| #[trigger] dex.class_datas@.contains_key(key) implies class_says(
        out,
        n.members[key],
        dex.class_datas@[key],
        n.bodies,
    ) by {
        lemma_kept_members(dex, config, key);
    }
    assert forall|key: u32| #[trigger] dex.encoded_arrays@.contains_key(key) implies array_says(
        out,
        n.arrays[key],
        dex.encoded_arrays@[key]@,
    ) by {
        lemma_kept_array(dex, config, key);
    }
}

proof fn lemma_kept_notes(dex: DexFile, config: EmitConfig)
    requires
        all_placed(dex),
        preserved_file(dex, config) is Ok,
        all_apart(file_parts(dex, kept_parts(dex, config))),
        items_clear(dex, config, kept_parts(dex, config)),
    ensures
        notes_say(preserved_file(dex, config)->Ok_0.bytes, dex, kept_places(dex, config)),
{
    let n = kept_places(dex, config);
    let out = preserved_file(dex, config)->Ok_0.bytes;
    lemma_kept_note(dex, config, 0);
    lemma_kept_set(dex, config, 0);
    lemma_kept_set_list(dex, config, 0);
    lemma_kept_directory(dex, config, 0);
    assert forall|key: u32| #[trigger] dex.annotation_items@.contains_key(key) implies note_says(
        out,
        n.notes[key],
        dex.annotation_items@[key],
    ) by {
        lemma_kept_note(dex, config, key);
    }
    assert forall|key: u32| #[trigger] dex.annotation_sets@.contains_key(key) implies offsets_say(
        out,
        n.sets[key],
        dex.annotation_sets@[key]@,
        n.notes,
    ) by {
        lemma_kept_set(dex, config, key);
    }
    assert forall|key: u32| #[trigger]
        dex.annotation_set_ref_lists@.contains_key(key) implies offsets_say(
        out,
        n.set_lists[key],
        dex.annotation_set_ref_lists@[key]@,
        n.sets,
    ) by {
        lemma_kept_set_list(dex, config, key);
    }
    assert forall|key: u32| #[trigger] dex.annotations@.contains_key(key) implies directory_says(
        out,
        n.directories[key],
        dex.annotations@[key],
        n,
    ) by {
        lemma_kept_directory(dex, config, key);
    }
}

/// A file whose layout is kept says what was serialized, where nothing is written over
/// anything else: its parts are apart, and the strings and the items of each section are
/// clear of each other. Class members that are written as they were read have to read as
/// those that the file has.
pub proof fn kept_files_say_what_was_serialized(dex: DexFile, config: EmitConfig)
    requires
        all_placed(dex),
        preserved_file(dex, config) is Ok,
        all_apart(file_parts(dex, kept_parts(dex, config))),
        items_clear(dex, config, kept_parts(dex, config)),
        members_read_alike(dex, kept_places(dex, config)),
    ensures
        says(preserved_file(dex, config)->Ok_0.bytes, dex, kept_places(dex, config)),
{
    kept_headers_read_back(dex, config);
    lemma_kept_plain_pools(dex, config);
    lemma_kept_linked_pools(dex, config);
    lemma_kept_calls(dex, config);
    lemma_kept_sections(dex, config);
    lemma_kept_notes(dex, config);
}

/// The layout of a file is kept where that is asked for and its map list has every section.
pub open spec fn is_kept(dex: DexFile, config: EmitConfig) -> bool {
    config.preserve_data_section_layout && all_placed(dex)
}

/// Where everything is in a serialized file.
pub open spec fn emitted_places(dex: DexFile, config: EmitConfig) -> NewPlaces {
    if is_kept(dex, config) {
        kept_places(dex, config)
    } else {
        new_places(dex, laid_out_anew(config))
    }
}

/// A serialized file says what was serialized, whatever was asked to be kept; where its
/// layout is kept, nothing may be written over anything else.
pub proof fn emitted_files_say_what_was_serialized(dex: DexFile, config: EmitConfig)
    requires
        emitted_bytes(dex, config) is Ok,
        is_kept(dex, config) ==> {
            let c = kept_parts(dex, config);
            &&& all_apart(file_parts(dex, c))
            &&& items_clear(dex, config, c)
            &&& members_read_alike(dex, kept_places(dex, config))
        },
    ensures
        says(emitted_bytes(dex, config)->Ok_0, dex, emitted_places(dex, config)),
{
    if is_kept(dex, config) {
        kept_files_say_what_was_serialized(dex, config);
    } else {
        if !config.preserve_data_section_layout {
            assert(laid_out_anew(config) == config);
        }
        canonical_files_say_what_was_serialized(dex, laid_out_anew(config));
    }
}

} // verus!
