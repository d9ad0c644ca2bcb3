//! A file is refused only where one of its parts is, or where it is too long.
use vstd::prelude::*;

use crate::dex_file::{DexFile, SectionRegion};
use crate::emit_dex::assembly::{canonical_file, data_links, layout_map, pool_sizes};
use crate::emit_dex::canonical::{
    aligned_section, annotations, arrays_of, bodies, call_site_places, data, front, tail, Front,
};
use crate::emit_dex::config::EmitConfig;
use crate::emit_dex::directory::{annotation_directory_section, Moved};
use crate::emit_dex::emit::emitted_file;
use crate::emit_dex::error::DexEmitError;
use crate::emit_dex::laws::changes::{
    end_to_end, losses_are_counted, lost, next_fourth, regions_lie_end_to_end,
};
use crate::emit_dex::laws::file::{bytes_in_all, canonical_places, parts_are_joined_unless_too_long};
use crate::emit_dex::laws::placed::{lists_what_is_there, map_lists_tell_what_is_there};
use crate::emit_dex::laws::preserve::kept_parts;
use crate::emit_dex::layout::{
    debug_linked, linked_classes, linked_protos, ordered_types, pool_layout, type_indexes,
};
use crate::emit_dex::map_list::{room_after, section_start};
use crate::emit_dex::pools::{field_ids, method_ids};
use crate::emit_dex::preserve::{
    all_written, bases, branches, filled, kept_classes, kept_code, kept_debug, kept_dirs, kept_file,
    kept_items, kept_links, kept_map, kept_refs, kept_sets, leaves, pools, string_pool, unseen,
    written_at, Leaves,
};
use crate::emit_dex::sections::{
    annotation_item_section, annotation_set_ref_list_section, annotation_set_section,
    class_data_section, code_item_section, debug_info_section, type_list_section, Section,
};

verus! {

// The canonical layout

/// What does not depend on where anything goes can be made where the types are found and in
/// order and each pool and section can be.
pub proof fn fronts_are_accepted(dex: DexFile)
    ensures
        ({
            let idxs = type_indexes(dex.strings@, dex.type_descriptors@, 0, Seq::empty());
            front(dex) is Ok <==> {
                &&& idxs is Ok
                &&& ordered_types(idxs->Ok_0) is Ok
                &&& type_list_section(dex.type_lists@) is Ok
                &&& code_item_section(dex.code_items@) is Ok
                &&& debug_info_section(dex.debug_info_raw_bytes@) is Ok
                &&& field_ids(dex.fields@, 0).result() is Ok
                &&& method_ids(dex.methods@, 0).result() is Ok
            }
        }),
{
    reveal(front);
}

/// Method bodies, debug info and class members can be laid out where each can be serialized
/// and there is room for them.
pub proof fn bodies_are_accepted(dex: DexFile, code: Section, debug: Section, off: u32)
    ensures
        ({
            let base = next_fourth(off as int) as u32;
            let end = base + code.blob.len();
            let debug_base = if end > u32::MAX {
                u32::MAX
            } else {
                end as u32
            };
            let classes = class_data_section(dex.class_datas@, code.remap, base);
            bodies(dex, code, debug, off) is Ok <==> {
                &&& off + 3 <= u32::MAX
                &&& code.blob.len() <= u32::MAX
                &&& debug.blob.len() <= u32::MAX
                &&& debug_linked(
                    code.remap,
                    dex.code_items@,
                    debug.remap,
                    debug_base,
                    code.blob,
                    0,
                ) is Ok
                &&& classes is Ok
                &&& classes->Ok_0.blob.len() <= u32::MAX
            }
        }),
{
}

/// A section that has to be aligned has a place where it can be serialized and there is room
/// for it; its place is the next multiple of four.
pub proof fn aligned_sections_are_accepted(
    off: u32,
    section: Result<Section, DexEmitError>,
    name: &'static str,
    too_long: &'static str,
)
    ensures
        aligned_section(off, section, name, too_long) is Ok <==> off + 3 <= u32::MAX && section is Ok
            && section->Ok_0.blob.len() <= u32::MAX,
        aligned_section(off, section, name, too_long) matches Ok((base, s, end)) ==> base
            == next_fourth(off as int) && s == section->Ok_0 && (base + s.blob.len() <= u32::MAX
            ==> end == base + s.blob.len()),
{
}

/// The sections follow where those before them could be laid out.
pub proof fn data_is_accepted(dex: DexFile, config: EmitConfig, f: Front, off: u32)
    ensures
        ({
            let end = off + f.string_data.len();
            let string_end = if end > u32::MAX {
                u32::MAX
            } else {
                end as u32
            };
            let b = bodies(dex, f.code, f.debug, string_end);
            let n = annotations(dex, b->Ok_0.end);
            data(dex, config, f, off) is Ok <==> {
                &&& f.string_data.len() <= u32::MAX
                &&& b is Ok
                &&& n is Ok
                &&& tail(dex, config, f.lists, n->Ok_0.dir_end) is Ok
            }
        }),
{
    reveal(data);
}

/// The annotations can be laid out where each kind of them can be serialized and there is room
/// for them.
pub proof fn annotations_are_laid_out_where_they_fit(dex: DexFile, off: u32)
    ensures
        ({
            let items = annotation_item_section(dex.annotation_items@);
            let r = annotations(dex, off);
            &&& r is Ok ==> {
                let n = r->Ok_0;
                &&& items == Ok::<Section, DexEmitError>(n.items)
                &&& annotation_set_section(dex.annotation_sets@, off, n.items.remap) == Ok::<
                    Section,
                    DexEmitError,
                >(n.sets)
                &&& annotation_set_ref_list_section(
                    dex.annotation_set_ref_lists@,
                    n.set_base,
                    n.sets.remap,
                ) == Ok::<Section, DexEmitError>(n.refs)
                &&& annotation_directory_section(
                    dex.annotations@,
                    (Moved {
                        set_base: n.set_base,
                        set_remap: n.sets.remap,
                        list_base: n.ref_base,
                        list_remap: n.refs.remap,
                    }),
                ) == Ok::<Section, DexEmitError>(n.dirs)
            }
            &&& r is Err ==> {
                let sets = annotation_set_section(dex.annotation_sets@, off, items->Ok_0.remap);
                let set_base = next_fourth(off + items->Ok_0.blob.len()) as u32;
                let refs = annotation_set_ref_list_section(
                    dex.annotation_set_ref_lists@,
                    set_base,
                    sets->Ok_0.remap,
                );
                let ref_base = next_fourth((set_base + sets->Ok_0.blob.len()) as int) as u32;
                let dirs = annotation_directory_section(
                    dex.annotations@,
                    (Moved {
                        set_base,
                        set_remap: sets->Ok_0.remap,
                        list_base: ref_base,
                        list_remap: refs->Ok_0.remap,
                    }),
                );
                ||| items is Err
                ||| sets is Err
                ||| refs is Err
                ||| dirs is Err
                ||| off + items->Ok_0.blob.len() + sets->Ok_0.blob.len() + refs->Ok_0.blob.len()
                    + dirs->Ok_0.blob.len() + 9 > u32::MAX
            }
        }),
{
}

/// What comes after the annotations can be laid out where the encoded arrays can be serialized,
/// those of call sites have places, and there is room for arrays and type lists.
pub proof fn tails_are_accepted(dex: DexFile, config: EmitConfig, lists: Section, off: u32)
    ensures
        ({
            let arrays = arrays_of(dex, config);
            let calls = call_site_places(dex.call_site_ids@, off, arrays->Ok_0.remap);
            let r = tail(dex, config, lists, off);
            &&& r is Ok ==> arrays is Ok && calls is Ok && r->Ok_0.arrays == arrays->Ok_0
                && r->Ok_0.call_sites == calls->Ok_0
            &&& r is Err ==> arrays is Err || calls is Err || off + arrays->Ok_0.blob.len()
                + lists.blob.len() + 6 > u32::MAX
        }),
{
}

/// A file in the canonical layout is refused only where its pools or sections cannot be
/// serialized or laid out, its map list cannot be, something that is referred to is missing, or
/// it is too long.
pub proof fn canonical_files_are_accepted(dex: DexFile, config: EmitConfig)
    ensures
        ({
            let f = front(dex)->Ok_0;
            let p = canonical_places(dex, f)->Ok_0;
            let d = data(dex, config, f, p.data_off)->Ok_0;
            canonical_file(dex, config) is Ok <==> {
                &&& front(dex) is Ok
                &&& canonical_places(dex, f) is Ok
                &&& data(dex, config, f, p.data_off) is Ok
                &&& layout_map(dex, config, p, d) is Ok
                &&& linked_protos(dex.protos@, data_links(f, d).lists) is Ok
                &&& linked_classes(dex.class_defs@, data_links(f, d)) is Ok
                &&& bytes_in_all(dex, f, d, layout_map(dex, config, p, d)->Ok_0) <= u32::MAX
            }
        }),
{
    reveal(canonical_file);
    if front(dex) is Ok {
        let f = front(dex)->Ok_0;
        if canonical_places(dex, f) is Ok {
            let p = canonical_places(dex, f)->Ok_0;
            if data(dex, config, f, p.data_off) is Ok {
                parts_are_joined_unless_too_long(
                    dex,
                    config,
                    f,
                    p,
                    data(dex, config, f, p.data_off)->Ok_0,
                );
            }
        }
    }
}

// A layout that is kept

/// The regions that were seen of a section, if any, cover it to where the next section starts,
/// and all of them could be read.
pub open spec fn covered(dex: DexFile, code: u16, regions: Seq<SectionRegion>) -> bool {
    regions.len() > 0 ==> {
        let start = section_start(dex.map_entries@, code, 0);
        let base = if start is Some {
            start->0
        } else {
            0
        };
        let end = if start is Some {
            base + room_after(dex.map_entries@, base, dex.header.file_size)
        } else {
            0
        };
        &&& end_to_end(
            regions,
            base,
            if end > u32::MAX {
                u32::MAX
            } else {
                end as u32
            },
        )
        &&& forall|i: int| 0 <= i < regions.len() ==> !((#[trigger] regions[i]) is UnparseableTail)
    }
}

/// Nothing is amiss where debug info and annotation sets are covered by what was seen of them.
pub proof fn sections_have_to_be_covered(dex: DexFile)
    ensures
        unseen(dex) is None <==> covered(dex, 0x2003, dex.debug_info_section_layout@) && covered(
            dex,
            0x1003,
            dex.annotation_set_section_layout@,
        ),
{
    let a = dex.debug_info_section_layout@;
    let b = dex.annotation_set_section_layout@;
    lemma_covered(dex, 0x2003, a);
    lemma_covered(dex, 0x1003, b);
}

proof fn lemma_covered(dex: DexFile, code: u16, regions: Seq<SectionRegion>)
    ensures
        forall|g: &'static str, u: &'static str|
            #[trigger] crate::emit_dex::preserve::fully_seen(dex, code, regions, g, u) is None
                <==> covered(dex, code, regions),
{
    let start = section_start(dex.map_entries@, code, 0);
    let base = if start is Some {
        start->0
    } else {
        0
    };
    let end = if start is Some {
        base + room_after(dex.map_entries@, base, dex.header.file_size)
    } else {
        0
    };
    regions_lie_end_to_end(
        regions,
        base,
        if end > u32::MAX {
            u32::MAX
        } else {
            end as u32
        },
    );
}

/// The sections that refer to no other can be made where each can be and what was seen of the
/// file read covers it.
pub proof fn leaves_are_accepted(dex: DexFile, config: EmitConfig)
    ensures
        leaves(dex, config) is Ok <==> {
            &&& type_list_section(dex.type_lists@) is Ok
            &&& kept_code(dex) is Ok
            &&& unseen(dex) is None
            &&& kept_debug(dex) is Ok
            &&& kept_items(dex, config) is Ok
            &&& arrays_of(dex, config) is Ok
        },
{
    reveal(leaves);
}

/// The pools that do not depend on where anything goes can be made where the types are found
/// and in order, and the strings, the fields and the methods can be serialized.
pub proof fn pools_are_accepted(dex: DexFile)
    ensures
        ({
            let idxs = type_indexes(dex.strings@, dex.type_descriptors@, 0, Seq::empty());
            pools(dex) is Ok <==> {
                &&& idxs is Ok
                &&& ordered_types(idxs->Ok_0) is Ok
                &&& string_pool(dex) is Ok
                &&& field_ids(dex.fields@, 0).result() is Ok
                &&& method_ids(dex.methods@, 0).result() is Ok
            }
        }),
{
    reveal(pools);
}

/// The sections that refer to others can be made where what they refer to has places.
pub proof fn branches_are_accepted(
    dex: DexFile,
    l: Leaves,
    b: crate::emit_dex::assembly::Bases,
)
    ensures
        ({
            let sets = kept_sets(dex, l, b);
            let refs = kept_refs(dex, sets->Ok_0, b);
            branches(dex, l, b) is Ok <==> {
                &&& debug_linked(
                    l.code.remap,
                    dex.code_items@,
                    l.debug.remap,
                    b.debug_info,
                    l.code.blob,
                    0,
                ) is Ok
                &&& kept_classes(dex, l, b) is Ok
                &&& sets is Ok
                &&& refs is Ok
                &&& kept_dirs(dex, sets->Ok_0, refs->Ok_0, b) is Ok
                &&& call_site_places(dex.call_site_ids@, b.encoded_array, l.arrays.remap) is Ok
            }
        }),
{
    reveal(branches);
}

/// The part ends within `size` bytes, and does not go over the header.
pub open spec fn part_fits(part: (u32, Seq<u8>), size: int) -> bool {
    part.0 + part.1.len() <= size && (part.1.len() > 0 ==> part.0 != 0)
}

proof fn lemma_all_written(buf: Seq<u8>, parts: Seq<(u32, Seq<u8>)>, i: nat)
    ensures
        all_written(buf, parts, i) is Ok <==> forall|k: int|
            i <= k < parts.len() ==> part_fits(#[trigger] parts[k], buf.len() as int),
        all_written(buf, parts, i) matches Ok(b) ==> b.len() == buf.len(),
    decreases parts.len() - i,
{
    if i < parts.len() {
        let (off, bytes) = parts[i as int];
        if part_fits(parts[i as int], buf.len() as int) {
            let next = written_at(buf, off, bytes)->Ok_0;
            lemma_all_written(next, parts, i + 1);
            if all_written(next, parts, i + 1) is Ok {
                assert forall|k: int| i <= k < parts.len() implies part_fits(
                    #[trigger] parts[k],
                    buf.len() as int,
                ) by {
                    if k > i {
                        assert(i + 1 <= k);
                    }
                }
            }
        }
    }
}

/// A file whose layout is kept can be filled where each of its parts ends within it, and none
/// but the header is at its start.
pub proof fn parts_that_fit_are_written(
    file_size: u32,
    header: Seq<u8>,
    pools: Seq<(u32, Seq<u8>)>,
    sections: Seq<(u32, Seq<u8>)>,
    map_off: u32,
    map: Seq<u8>,
)
    ensures
        filled(file_size, header, pools, sections, map_off, map) is Ok <==> {
            &&& header.len() <= file_size
            &&& forall|k: int|
                0 <= k < pools.len() ==> part_fits(#[trigger] pools[k], file_size as int)
            &&& forall|k: int|
                0 <= k < sections.len() ==> part_fits(#[trigger] sections[k], file_size as int)
            &&& map_off + map.len() <= file_size
        },
{
    reveal(filled);
    let blank = crate::bytes::zeros(file_size as nat);
    if header.len() <= file_size {
        let a = written_at(blank, 0, header)->Ok_0;
        lemma_all_written(a, pools, 0);
        if all_written(a, pools, 0) is Ok {
            let b = all_written(a, pools, 0)->Ok_0;
            lemma_all_written(b, sections, 0);
        }
    }
}

/// A file whose layout is kept is refused only where its pools or sections cannot be serialized
/// or have no places, its map list cannot be serialized, something that is referred to is
/// missing, or a part does not fit.
pub proof fn kept_files_are_accepted(dex: DexFile, config: EmitConfig)
    ensures
        ({
            let c = kept_parts(dex, config);
            let map_off = section_start(dex.map_entries@, 0x1000, 0)->Some_0;
            kept_file(dex, config) is Ok <==> {
                &&& pools(dex) is Ok
                &&& pool_layout(
                    pool_sizes(
                        dex,
                        c.pools.string_ids,
                        c.pools.types,
                        c.pools.fields,
                        c.pools.methods,
                    ),
                    true,
                ) is Ok
                &&& leaves(dex, config) is Ok
                &&& bases(dex, c.leaves, c.pools.string_data.len() > 0, map_off) is Ok
                &&& branches(dex, c.leaves, c.bases) is Ok
                &&& kept_map(dex, config, c.places, c.bases) is Ok
                &&& linked_protos(
                    dex.protos@,
                    kept_links(c.leaves, c.bases, c.branches).lists,
                ) is Ok
                &&& linked_classes(
                    dex.class_defs@,
                    kept_links(c.leaves, c.bases, c.branches),
                ) is Ok
                &&& c.map.len() <= u32::MAX
                &&& c.unsealed(dex) is Ok
            }
        }),
{
}

/// A file is refused as one of which something was lost, or as its layout is.
pub proof fn files_are_accepted(dex: DexFile, config: EmitConfig)
    requires
        dex.parse_errors@.len() <= usize::MAX,
    ensures
        emitted_file(dex, config) is Ok <==> {
            &&& config.permit_partial_ir || forall|i: int|
                0 <= i < dex.parse_errors@.len() ==> !lost(#[trigger] dex.parse_errors@[i])
            &&& if config.preserve_data_section_layout && lists_what_is_there(dex) {
                kept_file(dex, config) is Ok
            } else {
                canonical_file(
                    dex,
                    (EmitConfig { preserve_data_section_layout: false, ..config }),
                ) is Ok
            }
        },
{
    let failures = dex.parse_errors@;
    losses_are_counted(failures);
    map_lists_tell_what_is_there(dex);
    lemma_some_lost(failures);
    if !config.preserve_data_section_layout {
        assert((EmitConfig { preserve_data_section_layout: false, ..config }) == config);
    }
}

proof fn lemma_some_lost(failures: Seq<crate::dex_file::ParseFailure>)
    ensures
        (exists|k: int| #[trigger] crate::emit_dex::laws::changes::first_lost(failures, k)) <==> exists|
            i: int,
        |
            0 <= i < failures.len() && lost(#[trigger] failures[i]),
    decreases failures.len(),
{
    if exists|i: int| 0 <= i < failures.len() && lost(#[trigger] failures[i]) {
        let i = choose|i: int| 0 <= i < failures.len() && lost(#[trigger] failures[i]);
        lemma_first_among(failures, i);
    }
}

proof fn lemma_first_among(failures: Seq<crate::dex_file::ParseFailure>, i: int)
    requires
        0 <= i < failures.len(),
        lost(failures[i]),
    ensures
        exists|k: int| #[trigger] crate::emit_dex::laws::changes::first_lost(failures, k),
    decreases i,
{
    if exists|j: int| 0 <= j < i && lost(#[trigger] failures[j]) {
        let j = choose|j: int| 0 <= j < i && lost(#[trigger] failures[j]);
        lemma_first_among(failures, j);
    } else {
        assert(crate::emit_dex::laws::changes::first_lost(failures, i));
    }
}

} // verus!
