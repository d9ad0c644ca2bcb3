//! Putting a file together.
use vstd::prelude::*;

use crate::bytes::{le32, overlay, push_u32, push_zeros, write_over, zeros};
use crate::collections::count;
use crate::dex_file::DexFile;
use crate::emit_dex::canonical::{
    data, emit_data, emit_front, front, padding_reports, report_paddings, Data, DataBytes, Front,
    FrontBytes,
};
use crate::emit_dex::checksum::{
    emit_header, finalize_checksums, finalized, header_bytes, HeaderLayout,
};
use crate::emit_dex::code_item::sat32;
use crate::emit_dex::config::{CanonicalTransform, EmitConfig};
use crate::emit_dex::error::DexEmitError;
use crate::emit_dex::layout::{
    after, emit_linked_classes, emit_linked_protos, lift_string_ids, lifted, linked_classes,
    linked_protos, overflow, place_pools, pool_layout, type_indexes, type_indexes_len, Link, LinkRef, Links, PoolCounts, PoolPlaces,
    PoolSizes,
};
use crate::emit_dex::map_list::{
    as_items, build_map_items, by_offset, codes, data_reordered, data_section_order_diverges_from_emit,
    emit_map_list, map_list, map_list_order_diverged, order_differs, reorder_map_items_to_input,
    reordered, section_entries, sort_by_offset, Extent, MapItem,
};
use crate::emit_dex::map_type;
use crate::emit_dex::pools::{
    field_ids_len, method_handles,
    method_ids_len, push_method_handles, push_words, string_ids_len, type_ids_len, words,
};
use crate::emit_dex::written::gives;

verus! {

/// Where each section starts.
#[derive(Debug, Clone, Copy, PartialEq, Eq, Structural)]
pub struct Bases {
    pub string_data: u32,
    pub code_item: u32,
    pub debug_info: u32,
    pub class_data: u32,
    pub annotation_item: u32,
    pub annotation_set: u32,
    pub annotation_set_ref_list: u32,
    pub annotation_directory: u32,
    pub encoded_array: u32,
    pub type_list: u32,
    pub map_list: u32,
}

/// A section of `count` items.
pub open spec fn extent(type_code: u16, count: int, offset: u32) -> Extent {
    Extent { type_code, count: count as usize, offset }
}

/// The sections of a file, in the order of their codes as far as the pools go.
#[verifier::opaque]
pub open spec fn extents(dex: DexFile, p: PoolPlaces, b: Bases) -> Seq<Extent> {
    seq![
        extent(map_type::HEADER_ITEM, 1, 0),
        extent(map_type::STRING_ID_ITEM, dex.strings@.len() as int, p.string_ids_off),
        extent(map_type::TYPE_ID_ITEM, dex.type_descriptors@.len() as int, p.type_ids_off),
        extent(map_type::PROTO_ID_ITEM, dex.protos@.len() as int, p.proto_ids_off),
        extent(map_type::FIELD_ID_ITEM, dex.fields@.len() as int, p.field_ids_off),
        extent(map_type::METHOD_ID_ITEM, dex.methods@.len() as int, p.method_ids_off),
        extent(map_type::CLASS_DEF_ITEM, dex.class_defs@.len() as int, p.class_defs_off),
        extent(map_type::CALL_SITE_ID_ITEM, dex.call_site_ids@.len() as int, p.call_site_ids_off),
        extent(
            map_type::METHOD_HANDLE_ITEM,
            dex.method_handles@.len() as int,
            p.method_handles_off,
        ),
        extent(map_type::STRING_DATA_ITEM, dex.strings@.len() as int, b.string_data),
        extent(map_type::CODE_ITEM, dex.code_items@.len() as int, b.code_item),
        extent(map_type::CLASS_DATA_ITEM, dex.class_datas@.len() as int, b.class_data),
        extent(map_type::ANNOTATION_ITEM, dex.annotation_items@.len() as int, b.annotation_item),
        extent(map_type::ANNOTATION_SET_ITEM, dex.annotation_sets@.len() as int, b.annotation_set),
        extent(
            map_type::ANNOTATION_SET_REF_LIST,
            dex.annotation_set_ref_lists@.len() as int,
            b.annotation_set_ref_list,
        ),
        extent(
            map_type::ANNOTATION_DIRECTORY_ITEM,
            dex.annotations@.len() as int,
            b.annotation_directory,
        ),
        extent(map_type::ENCODED_ARRAY_ITEM, dex.encoded_arrays@.len() as int, b.encoded_array),
        extent(map_type::DEBUG_INFO_ITEM, dex.debug_info_raw_bytes@.len() as int, b.debug_info),
        extent(map_type::TYPE_LIST, dex.type_lists@.len() as int, b.type_list),
        extent(map_type::MAP_LIST, 1, b.map_list),
    ]
}

fn section_extents(dex: &DexFile, p: &PoolPlaces, b: &Bases) -> (r: Vec<Extent>)
    ensures
        r@ == extents(*dex, *p, *b),
{
    let mut out: Vec<Extent> = Vec::new();
    out.push(Extent { type_code: map_type::HEADER_ITEM, count: 1, offset: 0 });
    out.push(
        Extent {
            type_code: map_type::STRING_ID_ITEM,
            count: dex.strings.len(),
            offset: p.string_ids_off,
        },
    );
    out.push(
        Extent {
            type_code: map_type::TYPE_ID_ITEM,
            count: dex.type_descriptors.len(),
            offset: p.type_ids_off,
        },
    );
    out.push(
        Extent {
            type_code: map_type::PROTO_ID_ITEM,
            count: dex.protos.len(),
            offset: p.proto_ids_off,
        },
    );
    out.push(
        Extent {
            type_code: map_type::FIELD_ID_ITEM,
            count: dex.fields.len(),
            offset: p.field_ids_off,
        },
    );
    out.push(
        Extent {
            type_code: map_type::METHOD_ID_ITEM,
            count: dex.methods.len(),
            offset: p.method_ids_off,
        },
    );
    out.push(
        Extent {
            type_code: map_type::CLASS_DEF_ITEM,
            count: dex.class_defs.len(),
            offset: p.class_defs_off,
        },
    );
    out.push(
        Extent {
            type_code: map_type::CALL_SITE_ID_ITEM,
            count: dex.call_site_ids.len(),
            offset: p.call_site_ids_off,
        },
    );
    out.push(
        Extent {
            type_code: map_type::METHOD_HANDLE_ITEM,
            count: dex.method_handles.len(),
            offset: p.method_handles_off,
        },
    );
    out.push(
        Extent {
            type_code: map_type::STRING_DATA_ITEM,
            count: dex.strings.len(),
            offset: b.string_data,
        },
    );
    out.push(
        Extent {
            type_code: map_type::CODE_ITEM,
            count: count(&dex.code_items),
            offset: b.code_item,
        },
    );
    out.push(
        Extent {
            type_code: map_type::CLASS_DATA_ITEM,
            count: count(&dex.class_datas),
            offset: b.class_data,
        },
    );
    out.push(
        Extent {
            type_code: map_type::ANNOTATION_ITEM,
            count: count(&dex.annotation_items),
            offset: b.annotation_item,
        },
    );
    out.push(
        Extent {
            type_code: map_type::ANNOTATION_SET_ITEM,
            count: count(&dex.annotation_sets),
            offset: b.annotation_set,
        },
    );
    out.push(
        Extent {
            type_code: map_type::ANNOTATION_SET_REF_LIST,
            count: count(&dex.annotation_set_ref_lists),
            offset: b.annotation_set_ref_list,
        },
    );
    out.push(
        Extent {
            type_code: map_type::ANNOTATION_DIRECTORY_ITEM,
            count: count(&dex.annotations),
            offset: b.annotation_directory,
        },
    );
    out.push(
        Extent {
            type_code: map_type::ENCODED_ARRAY_ITEM,
            count: count(&dex.encoded_arrays),
            offset: b.encoded_array,
        },
    );
    out.push(
        Extent {
            type_code: map_type::DEBUG_INFO_ITEM,
            count: count(&dex.debug_info_raw_bytes),
            offset: b.debug_info,
        },
    );
    out.push(
        Extent {
            type_code: map_type::TYPE_LIST,
            count: count(&dex.type_lists),
            offset: b.type_list,
        },
    );
    out.push(Extent { type_code: map_type::MAP_LIST, count: 1, offset: b.map_list });
    proof {
        reveal(extents);
    }
    assert(out@ =~= extents(*dex, *p, *b));
    out
}

/// The entries of the map list: in the order of the file's own map list where that
/// is asked for, by offset otherwise.
#[verifier::opaque]
pub open spec fn file_map(dex: DexFile, config: EmitConfig, p: PoolPlaces, b: Bases) -> Seq<
    MapItem,
> {
    let sections = extents(dex, p, b);
    let items = section_entries(sections, sections.len());
    if config.preserve_map_list_order {
        reordered(items, codes(as_items(dex.map_entries@)))
    } else {
        by_offset(items)
    }
}

/// The report that the map list is in another order.
pub open spec fn map_report(dex: DexFile, config: EmitConfig, items: Seq<MapItem>) -> Seq<
    CanonicalTransform,
> {
    if !config.preserve_map_list_order && order_differs(
        codes(items),
        codes(as_items(dex.map_entries@)),
    ) {
        seq![CanonicalTransform::MapListReordered]
    } else {
        Seq::empty()
    }
}

/// The entries of the map list. Adds the report that it is in another order, if it
/// is.
pub fn build_map(
    dex: &DexFile,
    config: &EmitConfig,
    p: &PoolPlaces,
    b: &Bases,
    reports: &mut Vec<CanonicalTransform>,
) -> (r: Vec<MapItem>)
    ensures
        r@ == file_map(*dex, *config, *p, *b),
        final(reports)@ == old(reports)@ + map_report(*dex, *config, r@),
{
    proof {
        reveal(file_map);
    }
    let items = build_map_items(section_extents(dex, p, b).as_slice());
    if config.preserve_map_list_order {
        let out = reorder_map_items_to_input(items, dex.map_entries.as_slice());
        assert(reports@ =~= old(reports)@ + map_report(*dex, *config, out@));
        out
    } else {
        let out = sort_by_offset(items.as_slice());
        if map_list_order_diverged(out.as_slice(), dex.map_entries.as_slice()) {
            reports.push(CanonicalTransform::MapListReordered);
        }
        assert(reports@ =~= old(reports)@ + map_report(*dex, *config, out@));
        out
    }
}

// The header

/// The fields of the header.
pub open spec fn header_layout(
    dex: DexFile,
    p: PoolPlaces,
    file_size: u32,
    map_off: u32,
    data_off: u32,
    data_size: u32,
) -> HeaderLayout {
    HeaderLayout {
        version: [dex.header.magic[4], dex.header.magic[5], dex.header.magic[6]],
        file_size,
        map_off,
        string_ids_size: dex.strings@.len() as u32,
        string_ids_off: p.string_ids_off,
        type_ids_size: dex.type_descriptors@.len() as u32,
        type_ids_off: p.type_ids_off,
        proto_ids_size: dex.protos@.len() as u32,
        proto_ids_off: p.proto_ids_off,
        field_ids_size: dex.fields@.len() as u32,
        field_ids_off: p.field_ids_off,
        method_ids_size: dex.methods@.len() as u32,
        method_ids_off: p.method_ids_off,
        class_defs_size: dex.class_defs@.len() as u32,
        class_defs_off: p.class_defs_off,
        data_size,
        data_off,
    }
}

/// The header.
#[verifier::opaque]
pub open spec fn header_of(
    dex: DexFile,
    p: PoolPlaces,
    file_size: u32,
    map_off: u32,
    data_off: u32,
    data_size: u32,
) -> Seq<u8> {
    header_bytes(header_layout(dex, p, file_size, map_off, data_off, data_size))
}

/// The header.
pub fn make_header(
    dex: &DexFile,
    p: &PoolPlaces,
    file_size: u32,
    map_off: u32,
    data_off: u32,
    data_size: u32,
) -> (r: Vec<u8>)
    requires
        dex.strings@.len() <= u32::MAX,
        dex.type_descriptors@.len() <= u32::MAX,
        dex.protos@.len() <= u32::MAX,
        dex.fields@.len() <= u32::MAX,
        dex.methods@.len() <= u32::MAX,
        dex.class_defs@.len() <= u32::MAX,
    ensures
        r@ == header_of(*dex, *p, file_size, map_off, data_off, data_size),
        r@.len() == 112,
{
    let layout = HeaderLayout {
        version: [dex.header.magic[4], dex.header.magic[5], dex.header.magic[6]],
        file_size,
        map_off,
        string_ids_size: dex.strings.len() as u32,
        string_ids_off: p.string_ids_off,
        type_ids_size: dex.type_descriptors.len() as u32,
        type_ids_off: p.type_ids_off,
        proto_ids_size: dex.protos.len() as u32,
        proto_ids_off: p.proto_ids_off,
        field_ids_size: dex.fields.len() as u32,
        field_ids_off: p.field_ids_off,
        method_ids_size: dex.methods.len() as u32,
        method_ids_off: p.method_ids_off,
        class_defs_size: dex.class_defs.len() as u32,
        class_defs_off: p.class_defs_off,
        data_size,
        data_off,
    };
    proof {
        reveal(header_of);
    }
    emit_header(&layout)
}

// Checksums

/// A file with the checksum and the digest of the header that was read.
pub open spec fn with_input_checksums(dex: DexFile, file: Seq<u8>) -> Seq<u8> {
    overlay(overlay(file, 8, le32(dex.header.checksum)), 12, dex.header.signature@)
}

/// Puts the checksum and the digest of the header that was read into a file, where
/// that is asked for.
pub fn apply_preserve_input_checksums(
    out: &mut Vec<u8>,
    dex: &DexFile,
    config: &EmitConfig,
) -> (r: Result<(), DexEmitError>)
    ensures
        if !config.preserve_input_checksums {
            r is Ok && final(out)@ == old(out)@
        } else if old(out)@.len() < 32 {
            r == Err::<(), DexEmitError>(
                overflow("header", "preserve_input_checksums: output shorter than 32 bytes"),
            ) && final(out)@ == old(out)@
        } else {
            r is Ok && final(out)@ == with_input_checksums(*dex, old(out)@)
        },
{
    if !config.preserve_input_checksums {
        return Ok(());
    }
    if out.len() < 32 {
        return Err(
            DexEmitError::OffsetOverflow {
                section: "header",
                context: "preserve_input_checksums: output shorter than 32 bytes",
            },
        );
    }
    let mut field: Vec<u8> = Vec::new();
    push_u32(&mut field, dex.header.checksum);
    assert(field@ =~= le32(dex.header.checksum));
    write_over(out.as_mut_slice(), 8, field.as_slice());
    write_over(out.as_mut_slice(), 12, dex.header.signature.as_slice());
    Ok(())
}

/// A complete file with its checksums.
#[verifier::opaque]
pub open spec fn sealed(dex: DexFile, config: EmitConfig, file: Seq<u8>) -> Seq<u8> {
    if config.preserve_input_checksums {
        with_input_checksums(dex, finalized(file))
    } else {
        finalized(file)
    }
}

/// Puts the checksums into a complete file.
pub fn seal(dex: &DexFile, config: &EmitConfig, file: Vec<u8>) -> (r: Result<
    Vec<u8>,
    DexEmitError,
>)
    requires
        32 <= file@.len() <= u32::MAX,
    ensures
        r matches Ok(v) && v@ == sealed(*dex, *config, file@),
{
    let mut out = file;
    proof {
        reveal(sealed);
    }
    finalize_checksums(out.as_mut_slice())?;
    apply_preserve_input_checksums(&mut out, dex, config)?;
    Ok(out)
}

// The canonical file

/// The sizes of the id pools.
pub open spec fn pool_sizes(
    dex: DexFile,
    string_ids: Seq<u8>,
    types: Seq<u8>,
    fields: Seq<u8>,
    methods: Seq<u8>,
) -> PoolSizes {
    PoolSizes {
        strings: string_ids.len() as int,
        types: types.len() as int,
        protos: dex.protos@.len() as int * 12,
        fields: fields.len() as int,
        methods: methods.len() as int,
        classes: dex.class_defs@.len() as int * 32,
        call_sites: dex.call_site_ids@.len() as int * 4,
        handles: dex.method_handles@.len() as int * 8,
    }
}

/// Where the sections start in the canonical layout.
pub open spec fn data_bases(d: Data, data_off: u32) -> Bases {
    Bases {
        string_data: data_off,
        code_item: d.bodies.code_base,
        debug_info: d.bodies.debug_base,
        class_data: d.bodies.class_base,
        annotation_item: d.notes.item_base,
        annotation_set: d.notes.set_base,
        annotation_set_ref_list: d.notes.ref_base,
        annotation_directory: d.notes.dir_base,
        encoded_array: d.tail.array_base,
        type_list: d.tail.list_base,
        map_list: d.tail.map_base,
    }
}

/// Where the sections that the pools refer to are in the canonical layout.
pub open spec fn data_links(f: Front, d: Data) -> Links {
    Links {
        lists: Link { base: d.tail.list_base, remap: f.lists.remap },
        classes: Link { base: d.bodies.class_base, remap: d.bodies.classes.remap },
        directories: Link { base: d.notes.dir_base, remap: d.notes.dirs.remap },
        arrays: Link { base: d.tail.array_base, remap: d.tail.arrays.remap },
    }
}

/// Zero bytes from `off` up to `base`.
pub open spec fn gap(off: u32, base: u32) -> Seq<u8> {
    zeros((base - off) as nat)
}

/// The header and the id pools.
#[verifier::opaque]
pub open spec fn pool_bytes(
    dex: DexFile,
    header: Seq<u8>,
    f: Front,
    d: Data,
    data_off: u32,
    protos: Seq<u8>,
    classes: Seq<u8>,
) -> Seq<u8> {
    header + lifted(f.string_ids, data_off, f.string_ids.len() / 4) + f.types + protos + f.fields
        + f.methods + classes + words(d.tail.call_sites, d.tail.call_sites.len())
        + method_handles(dex.method_handles@, dex.method_handles@.len())
}

/// The sections, from the string data up to the map list.
#[verifier::opaque]
pub open spec fn section_bytes(f: Front, d: Data) -> Seq<u8> {
    f.string_data + gap(d.string_end, d.bodies.code_base) + d.bodies.code + f.debug.blob
        + d.bodies.classes.blob + d.notes.items.blob + gap(d.notes.item_end, d.notes.set_base)
        + d.notes.sets.blob + gap(d.notes.set_end, d.notes.ref_base) + d.notes.refs.blob + gap(
        d.notes.ref_end,
        d.notes.dir_base,
    ) + d.notes.dirs.blob + d.tail.arrays.blob + gap(d.tail.array_end, d.tail.list_base)
        + f.lists.blob + gap(d.tail.list_end, d.tail.map_base)
}

/// What serialization comes to: the bytes and the reports.
#[verifier::ext_equal]
pub struct Emitted {
    pub bytes: Seq<u8>,
    pub reports: Seq<CanonicalTransform>,
}

/// The report that the data sections are in another order.
pub open spec fn order_report(dex: DexFile) -> Seq<CanonicalTransform> {
    if data_reordered(dex.map_entries@) {
        seq![CanonicalTransform::DataSectionLayoutReordered]
    } else {
        Seq::empty()
    }
}

/// All reports about the canonical layout.
#[verifier::opaque]
pub open spec fn layout_reports(dex: DexFile, config: EmitConfig, p: PoolPlaces, d: Data) -> Seq<
    CanonicalTransform,
> {
    padding_reports(dex, d) + map_report(
        dex,
        config,
        file_map(dex, config, p, data_bases(d, p.data_off)),
    ) + order_report(dex)
}

/// The map list of the canonical layout.
#[verifier::opaque]
pub open spec fn layout_map(dex: DexFile, config: EmitConfig, p: PoolPlaces, d: Data) -> Result<
    Seq<u8>,
    DexEmitError,
> {
    map_list(
        file_map(dex, config, p, data_bases(d, p.data_off)),
        config.preserve_map_list_order,
    )
}

/// The file in the canonical layout, once everything has its place.
#[verifier::opaque]
pub open spec fn joined(
    dex: DexFile,
    config: EmitConfig,
    f: Front,
    p: PoolPlaces,
    d: Data,
) -> Result<Emitted, DexEmitError> {
    match layout_map(dex, config, p, d) {
        Err(e) => Err(e),
        Ok(map) => if map.len() > u32::MAX {
            Err(overflow("map_list", "map_list offset overflow"))
        } else {
            let file_size = sat32(d.tail.map_base + map.len());
            let data_size = if file_size >= p.data_off {
                (file_size - p.data_off) as u32
            } else {
                0
            };
            let links = data_links(f, d);
            match linked_protos(dex.protos@, links.lists) {
                Err(e) => Err(e),
                Ok(protos) => match linked_classes(dex.class_defs@, links) {
                    Err(e) => Err(e),
                    Ok(classes) => {
                        let header = header_of(
                            dex,
                            p,
                            file_size,
                            d.tail.map_base,
                            p.data_off,
                            data_size,
                        );
                        let bytes = pool_bytes(dex, header, f, d, p.data_off, protos, classes)
                            + section_bytes(f, d) + map;
                        if bytes.len() != file_size {
                            Err(
                                DexEmitError::InvariantViolated {
                                    why: "emit_dex layout arithmetic disagrees with concatenated buffer length",
                                },
                            )
                        } else {
                            Ok(
                                Emitted {
                                    bytes: sealed(dex, config, bytes),
                                    reports: layout_reports(dex, config, p, d),
                                },
                            )
                        }
                    },
                },
            }
        },
    }
}

/// The file in the canonical layout.
#[verifier::opaque]
pub open spec fn canonical_file(dex: DexFile, config: EmitConfig) -> Result<
    Emitted,
    DexEmitError,
> {
    match front(dex) {
        Err(e) => Err(e),
        Ok(f) => match pool_layout(
            pool_sizes(dex, f.string_ids, f.types, f.fields, f.methods),
            false,
        ) {
            Err(e) => Err(e),
            Ok(p) => match data(dex, config, f, p.data_off) {
                Err(e) => Err(e),
                Ok(d) => joined(dex, config, f, p, d),
            },
        },
    }
}

/// A serialized file and the reports, in executable form.
pub type EmittedBytes = (Vec<u8>, Vec<CanonicalTransform>);

/// A function that returns a file returns that of `expected`, or its error.
pub open spec fn gives_file(
    r: Result<EmittedBytes, DexEmitError>,
    expected: Result<Emitted, DexEmitError>,
) -> bool {
    match expected {
        Ok(f) => r matches Ok(v) && v.0@ == f.bytes && v.1@ == f.reports,
        Err(e) => r == Err::<EmittedBytes, DexEmitError>(e),
    }
}

/// No section starts before the end of the one that it is aligned after.
pub open spec fn in_sequence(d: Data) -> bool {
    &&& d.string_end <= d.bodies.code_base
    &&& d.notes.item_end <= d.notes.set_base
    &&& d.notes.set_end <= d.notes.ref_base
    &&& d.notes.ref_end <= d.notes.dir_base
    &&& d.tail.array_end <= d.tail.list_base
    &&& d.tail.list_end <= d.tail.map_base
}

/// Appends `part` to what has been written after `start` so far.
fn push_part(out: &mut Vec<u8>, part: &[u8], start: Ghost<Seq<u8>>, sofar: Ghost<Seq<u8>>)
    requires
        old(out)@ == start@ + sofar@,
    ensures
        final(out)@ == start@ + (sofar@ + part@),
{
    out.extend_from_slice(part);
    assert(out@ =~= start@ + (sofar@ + part@));
}

/// Appends the gap between two sections to what has been written after `start` so
/// far.
fn push_gap(
    out: &mut Vec<u8>,
    off: u32,
    base: u32,
    start: Ghost<Seq<u8>>,
    sofar: Ghost<Seq<u8>>,
)
    requires
        off <= base,
        old(out)@ == start@ + sofar@,
    ensures
        final(out)@ == start@ + (sofar@ + gap(off, base)),
{
    push_zeros(out, (base - off) as usize);
    assert(out@ =~= start@ + (sofar@ + gap(off, base)));
}

fn push_sections(out: &mut Vec<u8>, f: &FrontBytes, d: &DataBytes)
    requires
        in_sequence(d@),
    ensures
        final(out)@ == old(out)@ + section_bytes(f@, d@),
{
    let ghost start = old(out)@;
    out.extend_from_slice(f.string_data.as_slice());
    let ghost sofar = f.string_data@;
    assert(out@ =~= start + sofar);
    push_gap(out, d.string_end, d.bodies.code_base, Ghost(start), Ghost(sofar));
    let ghost sofar = sofar + gap(d.string_end, d.bodies.code_base);
    push_part(out, d.bodies.code.as_slice(), Ghost(start), Ghost(sofar));
    let ghost sofar = sofar + d.bodies.code@;
    push_part(out, f.debug.0.as_slice(), Ghost(start), Ghost(sofar));
    let ghost sofar = sofar + f.debug.0@;
    push_part(out, d.bodies.classes.0.as_slice(), Ghost(start), Ghost(sofar));
    let ghost sofar = sofar + d.bodies.classes.0@;
    push_part(out, d.notes.items.0.as_slice(), Ghost(start), Ghost(sofar));
    let ghost sofar = sofar + d.notes.items.0@;
    push_gap(out, d.notes.item_end, d.notes.set_base, Ghost(start), Ghost(sofar));
    let ghost sofar = sofar + gap(d.notes.item_end, d.notes.set_base);
    push_part(out, d.notes.sets.0.as_slice(), Ghost(start), Ghost(sofar));
    let ghost sofar = sofar + d.notes.sets.0@;
    push_gap(out, d.notes.set_end, d.notes.ref_base, Ghost(start), Ghost(sofar));
    let ghost sofar = sofar + gap(d.notes.set_end, d.notes.ref_base);
    push_part(out, d.notes.refs.0.as_slice(), Ghost(start), Ghost(sofar));
    let ghost sofar = sofar + d.notes.refs.0@;
    push_gap(out, d.notes.ref_end, d.notes.dir_base, Ghost(start), Ghost(sofar));
    let ghost sofar = sofar + gap(d.notes.ref_end, d.notes.dir_base);
    push_part(out, d.notes.dirs.0.as_slice(), Ghost(start), Ghost(sofar));
    let ghost sofar = sofar + d.notes.dirs.0@;
    push_part(out, d.tail.arrays.0.as_slice(), Ghost(start), Ghost(sofar));
    let ghost sofar = sofar + d.tail.arrays.0@;
    push_gap(out, d.tail.array_end, d.tail.list_base, Ghost(start), Ghost(sofar));
    let ghost sofar = sofar + gap(d.tail.array_end, d.tail.list_base);
    push_part(out, f.lists.0.as_slice(), Ghost(start), Ghost(sofar));
    let ghost sofar = sofar + f.lists.0@;
    push_gap(out, d.tail.list_end, d.tail.map_base, Ghost(start), Ghost(sofar));
    let ghost sofar = sofar + gap(d.tail.list_end, d.tail.map_base);
    proof {
        reveal(section_bytes);
    }
    assert(sofar == section_bytes(f@, d@));
}

/// Puts the header and the id pools together.
fn join_pools(
    dex: &DexFile,
    header: Vec<u8>,
    f: &FrontBytes,
    d: &DataBytes,
    data_off: u32,
    protos: &Vec<u8>,
    classes: &Vec<u8>,
) -> (r: Vec<u8>)
    requires
        header@.len() == 112,
    ensures
        r@ == pool_bytes(*dex, header@, f@, d@, data_off, protos@, classes@),
        r@.len() >= 112,
{
    let mut call_sites: Vec<u8> = Vec::new();
    push_words(&mut call_sites, d.tail.call_sites.as_slice());
    let mut out = header;
    out.extend_from_slice(lift_string_ids(f.string_ids.as_slice(), data_off).as_slice());
    out.extend_from_slice(f.types.as_slice());
    out.extend_from_slice(protos.as_slice());
    out.extend_from_slice(f.fields.as_slice());
    out.extend_from_slice(f.methods.as_slice());
    out.extend_from_slice(classes.as_slice());
    out.extend_from_slice(call_sites.as_slice());
    push_method_handles(&mut out, dex.method_handles.as_slice());
    proof {
        reveal(pool_bytes);
    }
    assert(out@ =~= pool_bytes(*dex, header@, f@, d@, data_off, protos@, classes@));
    out
}

/// Makes the map list and the reports.
fn join_map(
    dex: &DexFile,
    config: &EmitConfig,
    p: &PoolPlaces,
    d: &DataBytes,
    reports: &mut Vec<CanonicalTransform>,
) -> (r: Result<Vec<u8>, DexEmitError>)
    ensures
        gives(r, layout_map(*dex, *config, *p, d@)),
        final(reports)@ == layout_reports(*dex, *config, *p, d@),
{
    let bases = Bases {
        string_data: p.data_off,
        code_item: d.bodies.code_base,
        debug_info: d.bodies.debug_base,
        class_data: d.bodies.class_base,
        annotation_item: d.notes.item_base,
        annotation_set: d.notes.set_base,
        annotation_set_ref_list: d.notes.ref_base,
        annotation_directory: d.notes.dir_base,
        encoded_array: d.tail.array_base,
        type_list: d.tail.list_base,
        map_list: d.tail.map_base,
    };
    *reports = report_paddings(dex, d);
    let items = build_map(dex, config, p, &bases, reports);
    if data_section_order_diverges_from_emit(dex.map_entries.as_slice()) {
        reports.push(CanonicalTransform::DataSectionLayoutReordered);
    }
    proof {
        reveal(layout_reports);
        reveal(layout_map);
    }
    assert(reports@ =~= padding_reports(*dex, d@) + map_report(*dex, *config, items@)
        + order_report(*dex));
    emit_map_list(items.as_slice(), config.preserve_map_list_order)
}

/// Puts a file together once everything has its place.
fn join(
    dex: &DexFile,
    config: &EmitConfig,
    f: &FrontBytes,
    p: &PoolPlaces,
    d: &DataBytes,
) -> (r: Result<EmittedBytes, DexEmitError>)
    requires
        in_sequence(d@),
        dex.strings@.len() <= u32::MAX,
        dex.type_descriptors@.len() <= u32::MAX,
        dex.protos@.len() <= u32::MAX,
        dex.fields@.len() <= u32::MAX,
        dex.methods@.len() <= u32::MAX,
        dex.class_defs@.len() <= u32::MAX,
    ensures
        gives_file(r, joined(*dex, *config, f@, *p, d@)),
{
    proof {
        reveal(joined);
    }
    let mut reports: Vec<CanonicalTransform> = Vec::new();
    let map = join_map(dex, config, p, d, &mut reports)?;
    let file_size: u32 = after(
        d.tail.map_base,
        map.len(),
        "map_list",
        "map_list offset overflow",
    )?;
    let data_size: u32 = file_size.saturating_sub(p.data_off);
    let lists = LinkRef { base: d.tail.list_base, remap: &f.lists.1 };
    let datas = LinkRef { base: d.bodies.class_base, remap: &d.bodies.classes.1 };
    let directories = LinkRef { base: d.notes.dir_base, remap: &d.notes.dirs.1 };
    let arrays = LinkRef { base: d.tail.array_base, remap: &d.tail.arrays.1 };
    let protos = emit_linked_protos(dex.protos.as_slice(), &lists)?;
    let classes = emit_linked_classes(
        dex.class_defs.as_slice(),
        &lists,
        &datas,
        &directories,
        &arrays,
    )?;
    let header = make_header(dex, p, file_size, d.tail.map_base, p.data_off, data_size);
    let mut out = join_pools(dex, header, f, d, p.data_off, &protos, &classes);
    push_sections(&mut out, f, d);
    out.extend_from_slice(map.as_slice());
    if out.len() != file_size as usize {
        return Err(
            DexEmitError::InvariantViolated {
                why: "emit_dex layout arithmetic disagrees with concatenated buffer length",
            },
        );
    }
    assert(out@ == pool_bytes(*dex, header@, f@, d@, p.data_off, protos@, classes@) + section_bytes(
        f@,
        d@,
    ) + map@);
    let ghost whole = joined(*dex, *config, f@, *p, d@);
    assert(whole is Ok);
    let bytes = seal(dex, config, out)?;
    assert(bytes@ == whole->Ok_0.bytes);
    assert(reports@ == whole->Ok_0.reports);
    Ok((bytes, reports))
}

proof fn front_lens(dex: DexFile)
    requires
        front(dex) is Ok,
    ensures
        front(dex)->Ok_0.string_ids.len() == 4 * dex.strings@.len(),
        front(dex)->Ok_0.types.len() == 4 * dex.type_descriptors@.len(),
        front(dex)->Ok_0.fields.len() == 8 * dex.fields@.len(),
        front(dex)->Ok_0.methods.len() == 8 * dex.methods@.len(),
{
    reveal(front);
    let idxs = type_indexes(dex.strings@, dex.type_descriptors@, 0, Seq::empty())->Ok_0;
    type_indexes_len(dex.strings@, dex.type_descriptors@, 0, Seq::empty());
    type_ids_len(idxs, idxs.len());
    string_ids_len(crate::emit_dex::canonical::stored(dex.strings@), dex.strings@.len());
    field_ids_len(dex.fields@, 0);
    method_ids_len(dex.methods@, 0);
}

proof fn data_in_sequence(dex: DexFile, config: EmitConfig, f: Front, off: u32)
    requires
        data(dex, config, f, off) is Ok,
    ensures
        in_sequence(data(dex, config, f, off)->Ok_0),
{
    reveal(data);
}

/// Serializes a file in the canonical layout.
pub fn emit_canonical(dex: &DexFile, config: &EmitConfig) -> (r: Result<
    EmittedBytes,
    DexEmitError,
>)
    ensures
        gives_file(r, canonical_file(*dex, *config)),
{
    proof {
        reveal(canonical_file);
    }
    let f = emit_front(dex)?;
    let counts = PoolCounts {
        string_bytes: f.string_ids.len(),
        type_bytes: f.types.len(),
        protos: dex.protos.len(),
        field_bytes: f.fields.len(),
        method_bytes: f.methods.len(),
        classes: dex.class_defs.len(),
        call_sites: dex.call_site_ids.len(),
        handles: dex.method_handles.len(),
    };
    let p = place_pools(&counts, false)?;
    let d = emit_data(dex, config, &f, p.data_off)?;
    proof {
        front_lens(*dex);
        data_in_sequence(*dex, *config, f@, p.data_off);
    }
    join(dex, config, &f, &p, &d)
}

} // verus!
