//! The layout of the file that was read: every section where its own map list has
//! it.
use vstd::prelude::*;

use crate::bytes::{overlay, push_zeros, write_over, zeros};
use crate::collections::count;
use crate::dex_file::{section_layout_gauge, tiles, DexFile, SectionRegion};
use crate::emit_dex::assembly::{
    build_map, file_map, gives_file, header_of, make_header, map_report, pool_sizes, seal, sealed,
    Bases, Emitted, EmittedBytes,
};
use crate::emit_dex::canonical::{
    arrays_of, call_site_places, copied, section_of, stored, string_pairs,
};
use crate::emit_dex::code_item::sat32;
use crate::emit_dex::config::{CanonicalTransform, EmitConfig};
use crate::emit_dex::directory::{
    annotation_directory_section, emit_annotation_directory_section, Moved,
};
use crate::emit_dex::error::DexEmitError;
use crate::emit_dex::in_place::{
    annotation_directories_back, annotation_directories_in_place, annotation_items_back,
    annotation_items_in_place, annotation_set_ref_lists_back, annotation_set_ref_lists_in_place,
    annotation_sets_back, annotation_sets_in_place, class_datas_back, class_datas_in_place,
    code_items_back, code_items_in_place, debug_infos_back, debug_infos_in_place,
};
use crate::emit_dex::layout::{
    debug_linked, emit_linked_classes, emit_linked_protos, emit_ordered_types, find_types,
    lift_string_ids, lifted, link_debug_info, linked_classes, linked_protos, ordered_types,
    overflow, place_pools, pool_layout, type_indexes, type_indexes_len, Link, LinkRef, Links,
    PoolCounts, PoolPlaces,
};
use crate::emit_dex::map_list::{
    emit_map_list, input_offset_by_code, map_list, room_after, section_start, space_after,
};
use crate::emit_dex::map_type;
use crate::emit_dex::partial::{complete_file, emit_complete};
use crate::emit_dex::pools::{
    emit_field_pool, emit_method_pool, emit_string_pool, emit_string_pool_preserve_layout,
    field_ids, field_ids_len, method_handles, method_ids, method_ids_len, placed_ids_len,
    push_method_handles, push_words, string_data, string_ids, string_ids_len, string_pool_placed,
    type_ids_len, words, StringPool,
};
use crate::emit_dex::sections::{
    annotation_item_section, annotation_set_ref_list_section, annotation_set_section,
    class_data_section, code_item_section, debug_info_section, emit_annotation_item_section,
    emit_annotation_set_ref_list_section, emit_annotation_set_section, emit_class_data_section,
    emit_code_item_section, emit_debug_info_section, emit_encoded_array_section_with_widths,
    emit_type_list_section, gives_section, resolve_all, type_list_section, Section, SectionBytes,
};
use crate::emit_dex::written::{agrees, gives};

verus! {

/// Where a section of the file that was read starts and how long it is.
pub open spec fn place(dex: DexFile, code: u16) -> Option<(u32, u32)> {
    match section_start(dex.map_entries@, code, 0) {
        None => None,
        Some(base) => Some((base, room_after(dex.map_entries@, base, dex.header.file_size))),
    }
}

fn find_place(dex: &DexFile, code: u16) -> (r: Option<(u32, u32)>)
    ensures
        r == place(*dex, code),
{
    match input_offset_by_code(dex.map_entries.as_slice(), code) {
        None => None,
        Some(base) => Some(
            (base, space_after(dex.map_entries.as_slice(), base, dex.header.file_size)),
        ),
    }
}

// Strings

/// The data of each string can go back to where it was found.
pub open spec fn strings_stay(dex: DexFile) -> bool {
    &&& dex.string_data_offs@.len() == dex.strings@.len()
    &&& place(dex, map_type::STRING_DATA_ITEM) is Some
    &&& dex.strings@.len() > 0
}

/// The string pool. Where the data goes back to where it was found the ids are
/// final; otherwise they count from the start of the data.
pub open spec fn string_pool(dex: DexFile) -> Result<StringPool, DexEmitError> {
    let strings = stored(dex.strings@);
    if strings_stay(dex) {
        let (base, size) = place(dex, map_type::STRING_DATA_ITEM)->0;
        string_pool_placed(strings, dex.string_data_offs@, base, size)
    } else {
        Ok(
            StringPool {
                ids: string_ids(strings, strings.len()),
                data: string_data(strings, strings.len()),
            },
        )
    }
}

fn emit_strings(dex: &DexFile) -> (r: Result<(Vec<u8>, Vec<u8>, bool), DexEmitError>)
    ensures
        match string_pool(*dex) {
            Ok(p) => r matches Ok(v) && v.0@ == p.ids && v.1@ == p.data && v.2 == strings_stay(*dex)
                && p.ids.len() == 4 * dex.strings@.len(),
            Err(e) => r == Err::<(Vec<u8>, Vec<u8>, bool), DexEmitError>(e),
        },
{
    let pairs = string_pairs(dex.strings.as_slice());
    if dex.string_data_offs.len() == dex.strings.len() && dex.strings.len() > 0 {
        match find_place(dex, map_type::STRING_DATA_ITEM) {
            None => {},
            Some((base, size)) => {
                let (ids, data) = emit_string_pool_preserve_layout(
                    pairs.as_slice(),
                    dex.string_data_offs.as_slice(),
                    base,
                    size,
                )?;
                proof {
                    placed_ids_len(
                        stored(dex.strings@),
                        dex.string_data_offs@,
                        base,
                        StringPool { ids: Seq::empty(), data: zeros(size as nat) },
                        0,
                    );
                }
                return Ok((ids, data, true));
            },
        }
    }
    let (ids, data) = emit_string_pool(pairs.as_slice());
    proof {
        string_ids_len(stored(dex.strings@), dex.strings@.len());
    }
    Ok((ids, data, false))
}

// Pools

/// The pools that do not depend on where anything goes.
#[verifier::ext_equal]
pub struct Pools {
    pub string_ids: Seq<u8>,
    pub string_data: Seq<u8>,
    pub types: Seq<u8>,
    pub fields: Seq<u8>,
    pub methods: Seq<u8>,
}

/// The pools that do not depend on where anything goes.
#[verifier::opaque]
pub open spec fn pools(dex: DexFile) -> Result<Pools, DexEmitError> {
    match type_indexes(dex.strings@, dex.type_descriptors@, 0, Seq::empty()) {
        Err(e) => Err(e),
        Ok(idxs) => match string_pool(dex) {
            Err(e) => Err(e),
            Ok(strings) => match ordered_types(idxs) {
                Err(e) => Err(e),
                Ok(types) => match field_ids(dex.fields@, 0).result() {
                    Err(e) => Err(e),
                    Ok(fields) => match method_ids(dex.methods@, 0).result() {
                        Err(e) => Err(e),
                        Ok(methods) => Ok(
                            Pools {
                                string_ids: strings.ids,
                                string_data: strings.data,
                                types,
                                fields,
                                methods,
                            },
                        ),
                    },
                },
            },
        },
    }
}

/// The pools, in executable form, and whether the string ids are final.
pub struct PoolBytes {
    pub string_ids: Vec<u8>,
    pub string_data: Vec<u8>,
    pub strings_stay: bool,
    pub types: Vec<u8>,
    pub fields: Vec<u8>,
    pub methods: Vec<u8>,
}

impl View for PoolBytes {
    type V = Pools;

    open spec fn view(&self) -> Pools {
        Pools {
            string_ids: self.string_ids@,
            string_data: self.string_data@,
            types: self.types@,
            fields: self.fields@,
            methods: self.methods@,
        }
    }
}

fn emit_pools(dex: &DexFile) -> (r: Result<PoolBytes, DexEmitError>)
    ensures
        agrees(r, pools(*dex)),
        r matches Ok(p) ==> p.strings_stay == strings_stay(*dex) && p.string_ids@.len() == 4
            * dex.strings@.len() && p.types@.len() == 4 * dex.type_descriptors@.len()
            && p.fields@.len() == 8 * dex.fields@.len() && p.methods@.len() == 8
            * dex.methods@.len(),
{
    proof {
        reveal(pools);
    }
    let idxs = find_types(dex.strings.as_slice(), dex.type_descriptors.as_slice())?;
    let (string_ids, string_data, strings_stay) = emit_strings(dex)?;
    proof {
        type_indexes_len(dex.strings@, dex.type_descriptors@, 0, Seq::empty());
        type_ids_len(idxs@, idxs@.len());
    }
    let types = emit_ordered_types(idxs)?;
    let fields = emit_field_pool(dex.fields.as_slice())?;
    let methods = emit_method_pool(dex.methods.as_slice())?;
    proof {
        field_ids_len(dex.fields@, 0);
        method_ids_len(dex.methods@, 0);
    }
    Ok(PoolBytes { string_ids, string_data, strings_stay, types, fields, methods })
}

// What was seen of two sections when they were read

/// The regions that were seen cover the section, and all of them could be read.
pub open spec fn fully_seen(
    dex: DexFile,
    code: u16,
    regions: Seq<SectionRegion>,
    gauge: &'static str,
    unread: &'static str,
) -> Option<DexEmitError> {
    if regions.len() == 0 {
        None
    } else {
        let (base, end) = match place(dex, code) {
            None => (0u32, 0u32),
            Some((base, size)) => (base, sat32(base + size)),
        };
        if !tiles(regions, base, end) {
            Some(DexEmitError::UnrepresentableIR { why: gauge })
        } else if exists|i: int|
            0 <= i < regions.len() && (#[trigger] regions[i]) is UnparseableTail {
            Some(DexEmitError::UnrepresentableIR { why: unread })
        } else {
            None
        }
    }
}

fn check_seen(
    dex: &DexFile,
    code: u16,
    regions: &[SectionRegion],
    gauge: &'static str,
    unread: &'static str,
) -> (r: Result<(), DexEmitError>)
    ensures
        match fully_seen(*dex, code, regions@, gauge, unread) {
            None => r is Ok,
            Some(e) => r == Err::<(), DexEmitError>(e),
        },
{
    if regions.len() == 0 {
        return Ok(());
    }
    let (base, end) = match find_place(dex, code) {
        None => (0u32, 0u32),
        Some((base, size)) => (base, base.saturating_add(size)),
    };
    if !section_layout_gauge(base, end, regions) {
        return Err(DexEmitError::UnrepresentableIR { why: gauge });
    }
    let mut i: usize = 0;
    while i < regions.len()
        invariant
            i <= regions@.len(),
            regions@.len() > 0,
            fully_seen(*dex, code, regions@, gauge, unread) == (if exists|i: int|
                0 <= i < regions@.len() && (#[trigger] regions@[i]) is UnparseableTail {
                Some(DexEmitError::UnrepresentableIR { why: unread })
            } else {
                None::<DexEmitError>
            }),
            forall|j: int| 0 <= j < i ==> !((#[trigger] regions@[j]) is UnparseableTail),
        decreases regions@.len() - i,
    {
        if regions[i].is_unparseable_tail() {
            assert(regions@[i as int] is UnparseableTail);
            return Err(DexEmitError::UnrepresentableIR { why: unread });
        }
        i = i + 1;
    }
    Ok(())
}

// Sections that refer to no other

/// The sections that do not depend on where others go.
#[verifier::ext_equal]
pub struct Leaves {
    pub lists: Section,
    pub code: Section,
    pub debug: Section,
    pub items: Section,
    pub arrays: Section,
}

/// The method bodies: where they were found, if the file's map list has them.
pub open spec fn kept_code(dex: DexFile) -> Result<Section, DexEmitError> {
    match place(dex, map_type::CODE_ITEM) {
        Some((base, size)) if dex.code_items@.len() > 0 => code_items_in_place(
            dex.code_items@,
            base,
            size,
        ),
        _ => code_item_section(dex.code_items@),
    }
}

/// The debug info: where it was found, if the file's map list has it.
pub open spec fn kept_debug(dex: DexFile) -> Result<Section, DexEmitError> {
    match place(dex, map_type::DEBUG_INFO_ITEM) {
        Some((base, size)) if dex.debug_info_raw_bytes@.len() > 0 => debug_infos_in_place(
            dex.debug_info_raw_bytes@,
            base,
            size,
        ),
        _ => debug_info_section(dex.debug_info_raw_bytes@),
    }
}

/// The annotations: where they were found, if the file's map list has them. They
/// have to form a section at least widths too.
pub open spec fn kept_items(dex: DexFile, config: EmitConfig) -> Result<Section, DexEmitError> {
    match annotation_item_section(dex.annotation_items@) {
        Err(e) => Err(e),
        Ok(plain) => match place(dex, map_type::ANNOTATION_ITEM) {
            Some((base, size)) if dex.annotation_items@.len() > 0 => annotation_items_in_place(
                dex.annotation_items@,
                dex.annotation_item_widths@,
                config.preserve_encoded_value_width,
                base,
                size,
            ),
            _ => Ok(plain),
        },
    }
}

/// What stops the sections from going back: regions of debug info or of annotation
/// sets that could not be read.
pub open spec fn unseen(dex: DexFile) -> Option<DexEmitError> {
    match fully_seen(
        dex,
        map_type::DEBUG_INFO_ITEM,
        dex.debug_info_section_layout@,
        "preserve_data_section_layout: debug_info section_layout_gauge failed (parser could not produce a total tiling — see dex.parse_errors)",
        "preserve_data_section_layout: debug_info has UnparseableTail regions — input bytes can't be round-tripped under preserve mode",
    ) {
        Some(e) => Some(e),
        None => fully_seen(
            dex,
            map_type::ANNOTATION_SET_ITEM,
            dex.annotation_set_section_layout@,
            "preserve_data_section_layout: annotation_set section_layout_gauge failed",
            "preserve_data_section_layout: annotation_set has UnparseableTail regions",
        ),
    }
}

/// The sections that do not depend on where others go.
#[verifier::opaque]
pub open spec fn leaves(dex: DexFile, config: EmitConfig) -> Result<Leaves, DexEmitError> {
    match type_list_section(dex.type_lists@) {
        Err(e) => Err(e),
        Ok(lists) => match kept_code(dex) {
            Err(e) => Err(e),
            Ok(code) => match unseen(dex) {
                Some(e) => Err(e),
                None => match kept_debug(dex) {
                    Err(e) => Err(e),
                    Ok(debug) => match kept_items(dex, config) {
                        Err(e) => Err(e),
                        Ok(items) => match arrays_of(dex, config) {
                            Err(e) => Err(e),
                            Ok(arrays) => Ok(Leaves { lists, code, debug, items, arrays }),
                        },
                    },
                },
            },
        },
    }
}

/// The sections that do not depend on where others go, in executable form.
pub struct LeafBytes {
    pub lists: SectionBytes,
    pub code: SectionBytes,
    pub debug: SectionBytes,
    pub items: SectionBytes,
    pub arrays: SectionBytes,
}

impl View for LeafBytes {
    type V = Leaves;

    open spec fn view(&self) -> Leaves {
        Leaves {
            lists: section_of(self.lists),
            code: section_of(self.code),
            debug: section_of(self.debug),
            items: section_of(self.items),
            arrays: section_of(self.arrays),
        }
    }
}

/// Whether a map is not empty.
fn any<V>(m: &std::collections::BTreeMap<u32, V>) -> (r: bool)
    ensures
        r == (m@.len() > 0),
{
    count(m) > 0
}

fn keep_code(dex: &DexFile) -> (r: Result<SectionBytes, DexEmitError>)
    ensures
        gives_section(r, kept_code(*dex)),
{
    match find_place(dex, map_type::CODE_ITEM) {
        Some((base, size)) if any(&dex.code_items) => code_items_back(&dex.code_items, base, size),
        _ => emit_code_item_section(&dex.code_items),
    }
}

fn keep_debug(dex: &DexFile) -> (r: Result<SectionBytes, DexEmitError>)
    ensures
        gives_section(r, kept_debug(*dex)),
{
    match find_place(dex, map_type::DEBUG_INFO_ITEM) {
        Some((base, size)) if any(&dex.debug_info_raw_bytes) => debug_infos_back(
            &dex.debug_info_raw_bytes,
            base,
            size,
        ),
        _ => emit_debug_info_section(&dex.debug_info_raw_bytes),
    }
}

fn keep_items(dex: &DexFile, config: &EmitConfig) -> (r: Result<SectionBytes, DexEmitError>)
    ensures
        gives_section(r, kept_items(*dex, *config)),
{
    let plain = emit_annotation_item_section(&dex.annotation_items)?;
    match find_place(dex, map_type::ANNOTATION_ITEM) {
        Some((base, size)) if any(&dex.annotation_items) => annotation_items_back(
            &dex.annotation_items,
            &dex.annotation_item_widths,
            config.preserve_encoded_value_width,
            base,
            size,
        ),
        _ => Ok(plain),
    }
}

fn check_unseen(dex: &DexFile) -> (r: Result<(), DexEmitError>)
    ensures
        match unseen(*dex) {
            None => r is Ok,
            Some(e) => r == Err::<(), DexEmitError>(e),
        },
{
    check_seen(
        dex,
        map_type::DEBUG_INFO_ITEM,
        dex.debug_info_section_layout.as_slice(),
        "preserve_data_section_layout: debug_info section_layout_gauge failed (parser could not produce a total tiling — see dex.parse_errors)",
        "preserve_data_section_layout: debug_info has UnparseableTail regions — input bytes can't be round-tripped under preserve mode",
    )?;
    check_seen(
        dex,
        map_type::ANNOTATION_SET_ITEM,
        dex.annotation_set_section_layout.as_slice(),
        "preserve_data_section_layout: annotation_set section_layout_gauge failed",
        "preserve_data_section_layout: annotation_set has UnparseableTail regions",
    )
}

fn emit_leaves(dex: &DexFile, config: &EmitConfig) -> (r: Result<LeafBytes, DexEmitError>)
    ensures
        agrees(r, leaves(*dex, *config)),
{
    proof {
        reveal(leaves);
    }
    let lists = emit_type_list_section(&dex.type_lists)?;
    let code = keep_code(dex)?;
    check_unseen(dex)?;
    let debug = keep_debug(dex)?;
    let items = keep_items(dex, config)?;
    let arrays = emit_encoded_array_section_with_widths(
        &dex.encoded_arrays,
        if config.preserve_encoded_value_width {
            Some(&dex.encoded_array_widths)
        } else {
            None
        },
    )?;
    Ok(LeafBytes { lists, code, debug, items, arrays })
}

// Where the sections go

/// The file's map list has a section, if there is something in it.
pub open spec fn placed(dex: DexFile, code: u16, used: bool) -> bool {
    used ==> section_start(dex.map_entries@, code, 0) is Some
}

/// The file's map list has itself and every section with something in it.
pub open spec fn all_placed(dex: DexFile) -> bool {
    &&& placed(dex, map_type::MAP_LIST, true)
    &&& placed(dex, map_type::STRING_DATA_ITEM, dex.strings@.len() > 0)
    &&& placed(dex, map_type::TYPE_LIST, dex.type_lists@.len() > 0)
    &&& placed(dex, map_type::CODE_ITEM, dex.code_items@.len() > 0)
    &&& placed(dex, map_type::DEBUG_INFO_ITEM, dex.debug_info_raw_bytes@.len() > 0)
    &&& placed(dex, map_type::CLASS_DATA_ITEM, dex.class_datas@.len() > 0)
    &&& placed(dex, map_type::ANNOTATION_ITEM, dex.annotation_items@.len() > 0)
    &&& placed(dex, map_type::ANNOTATION_SET_ITEM, dex.annotation_sets@.len() > 0)
    &&& placed(
        dex,
        map_type::ANNOTATION_SET_REF_LIST,
        dex.annotation_set_ref_lists@.len() > 0,
    )
    &&& placed(dex, map_type::ANNOTATION_DIRECTORY_ITEM, dex.annotations@.len() > 0)
    &&& placed(dex, map_type::ENCODED_ARRAY_ITEM, dex.encoded_arrays@.len() > 0)
}

fn check_place(dex: &DexFile, code: u16, used: bool) -> (r: bool)
    ensures
        r == placed(*dex, code, used),
{
    !used || input_offset_by_code(dex.map_entries.as_slice(), code).is_some()
}

fn check_placed(dex: &DexFile) -> (r: bool)
    ensures
        r == all_placed(*dex),
{
    check_place(dex, map_type::MAP_LIST, true)
        && check_place(dex, map_type::STRING_DATA_ITEM, dex.strings.len() > 0)
        && check_place(dex, map_type::TYPE_LIST, any(&dex.type_lists))
        && check_place(dex, map_type::CODE_ITEM, any(&dex.code_items))
        && check_place(dex, map_type::DEBUG_INFO_ITEM, any(&dex.debug_info_raw_bytes))
        && check_place(dex, map_type::CLASS_DATA_ITEM, any(&dex.class_datas))
        && check_place(dex, map_type::ANNOTATION_ITEM, any(&dex.annotation_items))
        && check_place(dex, map_type::ANNOTATION_SET_ITEM, any(&dex.annotation_sets))
        && check_place(
        dex,
        map_type::ANNOTATION_SET_REF_LIST,
        any(&dex.annotation_set_ref_lists),
    ) && check_place(dex, map_type::ANNOTATION_DIRECTORY_ITEM, any(&dex.annotations))
        && check_place(dex, map_type::ENCODED_ARRAY_ITEM, any(&dex.encoded_arrays))
}

/// Where a section goes: where the file's map list has it. A section with nothing
/// in it goes nowhere. One with something in it is in the map list, and is refused only
/// where that has it at the start of the file, over the header.
pub open spec fn base_for(dex: DexFile, code: u16, used: bool, why: &'static str) -> Result<
    u32,
    DexEmitError,
> {
    if !used {
        Ok(0)
    } else {
        match section_start(dex.map_entries@, code, 0) {
            Some(b) if b != 0 => Ok(b),
            _ => Err(DexEmitError::UnrepresentableIR { why }),
        }
    }
}

fn base_or_required(dex: &DexFile, code: u16, used: bool, why: &'static str) -> (r: Result<
    u32,
    DexEmitError,
>)
    ensures
        r == base_for(*dex, code, used, why),
{
    if !used {
        return Ok(0);
    }
    match input_offset_by_code(dex.map_entries.as_slice(), code) {
        Some(b) if b != 0 => Ok(b),
        _ => Err(DexEmitError::UnrepresentableIR { why }),
    }
}

/// Where the string data goes: where the file's map list has it.
pub open spec fn string_data_base(dex: DexFile, used: bool) -> u32 {
    match section_start(dex.map_entries@, map_type::STRING_DATA_ITEM, 0) {
        Some(b) if used => b,
        _ => 0,
    }
}

/// Where all sections go.
#[verifier::opaque]
pub open spec fn bases(
    dex: DexFile,
    l: Leaves,
    strings_used: bool,
    map_off: u32,
) -> Result<Bases, DexEmitError> {
    match base_for(
        dex,
        map_type::TYPE_LIST,
        l.lists.blob.len() > 0,
        "preserve_data_section_layout: type_list has bytes but preserved base is 0/missing",
    ) {
        Err(e) => Err(e),
        Ok(type_list) => match base_for(
            dex,
            map_type::CODE_ITEM,
            l.code.blob.len() > 0,
            "preserve_data_section_layout: code_item has bytes but preserved base is 0/missing",
        ) {
            Err(e) => Err(e),
            Ok(code_item) => match base_for(
                dex,
                map_type::DEBUG_INFO_ITEM,
                l.debug.blob.len() > 0,
                "preserve_data_section_layout: debug_info has bytes but preserved base is 0/missing",
            ) {
                Err(e) => Err(e),
                Ok(debug_info) => match base_for(
                    dex,
                    map_type::CLASS_DATA_ITEM,
                    dex.class_datas@.len() > 0,
                    "preserve_data_section_layout: class_data has bytes but preserved base is 0/missing",
                ) {
                    Err(e) => Err(e),
                    Ok(class_data) => match base_for(
                        dex,
                        map_type::ANNOTATION_ITEM,
                        l.items.blob.len() > 0,
                        "preserve_data_section_layout: annotation_item has bytes but preserved base is 0/missing",
                    ) {
                        Err(e) => Err(e),
                        Ok(annotation_item) => match base_for(
                            dex,
                            map_type::ANNOTATION_SET_ITEM,
                            dex.annotation_sets@.len() > 0,
                            "preserve_data_section_layout: annotation_set has bytes but preserved base is 0/missing",
                        ) {
                            Err(e) => Err(e),
                            Ok(annotation_set) => match base_for(
                                dex,
                                map_type::ANNOTATION_SET_REF_LIST,
                                dex.annotation_set_ref_lists@.len() > 0,
                                "preserve_data_section_layout: annotation_set_ref_list has bytes but preserved base is 0/missing",
                            ) {
                                Err(e) => Err(e),
                                Ok(annotation_set_ref_list) => match base_for(
                                    dex,
                                    map_type::ANNOTATION_DIRECTORY_ITEM,
                                    dex.annotations@.len() > 0,
                                    "preserve_data_section_layout: annotation_directory has bytes but preserved base is 0/missing",
                                ) {
                                    Err(e) => Err(e),
                                    Ok(annotation_directory) => match base_for(
                                        dex,
                                        map_type::ENCODED_ARRAY_ITEM,
                                        l.arrays.blob.len() > 0,
                                        "preserve_data_section_layout: encoded_array has bytes but preserved base is 0/missing",
                                    ) {
                                        Err(e) => Err(e),
                                        Ok(encoded_array) => Ok(
                                            Bases {
                                                string_data: string_data_base(
                                                    dex,
                                                    strings_used,
                                                ),
                                                code_item,
                                                debug_info,
                                                class_data,
                                                annotation_item,
                                                annotation_set,
                                                annotation_set_ref_list,
                                                annotation_directory,
                                                encoded_array,
                                                type_list,
                                                map_list: map_off,
                                            },
                                        ),
                                    },
                                },
                            },
                        },
                    },
                },
            },
        },
    }
}

fn find_bases(dex: &DexFile, l: &LeafBytes, strings_used: bool, map_off: u32) -> (r: Result<
    Bases,
    DexEmitError,
>)
    ensures
        r == bases(*dex, l@, strings_used, map_off),
{
    proof {
        reveal(bases);
    }
    let string_data: u32 = match input_offset_by_code(
        dex.map_entries.as_slice(),
        map_type::STRING_DATA_ITEM,
    ) {
        Some(b) if strings_used => b,
        _ => 0,
    };
    let type_list: u32 = base_or_required(
        dex,
        map_type::TYPE_LIST,
        l.lists.0.len() > 0,
        "preserve_data_section_layout: type_list has bytes but preserved base is 0/missing",
    )?;
    let code_item: u32 = base_or_required(
        dex,
        map_type::CODE_ITEM,
        l.code.0.len() > 0,
        "preserve_data_section_layout: code_item has bytes but preserved base is 0/missing",
    )?;
    let debug_info: u32 = base_or_required(
        dex,
        map_type::DEBUG_INFO_ITEM,
        l.debug.0.len() > 0,
        "preserve_data_section_layout: debug_info has bytes but preserved base is 0/missing",
    )?;
    let class_data: u32 = base_or_required(
        dex,
        map_type::CLASS_DATA_ITEM,
        any(&dex.class_datas),
        "preserve_data_section_layout: class_data has bytes but preserved base is 0/missing",
    )?;
    let annotation_item: u32 = base_or_required(
        dex,
        map_type::ANNOTATION_ITEM,
        l.items.0.len() > 0,
        "preserve_data_section_layout: annotation_item has bytes but preserved base is 0/missing",
    )?;
    let annotation_set: u32 = base_or_required(
        dex,
        map_type::ANNOTATION_SET_ITEM,
        any(&dex.annotation_sets),
        "preserve_data_section_layout: annotation_set has bytes but preserved base is 0/missing",
    )?;
    let annotation_set_ref_list: u32 = base_or_required(
        dex,
        map_type::ANNOTATION_SET_REF_LIST,
        any(&dex.annotation_set_ref_lists),
        "preserve_data_section_layout: annotation_set_ref_list has bytes but preserved base is 0/missing",
    )?;
    let annotation_directory: u32 = base_or_required(
        dex,
        map_type::ANNOTATION_DIRECTORY_ITEM,
        any(&dex.annotations),
        "preserve_data_section_layout: annotation_directory has bytes but preserved base is 0/missing",
    )?;
    let encoded_array: u32 = base_or_required(
        dex,
        map_type::ENCODED_ARRAY_ITEM,
        l.arrays.0.len() > 0,
        "preserve_data_section_layout: encoded_array has bytes but preserved base is 0/missing",
    )?;
    Ok(
        Bases {
            string_data,
            code_item,
            debug_info,
            class_data,
            annotation_item,
            annotation_set,
            annotation_set_ref_list,
            annotation_directory,
            encoded_array,
            type_list,
            map_list: map_off,
        },
    )
}

// Sections that refer to others

/// The sections that refer to others, and the method bodies with the places of
/// their debug info.
#[verifier::ext_equal]
pub struct Branches {
    pub code: Seq<u8>,
    pub classes: Section,
    pub sets: Section,
    pub refs: Section,
    pub dirs: Section,
    /// The place of the encoded array of each call site.
    pub call_sites: Seq<u32>,
}

/// The class members: where they were found, if the file's map list has them.
pub open spec fn kept_classes(dex: DexFile, l: Leaves, b: Bases) -> Result<Section, DexEmitError> {
    match place(dex, map_type::CLASS_DATA_ITEM) {
        Some((_, size)) if dex.class_datas@.len() > 0 => class_datas_in_place(
            dex.class_datas@,
            dex.raw_class_data_bytes@,
            l.code.remap,
            b.code_item,
            b.class_data,
            size,
        ),
        _ => class_data_section(dex.class_datas@, l.code.remap, b.code_item),
    }
}

/// The annotation sets: where they were found, if the file's map list has them.
pub open spec fn kept_sets(dex: DexFile, l: Leaves, b: Bases) -> Result<Section, DexEmitError> {
    match place(dex, map_type::ANNOTATION_SET_ITEM) {
        Some((_, size)) if dex.annotation_sets@.len() > 0 => annotation_sets_in_place(
            dex.annotation_sets@,
            b.annotation_item,
            l.items.remap,
            b.annotation_set,
            size,
        ),
        _ => annotation_set_section(dex.annotation_sets@, b.annotation_item, l.items.remap),
    }
}

/// The lists of annotation sets: where they were found, if the file's map list has
/// them.
pub open spec fn kept_refs(dex: DexFile, sets: Section, b: Bases) -> Result<
    Section,
    DexEmitError,
> {
    match place(dex, map_type::ANNOTATION_SET_REF_LIST) {
        Some((_, size)) if dex.annotation_set_ref_lists@.len() > 0 => {
            annotation_set_ref_lists_in_place(
                dex.annotation_set_ref_lists@,
                b.annotation_set,
                sets.remap,
                b.annotation_set_ref_list,
                size,
            )
        },
        _ => annotation_set_ref_list_section(
            dex.annotation_set_ref_lists@,
            b.annotation_set,
            sets.remap,
        ),
    }
}

/// The annotation directories: where they were found, if the file's map list has
/// them.
pub open spec fn kept_dirs(dex: DexFile, sets: Section, refs: Section, b: Bases) -> Result<
    Section,
    DexEmitError,
> {
    let to = Moved {
        set_base: b.annotation_set,
        set_remap: sets.remap,
        list_base: b.annotation_set_ref_list,
        list_remap: refs.remap,
    };
    match place(dex, map_type::ANNOTATION_DIRECTORY_ITEM) {
        Some((_, size)) if dex.annotations@.len() > 0 => annotation_directories_in_place(
            dex.annotations@,
            to,
            b.annotation_directory,
            size,
        ),
        _ => annotation_directory_section(dex.annotations@, to),
    }
}

/// The sections that refer to others.
#[verifier::opaque]
pub open spec fn branches(dex: DexFile, l: Leaves, b: Bases) -> Result<Branches, DexEmitError> {
    match debug_linked(
        l.code.remap,
        dex.code_items@,
        l.debug.remap,
        b.debug_info,
        l.code.blob,
        0,
    ) {
        Err(e) => Err(e),
        Ok(code) => match kept_classes(dex, l, b) {
            Err(e) => Err(e),
            Ok(classes) => match kept_sets(dex, l, b) {
                Err(e) => Err(e),
                Ok(sets) => match kept_refs(dex, sets, b) {
                    Err(e) => Err(e),
                    Ok(refs) => match kept_dirs(dex, sets, refs, b) {
                        Err(e) => Err(e),
                        Ok(dirs) => match call_site_places(
                            dex.call_site_ids@,
                            b.encoded_array,
                            l.arrays.remap,
                        ) {
                            Err(e) => Err(e),
                            Ok(call_sites) => Ok(
                                Branches { code, classes, sets, refs, dirs, call_sites },
                            ),
                        },
                    },
                },
            },
        },
    }
}

/// The sections that refer to others, in executable form.
pub struct BranchBytes {
    pub code: Vec<u8>,
    pub classes: SectionBytes,
    pub sets: SectionBytes,
    pub refs: SectionBytes,
    pub dirs: SectionBytes,
    pub call_sites: Vec<u32>,
}

impl View for BranchBytes {
    type V = Branches;

    open spec fn view(&self) -> Branches {
        Branches {
            code: self.code@,
            classes: section_of(self.classes),
            sets: section_of(self.sets),
            refs: section_of(self.refs),
            dirs: section_of(self.dirs),
            call_sites: self.call_sites@,
        }
    }
}

fn keep_classes(dex: &DexFile, l: &LeafBytes, b: &Bases) -> (r: Result<SectionBytes, DexEmitError>)
    ensures
        gives_section(r, kept_classes(*dex, l@, *b)),
{
    match find_place(dex, map_type::CLASS_DATA_ITEM) {
        Some((_, size)) if any(&dex.class_datas) => class_datas_back(
            &dex.class_datas,
            &dex.raw_class_data_bytes,
            &l.code.1,
            b.code_item,
            b.class_data,
            size,
        ),
        _ => emit_class_data_section(&dex.class_datas, &l.code.1, b.code_item),
    }
}

fn keep_sets(dex: &DexFile, l: &LeafBytes, b: &Bases) -> (r: Result<SectionBytes, DexEmitError>)
    ensures
        gives_section(r, kept_sets(*dex, l@, *b)),
{
    match find_place(dex, map_type::ANNOTATION_SET_ITEM) {
        Some((_, size)) if any(&dex.annotation_sets) => annotation_sets_back(
            &dex.annotation_sets,
            b.annotation_item,
            &l.items.1,
            b.annotation_set,
            size,
        ),
        _ => emit_annotation_set_section(&dex.annotation_sets, b.annotation_item, &l.items.1),
    }
}

fn keep_refs(dex: &DexFile, sets: &SectionBytes, b: &Bases) -> (r: Result<
    SectionBytes,
    DexEmitError,
>)
    ensures
        gives_section(r, kept_refs(*dex, section_of(*sets), *b)),
{
    match find_place(dex, map_type::ANNOTATION_SET_REF_LIST) {
        Some((_, size)) if any(&dex.annotation_set_ref_lists) => annotation_set_ref_lists_back(
            &dex.annotation_set_ref_lists,
            b.annotation_set,
            &sets.1,
            b.annotation_set_ref_list,
            size,
        ),
        _ => emit_annotation_set_ref_list_section(
            &dex.annotation_set_ref_lists,
            b.annotation_set,
            &sets.1,
        ),
    }
}

fn keep_dirs(dex: &DexFile, sets: &SectionBytes, refs: &SectionBytes, b: &Bases) -> (r: Result<
    SectionBytes,
    DexEmitError,
>)
    ensures
        gives_section(r, kept_dirs(*dex, section_of(*sets), section_of(*refs), *b)),
{
    match find_place(dex, map_type::ANNOTATION_DIRECTORY_ITEM) {
        Some((_, size)) if any(&dex.annotations) => annotation_directories_back(
            &dex.annotations,
            b.annotation_set,
            &sets.1,
            b.annotation_set_ref_list,
            &refs.1,
            b.annotation_directory,
            size,
        ),
        _ => emit_annotation_directory_section(
            &dex.annotations,
            b.annotation_set,
            &sets.1,
            b.annotation_set_ref_list,
            &refs.1,
        ),
    }
}

fn emit_branches(dex: &DexFile, l: &LeafBytes, b: &Bases) -> (r: Result<BranchBytes, DexEmitError>)
    ensures
        agrees(r, branches(*dex, l@, *b)),
{
    proof {
        reveal(branches);
    }
    let code = link_debug_info(
        copied(l.code.0.as_slice()),
        &l.code.1,
        &dex.code_items,
        &l.debug.1,
        b.debug_info,
    )?;
    let classes = keep_classes(dex, l, b)?;
    let sets = keep_sets(dex, l, b)?;
    let refs = keep_refs(dex, &sets, b)?;
    let dirs = keep_dirs(dex, &sets, &refs, b)?;
    let call_sites = resolve_all(
        dex.call_site_ids.as_slice(),
        b.encoded_array,
        &l.arrays.1,
        "call_site_id references encoded_array not in dex.encoded_arrays",
        "call_site_id",
        "absolute offset overflow",
    )?;
    Ok(BranchBytes { code, classes, sets, refs, dirs, call_sites })
}

// Writing

/// `buf` with `bytes` written at `off`.
pub open spec fn written_at(buf: Seq<u8>, off: u32, bytes: Seq<u8>) -> Result<
    Seq<u8>,
    DexEmitError,
> {
    if off + bytes.len() > buf.len() {
        Err(
            DexEmitError::InvariantViolated {
                why: "preserve_layout: section bytes overrun pre-sized output buffer",
            },
        )
    } else {
        Ok(overlay(buf, off as int, bytes))
    }
}

/// `buf` with the parts from position `i` on written, each at its place. None may
/// go over the header.
pub open spec fn all_written(buf: Seq<u8>, parts: Seq<(u32, Seq<u8>)>, i: nat) -> Result<
    Seq<u8>,
    DexEmitError,
>
    decreases parts.len() - i,
{
    if i >= parts.len() {
        Ok(buf)
    } else {
        let (off, bytes) = parts[i as int];
        if off == 0 && bytes.len() > 0 {
            Err(
                DexEmitError::InvariantViolated {
                    why: "preserve_layout: data section base resolved to 0 — would stomp header magic",
                },
            )
        } else {
            match written_at(buf, off, bytes) {
                Err(e) => Err(e),
                Ok(next) => all_written(next, parts, i + 1),
            }
        }
    }
}

fn write_at(buf: &mut Vec<u8>, off: u32, bytes: &[u8]) -> (r: Result<(), DexEmitError>)
    ensures
        match written_at(old(buf)@, off, bytes@) {
            Ok(b) => r is Ok && final(buf)@ == b,
            Err(e) => r == Err::<(), DexEmitError>(e) && final(buf)@ == old(buf)@,
        },
{
    if off as usize > buf.len() || bytes.len() > buf.len() - off as usize {
        return Err(
            DexEmitError::InvariantViolated {
                why: "preserve_layout: section bytes overrun pre-sized output buffer",
            },
        );
    }
    write_over(buf.as_mut_slice(), off as usize, bytes);
    Ok(())
}

/// The parts that executable values stand for.
pub open spec fn parts_of(parts: Seq<(u32, &[u8])>) -> Seq<(u32, Seq<u8>)> {
    Seq::new(parts.len(), |i: int| (parts[i].0, parts[i].1@))
}

fn write_all(buf: Vec<u8>, parts: &[(u32, &[u8])]) -> (r: Result<Vec<u8>, DexEmitError>)
    ensures
        gives(r, all_written(buf@, parts_of(parts@), 0)),
{
    let ghost whole = all_written(buf@, parts_of(parts@), 0);
    let mut out: Vec<u8> = buf;
    let mut i: usize = 0;
    while i < parts.len()
        invariant
            i <= parts@.len(),
            whole == all_written(buf@, parts_of(parts@), 0),
            whole == all_written(out@, parts_of(parts@), i as nat),
        decreases parts@.len() - i,
    {
        let part: (u32, &[u8]) = parts[i];
        if part.0 == 0 && part.1.len() > 0 {
            return Err(
                DexEmitError::InvariantViolated {
                    why: "preserve_layout: data section base resolved to 0 — would stomp header magic",
                },
            );
        }
        write_at(&mut out, part.0, part.1)?;
        i = i + 1;
    }
    Ok(out)
}

/// A length as far as it fits in 32 bits, 0 if it does not.
pub open spec fn fitting(len: nat) -> u32 {
    if len <= u32::MAX {
        len as u32
    } else {
        0
    }
}

/// The furthest of `from` and the ends of the first `n` parts.
pub open spec fn furthest(parts: Seq<(u32, Seq<u8>)>, from: u32, n: nat) -> u32
    decreases n,
{
    if n == 0 {
        from
    } else {
        let before = furthest(parts, from, (n - 1) as nat);
        let end = sat32(parts[n - 1].0 + fitting(parts[n - 1].1.len()));
        if end > before {
            end
        } else {
            before
        }
    }
}

fn furthest_end(parts: &[(u32, &[u8])], from: u32) -> (r: u32)
    ensures
        r == furthest(parts_of(parts@), from, parts@.len()),
{
    let mut best: u32 = from;
    let mut i: usize = 0;
    while i < parts.len()
        invariant
            i <= parts@.len(),
            best == furthest(parts_of(parts@), from, i as nat),
        decreases parts@.len() - i,
    {
        let part: (u32, &[u8]) = parts[i];
        let len: u32 = if part.1.len() <= u32::MAX as usize {
            part.1.len() as u32
        } else {
            0
        };
        let end: u32 = part.0.saturating_add(len);
        if end > best {
            best = end;
        }
        i = i + 1;
    }
    best
}

// The whole

/// The string ids with the places of the string data.
pub open spec fn final_string_ids(dex: DexFile, ids: Seq<u8>, base: u32) -> Seq<u8> {
    if strings_stay(dex) {
        ids
    } else {
        lifted(ids, base, ids.len() / 4)
    }
}

/// The sections with their places.
#[verifier::opaque]
pub open spec fn section_parts(p: Pools, l: Leaves, b: Bases, s: Branches) -> Seq<(u32, Seq<u8>)> {
    seq![
        (b.string_data, p.string_data),
        (b.type_list, l.lists.blob),
        (b.code_item, s.code),
        (b.debug_info, l.debug.blob),
        (b.class_data, s.classes.blob),
        (b.annotation_item, l.items.blob),
        (b.annotation_set, s.sets.blob),
        (b.annotation_set_ref_list, s.refs.blob),
        (b.annotation_directory, s.dirs.blob),
        (b.encoded_array, l.arrays.blob),
    ]
}

/// The id pools with their places.
#[verifier::opaque]
pub open spec fn pool_parts(
    dex: DexFile,
    p: Pools,
    at: PoolPlaces,
    b: Bases,
    protos: Seq<u8>,
    classes: Seq<u8>,
    call_sites: Seq<u32>,
) -> Seq<(u32, Seq<u8>)> {
    seq![
        (at.string_ids_off, final_string_ids(dex, p.string_ids, b.string_data)),
        (at.type_ids_off, p.types),
        (at.proto_ids_off, protos),
        (at.field_ids_off, p.fields),
        (at.method_ids_off, p.methods),
        (at.class_defs_off, classes),
        (at.call_site_ids_off, words(call_sites, call_sites.len())),
        (
            at.method_handles_off,
            method_handles(dex.method_handles@, dex.method_handles@.len()),
        ),
    ]
}

/// The start and the length of the data as the header has them: as they were read
/// where they still fit.
pub open spec fn data_extent(dex: DexFile, data_off: u32, file_size: u32) -> (u32, u32) {
    let off = dex.header.data_off;
    let size = dex.header.data_size;
    if off > 0 && sat32(off + size) <= file_size {
        (off, size)
    } else {
        (data_off, if file_size >= data_off {
            (file_size - data_off) as u32
        } else {
            0
        })
    }
}

/// The length of the file: that of the file read, or more where a section or the map
/// list ends behind it.
pub open spec fn kept_length(
    dex: DexFile,
    sections: Seq<(u32, Seq<u8>)>,
    map_off: u32,
    map_len: nat,
) -> u32 {
    let end = furthest(sections, sat32(map_off + map_len), sections.len());
    if end > dex.header.file_size {
        end
    } else {
        dex.header.file_size
    }
}

/// The file once everything has its place.
#[verifier::opaque]
pub open spec fn filled(
    file_size: u32,
    header: Seq<u8>,
    pools: Seq<(u32, Seq<u8>)>,
    sections: Seq<(u32, Seq<u8>)>,
    map_off: u32,
    map: Seq<u8>,
) -> Result<Seq<u8>, DexEmitError> {
    match written_at(zeros(file_size as nat), 0, header) {
        Err(e) => Err(e),
        Ok(a) => match all_written(a, pools, 0) {
            Err(e) => Err(e),
            Ok(b) => match all_written(b, sections, 0) {
                Err(e) => Err(e),
                Ok(c) => written_at(c, map_off, map),
            },
        },
    }
}

/// The map list.
#[verifier::opaque]
pub open spec fn kept_map(dex: DexFile, config: EmitConfig, at: PoolPlaces, b: Bases) -> Result<
    Seq<u8>,
    DexEmitError,
> {
    map_list(file_map(dex, config, at, b), config.preserve_map_list_order)
}

/// The links of the pools.
pub open spec fn kept_links(l: Leaves, b: Bases, s: Branches) -> Links {
    Links {
        lists: Link { base: b.type_list, remap: l.lists.remap },
        classes: Link { base: b.class_data, remap: s.classes.remap },
        directories: Link { base: b.annotation_directory, remap: s.dirs.remap },
        arrays: Link { base: b.encoded_array, remap: l.arrays.remap },
    }
}

/// The file put together.
pub open spec fn fitted(
    dex: DexFile,
    config: EmitConfig,
    p: Pools,
    at: PoolPlaces,
    l: Leaves,
    b: Bases,
    s: Branches,
) -> Result<Emitted, DexEmitError> {
    match kept_map(dex, config, at, b) {
        Err(e) => Err(e),
        Ok(map) => match linked_protos(dex.protos@, kept_links(l, b, s).lists) {
            Err(e) => Err(e),
            Ok(protos) => match linked_classes(dex.class_defs@, kept_links(l, b, s)) {
                Err(e) => Err(e),
                Ok(classes) => if map.len() > u32::MAX {
                    Err(overflow("map_list", "map_list size overflow"))
                } else {
                    let sections = section_parts(p, l, b, s);
                    let file_size = kept_length(dex, sections, b.map_list, map.len());
                    let (data_off, data_size) = data_extent(dex, at.data_off, file_size);
                    match filled(
                        file_size,
                        header_of(dex, at, file_size, b.map_list, data_off, data_size),
                        pool_parts(dex, p, at, b, protos, classes, s.call_sites),
                        sections,
                        b.map_list,
                        map,
                    ) {
                        Err(e) => Err(e),
                        Ok(bytes) => Ok(
                            Emitted {
                                bytes: sealed(dex, config, bytes),
                                reports: map_report(dex, config, file_map(dex, config, at, b)),
                            },
                        ),
                    }
                },
            },
        },
    }
}

/// The file with every section where its own map list has it.
pub open spec fn kept_file(dex: DexFile, config: EmitConfig) -> Result<Emitted, DexEmitError> {
    match pools(dex) {
        Err(e) => Err(e),
        Ok(p) => match pool_layout(
            pool_sizes(dex, p.string_ids, p.types, p.fields, p.methods),
            true,
        ) {
            Err(e) => Err(e),
            Ok(at) => match leaves(dex, config) {
                Err(e) => Err(e),
                Ok(l) => match bases(
                    dex,
                    l,
                    p.string_data.len() > 0,
                    section_start(dex.map_entries@, map_type::MAP_LIST, 0)->Some_0,
                ) {
                    Err(e) => Err(e),
                    Ok(b) => match branches(dex, l, b) {
                        Err(e) => Err(e),
                        Ok(s) => fitted(dex, config, p, at, l, b, s),
                    },
                },
            },
        },
    }
}

/// The options with the layout left to canonical form.
pub open spec fn laid_out_anew(config: EmitConfig) -> EmitConfig {
    EmitConfig { preserve_data_section_layout: false, ..config }
}

/// The file with every section where its own map list has it. Where that list lacks
/// the place of one, there is no layout to keep: the file is in canonical form.
pub open spec fn preserved_file(dex: DexFile, config: EmitConfig) -> Result<
    Emitted,
    DexEmitError,
> {
    if all_placed(dex) {
        kept_file(dex, config)
    } else {
        complete_file(dex, laid_out_anew(config))
    }
}

fn fill(
    file_size: u32,
    header: &Vec<u8>,
    pools: &Vec<(u32, &[u8])>,
    sections: &Vec<(u32, &[u8])>,
    map_off: u32,
    map: &Vec<u8>,
) -> (r: Result<Vec<u8>, DexEmitError>)
    requires
        header@.len() == 112,
    ensures
        gives(
            r,
            filled(file_size, header@, parts_of(pools@), parts_of(sections@), map_off, map@),
        ),
        r matches Ok(v) ==> 32 <= v@.len() <= u32::MAX,
{
    proof {
        reveal(filled);
    }
    let mut out: Vec<u8> = Vec::new();
    push_zeros(&mut out, file_size as usize);
    assert(out@ =~= zeros(file_size as nat));
    write_at(&mut out, 0, header.as_slice())?;
    proof {
        all_written_len(out@, parts_of(pools@), 0);
    }
    let out = write_all(out, pools.as_slice())?;
    proof {
        all_written_len(out@, parts_of(sections@), 0);
    }
    let mut out = write_all(out, sections.as_slice())?;
    write_at(&mut out, map_off, map.as_slice())?;
    Ok(out)
}

/// Writing parts into a buffer does not change its length.
pub proof fn all_written_len(buf: Seq<u8>, parts: Seq<(u32, Seq<u8>)>, i: nat)
    ensures
        all_written(buf, parts, i) matches Ok(b) ==> b.len() == buf.len(),
    decreases parts.len() - i,
{
    if i < parts.len() {
        let (off, bytes) = parts[i as int];
        match written_at(buf, off, bytes) {
            Err(_) => {},
            Ok(next) => all_written_len(next, parts, i + 1),
        }
    }
}

fn list_sections<'a>(p: &'a PoolBytes, l: &'a LeafBytes, b: &Bases, s: &'a BranchBytes) -> (r: Vec<
    (u32, &'a [u8]),
>)
    ensures
        parts_of(r@) == section_parts(p@, l@, *b, s@),
{
    let mut out: Vec<(u32, &[u8])> = Vec::new();
    out.push((b.string_data, p.string_data.as_slice()));
    out.push((b.type_list, l.lists.0.as_slice()));
    out.push((b.code_item, s.code.as_slice()));
    out.push((b.debug_info, l.debug.0.as_slice()));
    out.push((b.class_data, s.classes.0.as_slice()));
    out.push((b.annotation_item, l.items.0.as_slice()));
    out.push((b.annotation_set, s.sets.0.as_slice()));
    out.push((b.annotation_set_ref_list, s.refs.0.as_slice()));
    out.push((b.annotation_directory, s.dirs.0.as_slice()));
    out.push((b.encoded_array, l.arrays.0.as_slice()));
    proof {
        reveal(section_parts);
    }
    assert(parts_of(out@) =~= section_parts(p@, l@, *b, s@));
    out
}

/// The string ids with the places of the string data.
fn place_string_ids(dex: &DexFile, p: &PoolBytes, base: u32) -> (r: Vec<u8>)
    requires
        p.strings_stay == strings_stay(*dex),
    ensures
        r@ == final_string_ids(*dex, p.string_ids@, base),
{
    if p.strings_stay {
        copied(p.string_ids.as_slice())
    } else {
        lift_string_ids(p.string_ids.as_slice(), base)
    }
}

fn list_pools<'a>(
    dex: &DexFile,
    p: &'a PoolBytes,
    at: &PoolPlaces,
    b: &Bases,
    s: &BranchBytes,
    ids: &'a Vec<u8>,
    protos: &'a Vec<u8>,
    classes: &'a Vec<u8>,
    call_sites: &'a Vec<u8>,
    handles: &'a Vec<u8>,
) -> (r: Vec<(u32, &'a [u8])>)
    requires
        ids@ == final_string_ids(*dex, p.string_ids@, b.string_data),
        call_sites@ == words(s.call_sites@, s.call_sites@.len()),
        handles@ == method_handles(dex.method_handles@, dex.method_handles@.len()),
    ensures
        parts_of(r@) == pool_parts(*dex, p@, *at, *b, protos@, classes@, s.call_sites@),
{
    let mut pools: Vec<(u32, &[u8])> = Vec::new();
    pools.push((at.string_ids_off, ids.as_slice()));
    pools.push((at.type_ids_off, p.types.as_slice()));
    pools.push((at.proto_ids_off, protos.as_slice()));
    pools.push((at.field_ids_off, p.fields.as_slice()));
    pools.push((at.method_ids_off, p.methods.as_slice()));
    pools.push((at.class_defs_off, classes.as_slice()));
    pools.push((at.call_site_ids_off, call_sites.as_slice()));
    pools.push((at.method_handles_off, handles.as_slice()));
    proof {
        reveal(pool_parts);
    }
    assert(parts_of(pools@) =~= pool_parts(*dex, p@, *at, *b, protos@, classes@, s.call_sites@));
    pools
}

/// Makes the map list and the reports.
fn keep_map(
    dex: &DexFile,
    config: &EmitConfig,
    at: &PoolPlaces,
    b: &Bases,
    reports: &mut Vec<CanonicalTransform>,
) -> (r: Result<Vec<u8>, DexEmitError>)
    requires
        old(reports)@.len() == 0,
    ensures
        gives(r, kept_map(*dex, *config, *at, *b)),
        final(reports)@ == map_report(*dex, *config, file_map(*dex, *config, *at, *b)),
{
    let items = build_map(dex, config, at, b, reports);
    proof {
        reveal(kept_map);
    }
    assert(reports@ =~= map_report(*dex, *config, items@));
    emit_map_list(items.as_slice(), config.preserve_map_list_order)
}

fn fit(
    dex: &DexFile,
    config: &EmitConfig,
    p: &PoolBytes,
    at: &PoolPlaces,
    l: &LeafBytes,
    b: &Bases,
    s: &BranchBytes,
) -> (r: Result<EmittedBytes, DexEmitError>)
    requires
        p.strings_stay == strings_stay(*dex),
        dex.strings@.len() <= u32::MAX,
        dex.type_descriptors@.len() <= u32::MAX,
        dex.protos@.len() <= u32::MAX,
        dex.fields@.len() <= u32::MAX,
        dex.methods@.len() <= u32::MAX,
        dex.class_defs@.len() <= u32::MAX,
    ensures
        gives_file(r, fitted(*dex, *config, p@, *at, l@, *b, s@)),
{
    let ghost whole = fitted(*dex, *config, p@, *at, l@, *b, s@);
    let mut reports: Vec<CanonicalTransform> = Vec::new();
    let map = keep_map(dex, config, at, b, &mut reports)?;
    let lists = LinkRef { base: b.type_list, remap: &l.lists.1 };
    let datas = LinkRef { base: b.class_data, remap: &s.classes.1 };
    let directories = LinkRef { base: b.annotation_directory, remap: &s.dirs.1 };
    let arrays = LinkRef { base: b.encoded_array, remap: &l.arrays.1 };
    let protos = emit_linked_protos(dex.protos.as_slice(), &lists)?;
    let classes = emit_linked_classes(
        dex.class_defs.as_slice(),
        &lists,
        &datas,
        &directories,
        &arrays,
    )?;
    if map.len() > u32::MAX as usize {
        return Err(
            DexEmitError::OffsetOverflow { section: "map_list", context: "map_list size overflow" },
        );
    }
    let sections = list_sections(p, l, b, s);
    let end: u32 = furthest_end(
        sections.as_slice(),
        b.map_list.saturating_add(map.len() as u32),
    );
    let file_size: u32 = if end > dex.header.file_size {
        end
    } else {
        dex.header.file_size
    };
    let in_end: u32 = dex.header.data_off.saturating_add(dex.header.data_size);
    let (data_off, data_size) = if dex.header.data_off > 0 && in_end <= file_size {
        (dex.header.data_off, dex.header.data_size)
    } else {
        (at.data_off, file_size.saturating_sub(at.data_off))
    };
    let header = make_header(dex, at, file_size, b.map_list, data_off, data_size);
    let ids = place_string_ids(dex, p, b.string_data);
    let mut call_sites: Vec<u8> = Vec::new();
    push_words(&mut call_sites, s.call_sites.as_slice());
    assert(call_sites@ =~= words(s.call_sites@, s.call_sites@.len()));
    let mut handles: Vec<u8> = Vec::new();
    push_method_handles(&mut handles, dex.method_handles.as_slice());
    assert(handles@ =~= method_handles(dex.method_handles@, dex.method_handles@.len()));
    let pools = list_pools(dex, p, at, b, s, &ids, &protos, &classes, &call_sites, &handles);
    let out = fill(file_size, &header, &pools, &sections, b.map_list, &map)?;
    assert(whole is Ok);
    let bytes = seal(dex, config, out)?;
    assert(bytes@ == whole->Ok_0.bytes);
    assert(reports@ == whole->Ok_0.reports);
    Ok((bytes, reports))
}

fn keep_file(dex: &DexFile, config: &EmitConfig, map_off: u32) -> (r: Result<
    EmittedBytes,
    DexEmitError,
>)
    requires
        section_start(dex.map_entries@, map_type::MAP_LIST, 0) == Some(map_off),
    ensures
        gives_file(r, kept_file(*dex, *config)),
{
    let p = emit_pools(dex)?;
    let counts = PoolCounts {
        string_bytes: p.string_ids.len(),
        type_bytes: p.types.len(),
        protos: dex.protos.len(),
        field_bytes: p.fields.len(),
        method_bytes: p.methods.len(),
        classes: dex.class_defs.len(),
        call_sites: dex.call_site_ids.len(),
        handles: dex.method_handles.len(),
    };
    let at = place_pools(&counts, true)?;
    let l = emit_leaves(dex, config)?;
    let b = find_bases(dex, &l, p.string_data.len() > 0, map_off)?;
    let s = emit_branches(dex, &l, &b)?;
    fit(dex, config, &p, &at, &l, &b, &s)
}

/// Serializes a file with every section where its own map list has it. Where that list
/// lacks the place of one, the file is serialized in canonical form, as without the
/// wish to keep its layout.
pub fn emit_dex_inner_preserve_layout(dex: &DexFile, config: &EmitConfig) -> (r: Result<
    EmittedBytes,
    DexEmitError,
>)
    ensures
        gives_file(r, preserved_file(*dex, *config)),
{
    if check_placed(dex) {
        match input_offset_by_code(dex.map_entries.as_slice(), map_type::MAP_LIST) {
            Some(map_off) => {
                return keep_file(dex, config, map_off);
            },
            None => {},
        }
    }
    let anew = EmitConfig { preserve_data_section_layout: false, ..*config };
    emit_complete(dex, &anew)
}

} // verus!
