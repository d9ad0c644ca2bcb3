//! The canonical layout: sections one after the other in a fixed order.
use vstd::prelude::*;

use crate::dex_file::DexFile;
use crate::dex_string::DexString;
use crate::emit_dex::code_item::sat32;
use crate::emit_dex::config::{
    padding_report, report_padding, AlignmentSection, CanonicalTransform, EmitConfig,
};
use crate::emit_dex::directory::{
    annotation_directory_section, emit_annotation_directory_section, Moved,
};
use crate::emit_dex::error::DexEmitError;
use crate::emit_dex::layout::{
    after, align_up_u32, aligned_up, debug_linked, emit_ordered_types, find_types, link_debug_info,
    ordered_types, overflow, type_indexes,
};
use crate::emit_dex::pools::{
    contents, emit_field_pool, emit_method_pool, emit_string_pool, field_ids, method_ids,
    string_data, string_ids,
};
use crate::emit_dex::sections::{
    all_resolved, annotation_item_section, annotation_set_ref_list_section,
    annotation_set_section, class_data_section, code_item_section, debug_info_section,
    emit_annotation_item_section, emit_annotation_set_ref_list_section,
    emit_annotation_set_section, emit_class_data_section, emit_code_item_section,
    emit_debug_info_section, emit_encoded_array_section_with_widths, emit_type_list_section,
    encoded_array_section, resolve_all, type_list_section, Section, SectionBytes,
};
use crate::emit_dex::written::agrees;

verus! {

/// The section that executable values stand for.
pub open spec fn section_of(s: SectionBytes) -> Section {
    Section { blob: s.0@, remap: s.1@ }
}

/// The declared length and the stored bytes of each string.
pub open spec fn stored(strings: Seq<DexString>) -> Seq<(u32, Seq<u8>)> {
    strings.map_values(|s: DexString| (s.declared(), s.stored()))
}

/// The declared length and the stored bytes of each string.
pub fn string_pairs(strings: &[DexString]) -> (r: Vec<(u32, &[u8])>)
    ensures
        contents(r@) == stored(strings@),
        r@.len() == strings@.len(),
{
    let mut out: Vec<(u32, &[u8])> = Vec::new();
    let mut i: usize = 0;
    while i < strings.len()
        invariant
            i <= strings@.len(),
            out@.len() == i,
            contents(out@) =~= stored(strings@).take(i as int),
        decreases strings@.len() - i,
    {
        out.push((strings[i].declared_chars(), strings[i].raw_bytes()));
        i = i + 1;
        assert(contents(out@) =~= stored(strings@).take(i as int));
    }
    assert(stored(strings@).take(i as int) =~= stored(strings@));
    out
}

// What does not depend on where anything goes

/// The pools and sections that do not depend on where anything goes.
#[verifier::ext_equal]
pub struct Front {
    pub lists: Section,
    pub code: Section,
    pub debug: Section,
    pub string_ids: Seq<u8>,
    pub string_data: Seq<u8>,
    pub types: Seq<u8>,
    pub fields: Seq<u8>,
    pub methods: Seq<u8>,
}

/// The pools and sections that do not depend on where anything goes.
#[verifier::opaque]
pub open spec fn front(dex: DexFile) -> Result<Front, DexEmitError> {
    match type_indexes(dex.strings@, dex.type_descriptors@, 0, Seq::empty()) {
        Err(e) => Err(e),
        Ok(idxs) => match type_list_section(dex.type_lists@) {
            Err(e) => Err(e),
            Ok(lists) => match code_item_section(dex.code_items@) {
                Err(e) => Err(e),
                Ok(code) => match debug_info_section(dex.debug_info_raw_bytes@) {
                    Err(e) => Err(e),
                    Ok(debug) => match ordered_types(idxs) {
                        Err(e) => Err(e),
                        Ok(types) => match field_ids(dex.fields@, 0).result() {
                            Err(e) => Err(e),
                            Ok(fields) => match method_ids(dex.methods@, 0).result() {
                                Err(e) => Err(e),
                                Ok(methods) => Ok(
                                    Front {
                                        lists,
                                        code,
                                        debug,
                                        string_ids: string_ids(
                                            stored(dex.strings@),
                                            dex.strings@.len(),
                                        ),
                                        string_data: string_data(
                                            stored(dex.strings@),
                                            dex.strings@.len(),
                                        ),
                                        types,
                                        fields,
                                        methods,
                                    },
                                ),
                            },
                        },
                    },
                },
            },
        },
    }
}

/// The pools and sections that do not depend on where anything goes, in executable
/// form.
pub struct FrontBytes {
    pub lists: SectionBytes,
    pub code: SectionBytes,
    pub debug: SectionBytes,
    pub string_ids: Vec<u8>,
    pub string_data: Vec<u8>,
    pub types: Vec<u8>,
    pub fields: Vec<u8>,
    pub methods: Vec<u8>,
}

impl View for FrontBytes {
    type V = Front;

    open spec fn view(&self) -> Front {
        Front {
            lists: section_of(self.lists),
            code: section_of(self.code),
            debug: section_of(self.debug),
            string_ids: self.string_ids@,
            string_data: self.string_data@,
            types: self.types@,
            fields: self.fields@,
            methods: self.methods@,
        }
    }
}

/// Makes the pools and sections that do not depend on where anything goes.
pub fn emit_front(dex: &DexFile) -> (r: Result<FrontBytes, DexEmitError>)
    ensures
        agrees(r, front(*dex)),
{
    proof {
        reveal(front);
    }
    let idxs = find_types(dex.strings.as_slice(), dex.type_descriptors.as_slice())?;
    let lists = emit_type_list_section(&dex.type_lists)?;
    let code = emit_code_item_section(&dex.code_items)?;
    let debug = emit_debug_info_section(&dex.debug_info_raw_bytes)?;
    let pairs = string_pairs(dex.strings.as_slice());
    let (string_ids, string_data) = emit_string_pool(pairs.as_slice());
    let types = emit_ordered_types(idxs)?;
    let fields = emit_field_pool(dex.fields.as_slice())?;
    let methods = emit_method_pool(dex.methods.as_slice())?;
    Ok(FrontBytes { lists, code, debug, string_ids, string_data, types, fields, methods })
}

// Method bodies and class members

/// Method bodies, debug info and class members, and where they start.
#[verifier::ext_equal]
pub struct Bodies {
    pub code_base: u32,
    pub code: Seq<u8>,
    pub debug_base: u32,
    pub class_base: u32,
    pub classes: Section,
    pub end: u32,
}

/// Method bodies, debug info and class members, laid out from `off` on.
pub open spec fn bodies(dex: DexFile, code: Section, debug: Section, off: u32) -> Result<
    Bodies,
    DexEmitError,
> {
    match aligned_up(off, 4) {
        None => Err(overflow("code_item_section", "alignment padding overflowed u32")),
        Some(code_base) => if code.blob.len() > u32::MAX {
            Err(overflow("code_item_section", "code_item_section offset overflow"))
        } else if debug.blob.len() > u32::MAX {
            Err(overflow("debug_info_section", "debug_info_section offset overflow"))
        } else {
            let debug_base = sat32(code_base + code.blob.len());
            let class_base = sat32(debug_base + debug.blob.len());
            match debug_linked(
                code.remap,
                dex.code_items@,
                debug.remap,
                debug_base,
                code.blob,
                0,
            ) {
                Err(e) => Err(e),
                Ok(linked) => match class_data_section(dex.class_datas@, code.remap, code_base) {
                    Err(e) => Err(e),
                    Ok(classes) => if classes.blob.len() > u32::MAX {
                        Err(overflow("class_data_section", "class_data_section offset overflow"))
                    } else {
                        Ok(
                            Bodies {
                                code_base,
                                code: linked,
                                debug_base,
                                class_base,
                                classes,
                                end: sat32(class_base + classes.blob.len()),
                            },
                        )
                    },
                },
            }
        },
    }
}

/// Method bodies, debug info and class members, in executable form.
pub struct BodiesBytes {
    pub code_base: u32,
    pub code: Vec<u8>,
    pub debug_base: u32,
    pub class_base: u32,
    pub classes: SectionBytes,
    pub end: u32,
}

impl View for BodiesBytes {
    type V = Bodies;

    open spec fn view(&self) -> Bodies {
        Bodies {
            code_base: self.code_base,
            code: self.code@,
            debug_base: self.debug_base,
            class_base: self.class_base,
            classes: section_of(self.classes),
            end: self.end,
        }
    }
}

/// Lays out method bodies, debug info and class members from `off` on.
pub fn emit_bodies(dex: &DexFile, code: &SectionBytes, debug: &SectionBytes, off: u32) -> (r:
    Result<BodiesBytes, DexEmitError>)
    ensures
        agrees(r, bodies(*dex, section_of(*code), section_of(*debug), off)),
{
    let code_base: u32 = match align_up_u32(off, 4) {
        None => {
            return Err(
                DexEmitError::OffsetOverflow {
                    section: "code_item_section",
                    context: "alignment padding overflowed u32",
                },
            );
        },
        Some(b) => b,
    };
    let debug_base: u32 = after(
        code_base,
        code.0.len(),
        "code_item_section",
        "code_item_section offset overflow",
    )?;
    let class_base: u32 = after(
        debug_base,
        debug.0.len(),
        "debug_info_section",
        "debug_info_section offset overflow",
    )?;
    let linked = link_debug_info(
        copied(code.0.as_slice()),
        &code.1,
        &dex.code_items,
        &debug.1,
        debug_base,
    )?;
    let classes = emit_class_data_section(&dex.class_datas, &code.1, code_base)?;
    let end: u32 = after(
        class_base,
        classes.0.len(),
        "class_data_section",
        "class_data_section offset overflow",
    )?;
    Ok(BodiesBytes { code_base, code: linked, debug_base, class_base, classes, end })
}

/// A copy of some bytes.
pub fn copied(bytes: &[u8]) -> (r: Vec<u8>)
    ensures
        r@ == bytes@,
{
    let mut out: Vec<u8> = Vec::new();
    out.extend_from_slice(bytes);
    assert(out@ =~= bytes@);
    out
}

// Annotations

/// The annotation sections, where they start, and where those end that the next
/// has to be aligned after.
#[verifier::ext_equal]
pub struct Annotations {
    pub item_base: u32,
    pub items: Section,
    pub item_end: u32,
    pub set_base: u32,
    pub sets: Section,
    pub set_end: u32,
    pub ref_base: u32,
    pub refs: Section,
    pub ref_end: u32,
    pub dir_base: u32,
    pub dirs: Section,
    pub dir_end: u32,
}

/// A section of annotations at the next multiple of four, with its start and end.
pub open spec fn aligned_section(
    off: u32,
    section: Result<Section, DexEmitError>,
    name: &'static str,
    too_long: &'static str,
) -> Result<(u32, Section, u32), DexEmitError> {
    match aligned_up(off, 4) {
        None => Err(overflow(name, "alignment padding overflowed u32")),
        Some(base) => match section {
            Err(e) => Err(e),
            Ok(s) => if s.blob.len() > u32::MAX {
                Err(overflow(name, too_long))
            } else {
                Ok((base, s, sat32(base + s.blob.len())))
            },
        },
    }
}

/// The annotation sections, laid out from `off` on.
pub open spec fn annotations(dex: DexFile, off: u32) -> Result<Annotations, DexEmitError> {
    match annotation_item_section(dex.annotation_items@) {
        Err(e) => Err(e),
        Ok(items) => if items.blob.len() > u32::MAX {
            Err(overflow("annotation_item_section", "annotation_item_section offset overflow"))
        } else {
            let item_end = sat32(off + items.blob.len());
            match aligned_section(
                item_end,
                annotation_set_section(dex.annotation_sets@, off, items.remap),
                "annotation_set_section",
                "annotation_set_section offset overflow",
            ) {
                Err(e) => Err(e),
                Ok((set_base, sets, set_end)) => match aligned_section(
                    set_end,
                    annotation_set_ref_list_section(
                        dex.annotation_set_ref_lists@,
                        set_base,
                        sets.remap,
                    ),
                    "annotation_set_ref_list_section",
                    "annotation_set_ref_list_section offset overflow",
                ) {
                    Err(e) => Err(e),
                    Ok((ref_base, refs, ref_end)) => match aligned_section(
                        ref_end,
                        annotation_directory_section(
                            dex.annotations@,
                            Moved {
                                set_base,
                                set_remap: sets.remap,
                                list_base: ref_base,
                                list_remap: refs.remap,
                            },
                        ),
                        "annotation_directory_section",
                        "annotation_directory_section offset overflow",
                    ) {
                        Err(e) => Err(e),
                        Ok((dir_base, dirs, dir_end)) => Ok(
                            Annotations {
                                item_base: off,
                                items,
                                item_end,
                                set_base,
                                sets,
                                set_end,
                                ref_base,
                                refs,
                                ref_end,
                                dir_base,
                                dirs,
                                dir_end,
                            },
                        ),
                    },
                },
            }
        },
    }
}

/// The annotation sections, in executable form.
pub struct AnnotationBytes {
    pub item_base: u32,
    pub items: SectionBytes,
    pub item_end: u32,
    pub set_base: u32,
    pub sets: SectionBytes,
    pub set_end: u32,
    pub ref_base: u32,
    pub refs: SectionBytes,
    pub ref_end: u32,
    pub dir_base: u32,
    pub dirs: SectionBytes,
    pub dir_end: u32,
}

impl View for AnnotationBytes {
    type V = Annotations;

    open spec fn view(&self) -> Annotations {
        Annotations {
            item_base: self.item_base,
            items: section_of(self.items),
            item_end: self.item_end,
            set_base: self.set_base,
            sets: section_of(self.sets),
            set_end: self.set_end,
            ref_base: self.ref_base,
            refs: section_of(self.refs),
            ref_end: self.ref_end,
            dir_base: self.dir_base,
            dirs: section_of(self.dirs),
            dir_end: self.dir_end,
        }
    }
}

fn align_section(off: u32, name: &'static str) -> (r: Result<u32, DexEmitError>)
    ensures
        match aligned_up(off, 4) {
            None => r == Err::<u32, DexEmitError>(
                overflow(name, "alignment padding overflowed u32"),
            ),
            Some(b) => r == Ok::<u32, DexEmitError>(b),
        },
{
    match align_up_u32(off, 4) {
        None => Err(
            DexEmitError::OffsetOverflow {
                section: name,
                context: "alignment padding overflowed u32",
            },
        ),
        Some(b) => Ok(b),
    }
}

/// Lays out the annotation sections from `off` on.
pub fn emit_annotations(dex: &DexFile, off: u32) -> (r: Result<AnnotationBytes, DexEmitError>)
    ensures
        agrees(r, annotations(*dex, off)),
{
    let item_base: u32 = off;
    let items = emit_annotation_item_section(&dex.annotation_items)?;
    let item_end: u32 = after(
        item_base,
        items.0.len(),
        "annotation_item_section",
        "annotation_item_section offset overflow",
    )?;
    let set_base: u32 = align_section(item_end, "annotation_set_section")?;
    let sets = emit_annotation_set_section(&dex.annotation_sets, item_base, &items.1)?;
    let set_end: u32 = after(
        set_base,
        sets.0.len(),
        "annotation_set_section",
        "annotation_set_section offset overflow",
    )?;
    let ref_base: u32 = align_section(set_end, "annotation_set_ref_list_section")?;
    let refs = emit_annotation_set_ref_list_section(
        &dex.annotation_set_ref_lists,
        set_base,
        &sets.1,
    )?;
    let ref_end: u32 = after(
        ref_base,
        refs.0.len(),
        "annotation_set_ref_list_section",
        "annotation_set_ref_list_section offset overflow",
    )?;
    let dir_base: u32 = align_section(ref_end, "annotation_directory_section")?;
    let dirs = emit_annotation_directory_section(
        &dex.annotations,
        set_base,
        &sets.1,
        ref_base,
        &refs.1,
    )?;
    let dir_end: u32 = after(
        dir_base,
        dirs.0.len(),
        "annotation_directory_section",
        "annotation_directory_section offset overflow",
    )?;
    Ok(
        AnnotationBytes {
            item_base,
            items,
            item_end,
            set_base,
            sets,
            set_end,
            ref_base,
            refs,
            ref_end,
            dir_base,
            dirs,
            dir_end,
        },
    )
}

// Encoded arrays, type lists, and the start of the map list

/// What comes after the annotations.
#[verifier::ext_equal]
pub struct Tail {
    pub array_base: u32,
    pub arrays: Section,
    pub array_end: u32,
    /// The place of the encoded array of each call site.
    pub call_sites: Seq<u32>,
    pub list_base: u32,
    pub list_end: u32,
    pub map_base: u32,
}

/// The places of the encoded arrays of call sites.
pub open spec fn call_site_places(ids: Seq<u32>, base: u32, remap: Map<u32, u32>) -> Result<
    Seq<u32>,
    DexEmitError,
> {
    all_resolved(
        ids,
        base,
        remap,
        "call_site_id references encoded_array not in dex.encoded_arrays",
        "call_site_id",
        "absolute offset overflow",
        0,
        Seq::empty(),
    )
}

/// The encoded-array section, at recorded widths where that is asked for.
pub open spec fn arrays_of(dex: DexFile, config: EmitConfig) -> Result<Section, DexEmitError> {
    encoded_array_section(
        dex.encoded_arrays@,
        if config.preserve_encoded_value_width {
            Some(dex.encoded_array_widths@)
        } else {
            None
        },
    )
}

/// What comes after the annotations, laid out from `off` on.
pub open spec fn tail(dex: DexFile, config: EmitConfig, lists: Section, off: u32) -> Result<
    Tail,
    DexEmitError,
> {
    match arrays_of(dex, config) {
        Err(e) => Err(e),
        Ok(arrays) => if arrays.blob.len() > u32::MAX {
            Err(overflow("encoded_array_section", "encoded_array_section offset overflow"))
        } else {
            let array_end = sat32(off + arrays.blob.len());
            match call_site_places(dex.call_site_ids@, off, arrays.remap) {
                Err(e) => Err(e),
                Ok(call_sites) => match aligned_section(
                    array_end,
                    Ok(lists),
                    "type_list_section",
                    "type_list_section offset overflow",
                ) {
                    Err(e) => Err(e),
                    Ok((list_base, _, list_end)) => match aligned_up(list_end, 4) {
                        None => Err(overflow("map_list", "map_list alignment overflow")),
                        Some(map_base) => Ok(
                            Tail {
                                array_base: off,
                                arrays,
                                array_end,
                                call_sites,
                                list_base,
                                list_end,
                                map_base,
                            },
                        ),
                    },
                },
            }
        },
    }
}

/// What comes after the annotations, in executable form.
pub struct TailBytes {
    pub array_base: u32,
    pub arrays: SectionBytes,
    pub array_end: u32,
    pub call_sites: Vec<u32>,
    pub list_base: u32,
    pub list_end: u32,
    pub map_base: u32,
}

impl View for TailBytes {
    type V = Tail;

    open spec fn view(&self) -> Tail {
        Tail {
            array_base: self.array_base,
            arrays: section_of(self.arrays),
            array_end: self.array_end,
            call_sites: self.call_sites@,
            list_base: self.list_base,
            list_end: self.list_end,
            map_base: self.map_base,
        }
    }
}

/// Lays out what comes after the annotations from `off` on. `list_len` is the
/// length of the type-list section.
pub fn emit_tail(dex: &DexFile, config: &EmitConfig, lists: &SectionBytes, off: u32) -> (r: Result<
    TailBytes,
    DexEmitError,
>)
    ensures
        agrees(r, tail(*dex, *config, section_of(*lists), off)),
{
    let arrays = emit_encoded_array_section_with_widths(
        &dex.encoded_arrays,
        if config.preserve_encoded_value_width {
            Some(&dex.encoded_array_widths)
        } else {
            None
        },
    )?;
    let array_end: u32 = after(
        off,
        arrays.0.len(),
        "encoded_array_section",
        "encoded_array_section offset overflow",
    )?;
    let call_sites = resolve_all(
        dex.call_site_ids.as_slice(),
        off,
        &arrays.1,
        "call_site_id references encoded_array not in dex.encoded_arrays",
        "call_site_id",
        "absolute offset overflow",
    )?;
    let list_base: u32 = align_section(array_end, "type_list_section")?;
    let list_end: u32 = after(
        list_base,
        lists.0.len(),
        "type_list_section",
        "type_list_section offset overflow",
    )?;
    match align_up_u32(list_end, 4) {
        None => Err(
            DexEmitError::OffsetOverflow {
                section: "map_list",
                context: "map_list alignment overflow",
            },
        ),
        Some(map_base) => Ok(
            TailBytes { array_base: off, arrays, array_end, call_sites, list_base, list_end, map_base },
        ),
    }
}

// The whole

/// All sections with their places, up to the start of the map list.
#[verifier::ext_equal]
pub struct Data {
    pub string_end: u32,
    pub bodies: Bodies,
    pub notes: Annotations,
    pub tail: Tail,
}

/// All sections, laid out behind the string data at `off`.
#[verifier::opaque]
pub open spec fn data(dex: DexFile, config: EmitConfig, f: Front, off: u32) -> Result<
    Data,
    DexEmitError,
> {
    if f.string_data.len() > u32::MAX {
        Err(overflow("string_data", "string_data offset overflow"))
    } else {
        let string_end = sat32(off + f.string_data.len());
        match bodies(dex, f.code, f.debug, string_end) {
            Err(e) => Err(e),
            Ok(b) => match annotations(dex, b.end) {
                Err(e) => Err(e),
                Ok(notes) => match tail(dex, config, f.lists, notes.dir_end) {
                    Err(e) => Err(e),
                    Ok(t) => Ok(Data { string_end, bodies: b, notes, tail: t }),
                },
            },
        }
    }
}

/// All sections with their places, in executable form.
pub struct DataBytes {
    pub string_end: u32,
    pub bodies: BodiesBytes,
    pub notes: AnnotationBytes,
    pub tail: TailBytes,
}

impl View for DataBytes {
    type V = Data;

    open spec fn view(&self) -> Data {
        Data {
            string_end: self.string_end,
            bodies: self.bodies@,
            notes: self.notes@,
            tail: self.tail@,
        }
    }
}

/// Lays out all sections behind the string data at `off`.
pub fn emit_data(dex: &DexFile, config: &EmitConfig, f: &FrontBytes, off: u32) -> (r: Result<
    DataBytes,
    DexEmitError,
>)
    ensures
        agrees(r, data(*dex, *config, f@, off)),
{
    proof {
        reveal(data);
    }
    let string_end: u32 = after(
        off,
        f.string_data.len(),
        "string_data",
        "string_data offset overflow",
    )?;
    let bodies = emit_bodies(dex, &f.code, &f.debug, string_end)?;
    let notes = emit_annotations(dex, bodies.end)?;
    let tail = emit_tail(dex, config, &f.lists, notes.dir_end)?;
    Ok(DataBytes { string_end, bodies, notes, tail })
}

/// The reports about zero bytes between sections.
pub open spec fn padding_reports(dex: DexFile, d: Data) -> Seq<CanonicalTransform> {
    padding_report(dex, AlignmentSection::CodeItem, d.string_end, d.bodies.code_base)
        + padding_report(dex, AlignmentSection::AnnotationSet, d.notes.item_end, d.notes.set_base)
        + padding_report(
        dex,
        AlignmentSection::AnnotationSetRefList,
        d.notes.set_end,
        d.notes.ref_base,
    ) + padding_report(
        dex,
        AlignmentSection::AnnotationDirectory,
        d.notes.ref_end,
        d.notes.dir_base,
    ) + padding_report(dex, AlignmentSection::TypeList, d.tail.array_end, d.tail.list_base)
        + padding_report(dex, AlignmentSection::MapList, d.tail.list_end, d.tail.map_base)
}

/// The reports about zero bytes between sections.
pub fn report_paddings(dex: &DexFile, d: &DataBytes) -> (r: Vec<CanonicalTransform>)
    ensures
        r@ == padding_reports(*dex, d@),
{
    let mut out: Vec<CanonicalTransform> = Vec::new();
    report_padding(&mut out, dex, AlignmentSection::CodeItem, d.string_end, d.bodies.code_base);
    assert(out@ =~= padding_report(
        *dex,
        AlignmentSection::CodeItem,
        d.string_end,
        d.bodies.code_base,
    ));
    report_padding(
        &mut out,
        dex,
        AlignmentSection::AnnotationSet,
        d.notes.item_end,
        d.notes.set_base,
    );
    report_padding(
        &mut out,
        dex,
        AlignmentSection::AnnotationSetRefList,
        d.notes.set_end,
        d.notes.ref_base,
    );
    report_padding(
        &mut out,
        dex,
        AlignmentSection::AnnotationDirectory,
        d.notes.ref_end,
        d.notes.dir_base,
    );
    report_padding(
        &mut out,
        dex,
        AlignmentSection::TypeList,
        d.tail.array_end,
        d.tail.list_base,
    );
    report_padding(&mut out, dex, AlignmentSection::MapList, d.tail.list_end, d.tail.map_base);
    out
}

} // verus!
