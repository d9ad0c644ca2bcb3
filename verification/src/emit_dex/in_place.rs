//! Sections whose items go back to where they were found.
use std::collections::BTreeMap;
use vstd::prelude::*;

use crate::annotation::{AnnotationDirectoryItem, AnnotationItem};
use crate::bytes::{overlay, push_zeros, write_over, zeros};
use crate::collections::{entries, sorted_keys};
use crate::decode::{ClassData, CodeItem};
use crate::emit_dex::canonical::copied;
use crate::emit_dex::code_item::emit_code_item;
use crate::emit_dex::directory::{directory_part, emit_annotation_directory_bytes, Moved};
use crate::emit_dex::error::DexEmitError;
use crate::emit_dex::sections::{
    annotation_item_part, class_data_part, code_item_part, debug_info_part,
    emit_annotation_item_bytes, emit_class_data, emit_moved_list, gives_section, moved_list, record,
    Section, SectionBytes,
};
use crate::emit_dex::widths::{body_deep, emit_annotation_item_with_widths, widths_at};
use crate::emit_dex::written::{done, gives};

verus! {

/// How far `off` is behind `base`, 0 if it is before it.
pub open spec fn behind(off: u32, base: u32) -> u32 {
    if off >= base {
        (off - base) as u32
    } else {
        0
    }
}

/// The items from position `i` on, put where they were found, over what `acc`
/// holds. `overrun` is the complaint about an item that does not fit.
pub open spec fn put_back(
    keys: Seq<u32>,
    items: Seq<Result<Seq<u8>, DexEmitError>>,
    base: u32,
    overrun: &'static str,
    i: nat,
    acc: Section,
) -> Result<Section, DexEmitError>
    decreases keys.len() - i,
{
    if i >= keys.len() {
        Ok(acc)
    } else {
        match items[i as int] {
            Err(e) => Err(e),
            Ok(part) => {
                let local = behind(keys[i as int], base);
                if local + part.len() > acc.blob.len() {
                    Err(DexEmitError::UnrepresentableIR { why: overrun })
                } else {
                    put_back(
                        keys,
                        items,
                        base,
                        overrun,
                        i + 1,
                        Section {
                            blob: overlay(acc.blob, local as int, part),
                            remap: acc.remap.insert(keys[i as int], local),
                        },
                    )
                }
            },
        }
    }
}

/// A section of `size` bytes at `base` with the items where they were found. Bytes
/// that belong to no item are zero.
pub open spec fn in_place(
    keys: Seq<u32>,
    items: Seq<Result<Seq<u8>, DexEmitError>>,
    base: u32,
    size: u32,
    overrun: &'static str,
) -> Result<Section, DexEmitError> {
    put_back(
        keys,
        items,
        base,
        overrun,
        0,
        Section { blob: zeros(size as nat), remap: Map::empty() },
    )
}

/// A step that puts one item back does what is said of it.
pub open spec fn puts(
    before: Section,
    after: Section,
    key: u32,
    base: u32,
    part: Seq<u8>,
    overrun: &'static str,
    r: Result<(), DexEmitError>,
) -> bool {
    let local = behind(key, base);
    if local + part.len() > before.blob.len() {
        r == Err::<(), DexEmitError>(DexEmitError::UnrepresentableIR { why: overrun })
    } else {
        &&& r is Ok
        &&& after.blob == overlay(before.blob, local as int, part)
        &&& after.remap == before.remap.insert(key, local)
    }
}

fn put_item(
    blob: &mut Vec<u8>,
    remap: &mut BTreeMap<u32, u32>,
    key: u32,
    base: u32,
    part: &[u8],
    overrun: &'static str,
) -> (r: Result<(), DexEmitError>)
    ensures
        puts(
            (Section { blob: old(blob)@, remap: old(remap)@ }),
            (Section { blob: final(blob)@, remap: final(remap)@ }),
            key,
            base,
            part@,
            overrun,
            r,
        ),
{
    let local: u32 = key.saturating_sub(base);
    if local as usize > blob.len() || part.len() > blob.len() - local as usize {
        return Err(DexEmitError::UnrepresentableIR { why: overrun });
    }
    record(remap, key, local);
    write_over(blob.as_mut_slice(), local as usize, part);
    Ok(())
}

fn blank(size: u32) -> (r: Vec<u8>)
    ensures
        r@ == zeros(size as nat),
{
    let mut out: Vec<u8> = Vec::new();
    push_zeros(&mut out, size as usize);
    assert(out@ =~= zeros(size as nat));
    out
}

// One item each

/// An annotation, at recorded widths where there are any.
pub open spec fn annotation_item_kept(item: AnnotationItem, widths: Option<Seq<u8>>) -> Result<
    Seq<u8>,
    DexEmitError,
> {
    match widths {
        Some(ws) => done(seq![item.visibility]).and(body_deep(item.annotation, ws, 0).w).result(),
        None => annotation_item_part(item),
    }
}

/// The recorded widths of the annotation at `key`, where they are to be used.
pub open spec fn widths_kept(widths: Map<u32, Vec<u8>>, keep: bool, key: u32) -> Option<Seq<u8>> {
    if keep && widths.contains_key(key) {
        Some(widths[key]@)
    } else {
        None
    }
}

fn keep_annotation_item(
    item: &AnnotationItem,
    widths: &BTreeMap<u32, Vec<u8>>,
    keep: bool,
    key: u32,
) -> (r: Result<Vec<u8>, DexEmitError>)
    ensures
        gives(r, annotation_item_kept(*item, widths_kept(widths@, keep, key))),
{
    if keep {
        match widths_at(widths, key) {
            Some(ws) => {
                let mut out: Vec<u8> = Vec::new();
                emit_annotation_item_with_widths(&mut out, item, ws.as_slice())?;
                assert(out@ =~= (seq![item.visibility] + body_deep(
                    item.annotation,
                    ws@,
                    0,
                ).w.bytes));
                return Ok(out);
            },
            None => {},
        }
    }
    emit_annotation_item_bytes(item)
}

/// The members of a class: as they were read where that is known.
pub open spec fn class_data_kept(
    cd: ClassData,
    raw: Map<u32, Vec<u8>>,
    key: u32,
    remap: Map<u32, u32>,
    base: u32,
) -> Result<Seq<u8>, DexEmitError> {
    if raw.contains_key(key) {
        Ok(raw[key]@)
    } else {
        class_data_part(cd, remap, base)
    }
}

fn keep_class_data(
    cd: &ClassData,
    raw: &BTreeMap<u32, Vec<u8>>,
    key: u32,
    remap: &BTreeMap<u32, u32>,
    base: u32,
) -> (r: Result<Vec<u8>, DexEmitError>)
    ensures
        gives(r, class_data_kept(*cd, raw@, key, remap@, base)),
{
    match widths_at(raw, key) {
        Some(bytes) => Ok(copied(bytes.as_slice())),
        None => emit_class_data(cd, remap, base),
    }
}

/// An annotation set: the places of its annotations.
pub open spec fn annotation_set_kept(offs: Vec<u32>, base: u32, remap: Map<u32, u32>) -> Result<
    Seq<u8>,
    DexEmitError,
> {
    moved_list(
        offs@,
        base,
        remap,
        "annotation_set references missing annotation_item",
        "annotation_set.entry",
        "absolute offset overflow",
    )
}

/// A list of annotation sets: their places.
pub open spec fn annotation_set_ref_list_kept(
    offs: Vec<u32>,
    base: u32,
    remap: Map<u32, u32>,
) -> Result<Seq<u8>, DexEmitError> {
    moved_list(
        offs@,
        base,
        remap,
        "annotation_set_ref_list references missing annotation_set",
        "annotation_set_ref_list.entry",
        "absolute offset overflow",
    )
}

// Sections

/// The method bodies, in order of where they were found.
pub open spec fn code_items_kept_parts(
    items: Map<u32, CodeItem>,
) -> Seq<Result<Seq<u8>, DexEmitError>> {
    let keys = sorted_keys(items);
    Seq::new(keys.len(), |i: int| code_item_part(items[keys[i]]))
}

/// The section of method bodies, each where it was found.
pub open spec fn code_items_in_place(
    items: Map<u32, CodeItem>,
    base: u32,
    size: u32,
) -> Result<Section, DexEmitError> {
    in_place(
        sorted_keys(items),
        code_items_kept_parts(items),
        base,
        size,
        "preserve: code_item overruns section",
    )
}

/// Puts method bodies back where they were found.
pub fn code_items_back(
    items: &BTreeMap<u32, CodeItem>,
    base: u32,
    size: u32,
) -> (r: Result<SectionBytes, DexEmitError>)
    ensures
        gives_section(r, code_items_in_place(items@, base, size)),
{
    let ghost whole = code_items_in_place(items@, base, size);
    let ghost keys = sorted_keys(items@);
    let ghost parts = code_items_kept_parts(items@);
    let mut blob = blank(size);
    let mut remap: BTreeMap<u32, u32> = BTreeMap::new();
    let list = entries(items);
    assert(remap@ =~= Map::empty());
    let mut i: usize = 0;
    while i < list.len()
        invariant
            i <= list@.len() == keys.len(),
            keys == sorted_keys(items@),
            parts == code_items_kept_parts(items@),
            forall|i: int|
                #![trigger list@[i]]
                0 <= i < list@.len() ==> list@[i].0 == keys[i] && items@[keys[i]] == *list@[i].1,
            whole == code_items_in_place(items@, base, size),
            whole == put_back(
                keys,
                parts,
                base,
                "preserve: code_item overruns section",
                i as nat,
                Section { blob: blob@, remap: remap@ },
            ),
        decreases list@.len() - i,
    {
        let entry: (u32, &CodeItem) = list[i];
        assert(list@[i as int].0 == keys[i as int]);
        let part = emit_code_item(entry.1)?;
        put_item(
            &mut blob,
            &mut remap,
            entry.0,
            base,
            part.as_slice(),
            "preserve: code_item overruns section",
        )?;
        i = i + 1;
    }
    Ok((blob, remap))
}

/// The debug info, in order of where they were found.
pub open spec fn debug_infos_kept_parts(
    items: Map<u32, Vec<u8>>,
) -> Seq<Result<Seq<u8>, DexEmitError>> {
    let keys = sorted_keys(items);
    Seq::new(keys.len(), |i: int| debug_info_part(items[keys[i]]))
}

/// The section of debug info, each where it was found.
pub open spec fn debug_infos_in_place(
    items: Map<u32, Vec<u8>>,
    base: u32,
    size: u32,
) -> Result<Section, DexEmitError> {
    in_place(
        sorted_keys(items),
        debug_infos_kept_parts(items),
        base,
        size,
        "preserve: debug_info overruns section",
    )
}

/// Puts debug info back where they were found.
pub fn debug_infos_back(
    items: &BTreeMap<u32, Vec<u8>>,
    base: u32,
    size: u32,
) -> (r: Result<SectionBytes, DexEmitError>)
    ensures
        gives_section(r, debug_infos_in_place(items@, base, size)),
{
    let ghost whole = debug_infos_in_place(items@, base, size);
    let ghost keys = sorted_keys(items@);
    let ghost parts = debug_infos_kept_parts(items@);
    let mut blob = blank(size);
    let mut remap: BTreeMap<u32, u32> = BTreeMap::new();
    let list = entries(items);
    assert(remap@ =~= Map::empty());
    let mut i: usize = 0;
    while i < list.len()
        invariant
            i <= list@.len() == keys.len(),
            keys == sorted_keys(items@),
            parts == debug_infos_kept_parts(items@),
            forall|i: int|
                #![trigger list@[i]]
                0 <= i < list@.len() ==> list@[i].0 == keys[i] && items@[keys[i]] == *list@[i].1,
            whole == debug_infos_in_place(items@, base, size),
            whole == put_back(
                keys,
                parts,
                base,
                "preserve: debug_info overruns section",
                i as nat,
                Section { blob: blob@, remap: remap@ },
            ),
        decreases list@.len() - i,
    {
        let entry: (u32, &Vec<u8>) = list[i];
        assert(list@[i as int].0 == keys[i as int]);
        let part = copied(entry.1.as_slice());
        put_item(
            &mut blob,
            &mut remap,
            entry.0,
            base,
            part.as_slice(),
            "preserve: debug_info overruns section",
        )?;
        i = i + 1;
    }
    Ok((blob, remap))
}

/// The annotations, in order of where they were found.
pub open spec fn annotation_items_kept_parts(
    items: Map<u32, AnnotationItem>,
    widths: Map<u32, Vec<u8>>,
    keep: bool,
) -> Seq<Result<Seq<u8>, DexEmitError>> {
    let keys = sorted_keys(items);
    Seq::new(keys.len(), |i: int| annotation_item_kept(items[keys[i]], widths_kept(widths, keep, keys[i])))
}

/// The section of annotations, each where it was found.
pub open spec fn annotation_items_in_place(
    items: Map<u32, AnnotationItem>,
    widths: Map<u32, Vec<u8>>,
    keep: bool,
    base: u32,
    size: u32,
) -> Result<Section, DexEmitError> {
    in_place(
        sorted_keys(items),
        annotation_items_kept_parts(items, widths, keep),
        base,
        size,
        "preserve: annotation_item overruns section",
    )
}

/// Puts annotations back where they were found.
pub fn annotation_items_back(
    items: &BTreeMap<u32, AnnotationItem>,
    widths: &BTreeMap<u32, Vec<u8>>,
    keep: bool,
    base: u32,
    size: u32,
) -> (r: Result<SectionBytes, DexEmitError>)
    ensures
        gives_section(r, annotation_items_in_place(items@, widths@, keep, base, size)),
{
    let ghost whole = annotation_items_in_place(items@, widths@, keep, base, size);
    let ghost keys = sorted_keys(items@);
    let ghost parts = annotation_items_kept_parts(items@, widths@, keep);
    let mut blob = blank(size);
    let mut remap: BTreeMap<u32, u32> = BTreeMap::new();
    let list = entries(items);
    assert(remap@ =~= Map::empty());
    let mut i: usize = 0;
    while i < list.len()
        invariant
            i <= list@.len() == keys.len(),
            keys == sorted_keys(items@),
            parts == annotation_items_kept_parts(items@, widths@, keep),
            forall|i: int|
                #![trigger list@[i]]
                0 <= i < list@.len() ==> list@[i].0 == keys[i] && items@[keys[i]] == *list@[i].1,
            whole == annotation_items_in_place(items@, widths@, keep, base, size),
            whole == put_back(
                keys,
                parts,
                base,
                "preserve: annotation_item overruns section",
                i as nat,
                Section { blob: blob@, remap: remap@ },
            ),
        decreases list@.len() - i,
    {
        let entry: (u32, &AnnotationItem) = list[i];
        assert(list@[i as int].0 == keys[i as int]);
        let part = keep_annotation_item(entry.1, widths, keep, entry.0)?;
        put_item(
            &mut blob,
            &mut remap,
            entry.0,
            base,
            part.as_slice(),
            "preserve: annotation_item overruns section",
        )?;
        i = i + 1;
    }
    Ok((blob, remap))
}

/// The class members, in order of where they were found.
pub open spec fn class_datas_kept_parts(
    items: Map<u32, ClassData>,
    raw: Map<u32, Vec<u8>>,
    code_remap: Map<u32, u32>,
    code_base: u32,
) -> Seq<Result<Seq<u8>, DexEmitError>> {
    let keys = sorted_keys(items);
    Seq::new(keys.len(), |i: int| class_data_kept(items[keys[i]], raw, keys[i], code_remap, code_base))
}

/// The section of class members, each where it was found.
pub open spec fn class_datas_in_place(
    items: Map<u32, ClassData>,
    raw: Map<u32, Vec<u8>>,
    code_remap: Map<u32, u32>,
    code_base: u32,
    base: u32,
    size: u32,
) -> Result<Section, DexEmitError> {
    in_place(
        sorted_keys(items),
        class_datas_kept_parts(items, raw, code_remap, code_base),
        base,
        size,
        "preserve: class_data overruns section",
    )
}

/// Puts class members back where they were found.
pub fn class_datas_back(
    items: &BTreeMap<u32, ClassData>,
    raw: &BTreeMap<u32, Vec<u8>>,
    code_remap: &BTreeMap<u32, u32>,
    code_base: u32,
    base: u32,
    size: u32,
) -> (r: Result<SectionBytes, DexEmitError>)
    ensures
        gives_section(r, class_datas_in_place(items@, raw@, code_remap@, code_base, base, size)),
{
    let ghost whole = class_datas_in_place(items@, raw@, code_remap@, code_base, base, size);
    let ghost keys = sorted_keys(items@);
    let ghost parts = class_datas_kept_parts(items@, raw@, code_remap@, code_base);
    let mut blob = blank(size);
    let mut remap: BTreeMap<u32, u32> = BTreeMap::new();
    let list = entries(items);
    assert(remap@ =~= Map::empty());
    let mut i: usize = 0;
    while i < list.len()
        invariant
            i <= list@.len() == keys.len(),
            keys == sorted_keys(items@),
            parts == class_datas_kept_parts(items@, raw@, code_remap@, code_base),
            forall|i: int|
                #![trigger list@[i]]
                0 <= i < list@.len() ==> list@[i].0 == keys[i] && items@[keys[i]] == *list@[i].1,
            whole == class_datas_in_place(items@, raw@, code_remap@, code_base, base, size),
            whole == put_back(
                keys,
                parts,
                base,
                "preserve: class_data overruns section",
                i as nat,
                Section { blob: blob@, remap: remap@ },
            ),
        decreases list@.len() - i,
    {
        let entry: (u32, &ClassData) = list[i];
        assert(list@[i as int].0 == keys[i as int]);
        let part = keep_class_data(entry.1, raw, entry.0, code_remap, code_base)?;
        put_item(
            &mut blob,
            &mut remap,
            entry.0,
            base,
            part.as_slice(),
            "preserve: class_data overruns section",
        )?;
        i = i + 1;
    }
    Ok((blob, remap))
}

/// The annotation sets, in order of where they were found.
pub open spec fn annotation_sets_kept_parts(
    items: Map<u32, Vec<u32>>,
    to_base: u32,
    to_remap: Map<u32, u32>,
) -> Seq<Result<Seq<u8>, DexEmitError>> {
    let keys = sorted_keys(items);
    Seq::new(keys.len(), |i: int| annotation_set_kept(items[keys[i]], to_base, to_remap))
}

/// The section of annotation sets, each where it was found.
pub open spec fn annotation_sets_in_place(
    items: Map<u32, Vec<u32>>,
    to_base: u32,
    to_remap: Map<u32, u32>,
    base: u32,
    size: u32,
) -> Result<Section, DexEmitError> {
    in_place(
        sorted_keys(items),
        annotation_sets_kept_parts(items, to_base, to_remap),
        base,
        size,
        "preserve: annotation_set overruns section",
    )
}

/// Puts annotation sets back where they were found.
pub fn annotation_sets_back(
    items: &BTreeMap<u32, Vec<u32>>,
    to_base: u32,
    to_remap: &BTreeMap<u32, u32>,
    base: u32,
    size: u32,
) -> (r: Result<SectionBytes, DexEmitError>)
    ensures
        gives_section(r, annotation_sets_in_place(items@, to_base, to_remap@, base, size)),
{
    let ghost whole = annotation_sets_in_place(items@, to_base, to_remap@, base, size);
    let ghost keys = sorted_keys(items@);
    let ghost parts = annotation_sets_kept_parts(items@, to_base, to_remap@);
    let mut blob = blank(size);
    let mut remap: BTreeMap<u32, u32> = BTreeMap::new();
    let list = entries(items);
    assert(remap@ =~= Map::empty());
    let mut i: usize = 0;
    while i < list.len()
        invariant
            i <= list@.len() == keys.len(),
            keys == sorted_keys(items@),
            parts == annotation_sets_kept_parts(items@, to_base, to_remap@),
            forall|i: int|
                #![trigger list@[i]]
                0 <= i < list@.len() ==> list@[i].0 == keys[i] && items@[keys[i]] == *list@[i].1,
            whole == annotation_sets_in_place(items@, to_base, to_remap@, base, size),
            whole == put_back(
                keys,
                parts,
                base,
                "preserve: annotation_set overruns section",
                i as nat,
                Section { blob: blob@, remap: remap@ },
            ),
        decreases list@.len() - i,
    {
        let entry: (u32, &Vec<u32>) = list[i];
        assert(list@[i as int].0 == keys[i as int]);
        let part = emit_moved_list(
            entry.1.as_slice(),
            to_base,
            to_remap,
            "annotation_set references missing annotation_item",
            "annotation_set.entry",
            "absolute offset overflow",
        )?;
        put_item(
            &mut blob,
            &mut remap,
            entry.0,
            base,
            part.as_slice(),
            "preserve: annotation_set overruns section",
        )?;
        i = i + 1;
    }
    Ok((blob, remap))
}

/// The lists of annotation sets, in order of where they were found.
pub open spec fn annotation_set_ref_lists_kept_parts(
    items: Map<u32, Vec<u32>>,
    to_base: u32,
    to_remap: Map<u32, u32>,
) -> Seq<Result<Seq<u8>, DexEmitError>> {
    let keys = sorted_keys(items);
    Seq::new(keys.len(), |i: int| annotation_set_ref_list_kept(items[keys[i]], to_base, to_remap))
}

/// The section of lists of annotation sets, each where it was found.
pub open spec fn annotation_set_ref_lists_in_place(
    items: Map<u32, Vec<u32>>,
    to_base: u32,
    to_remap: Map<u32, u32>,
    base: u32,
    size: u32,
) -> Result<Section, DexEmitError> {
    in_place(
        sorted_keys(items),
        annotation_set_ref_lists_kept_parts(items, to_base, to_remap),
        base,
        size,
        "preserve: annotation_set_ref_list overruns section",
    )
}

/// Puts lists of annotation sets back where they were found.
pub fn annotation_set_ref_lists_back(
    items: &BTreeMap<u32, Vec<u32>>,
    to_base: u32,
    to_remap: &BTreeMap<u32, u32>,
    base: u32,
    size: u32,
) -> (r: Result<SectionBytes, DexEmitError>)
    ensures
        gives_section(r, annotation_set_ref_lists_in_place(items@, to_base, to_remap@, base, size)),
{
    let ghost whole = annotation_set_ref_lists_in_place(items@, to_base, to_remap@, base, size);
    let ghost keys = sorted_keys(items@);
    let ghost parts = annotation_set_ref_lists_kept_parts(items@, to_base, to_remap@);
    let mut blob = blank(size);
    let mut remap: BTreeMap<u32, u32> = BTreeMap::new();
    let list = entries(items);
    assert(remap@ =~= Map::empty());
    let mut i: usize = 0;
    while i < list.len()
        invariant
            i <= list@.len() == keys.len(),
            keys == sorted_keys(items@),
            parts == annotation_set_ref_lists_kept_parts(items@, to_base, to_remap@),
            forall|i: int|
                #![trigger list@[i]]
                0 <= i < list@.len() ==> list@[i].0 == keys[i] && items@[keys[i]] == *list@[i].1,
            whole == annotation_set_ref_lists_in_place(items@, to_base, to_remap@, base, size),
            whole == put_back(
                keys,
                parts,
                base,
                "preserve: annotation_set_ref_list overruns section",
                i as nat,
                Section { blob: blob@, remap: remap@ },
            ),
        decreases list@.len() - i,
    {
        let entry: (u32, &Vec<u32>) = list[i];
        assert(list@[i as int].0 == keys[i as int]);
        let part = emit_moved_list(
            entry.1.as_slice(),
            to_base,
            to_remap,
            "annotation_set_ref_list references missing annotation_set",
            "annotation_set_ref_list.entry",
            "absolute offset overflow",
        )?;
        put_item(
            &mut blob,
            &mut remap,
            entry.0,
            base,
            part.as_slice(),
            "preserve: annotation_set_ref_list overruns section",
        )?;
        i = i + 1;
    }
    Ok((blob, remap))
}

/// The annotation directories, in order of where they were found.
pub open spec fn annotation_directories_kept_parts(
    items: Map<u32, AnnotationDirectoryItem>,
    to: Moved,
) -> Seq<Result<Seq<u8>, DexEmitError>> {
    let keys = sorted_keys(items);
    Seq::new(keys.len(), |i: int| directory_part(items[keys[i]], to, true))
}

/// The section of annotation directories, each where it was found.
pub open spec fn annotation_directories_in_place(
    items: Map<u32, AnnotationDirectoryItem>,
    to: Moved,
    base: u32,
    size: u32,
) -> Result<Section, DexEmitError> {
    in_place(
        sorted_keys(items),
        annotation_directories_kept_parts(items, to),
        base,
        size,
        "preserve: annotation_directory overruns section",
    )
}

/// Puts annotation directories back where they were found.
pub fn annotation_directories_back(
    items: &BTreeMap<u32, AnnotationDirectoryItem>,
    set_base: u32,
    set_remap: &BTreeMap<u32, u32>,
    list_base: u32,
    list_remap: &BTreeMap<u32, u32>,
    base: u32,
    size: u32,
) -> (r: Result<SectionBytes, DexEmitError>)
    ensures
        gives_section(r, annotation_directories_in_place(items@, (Moved { set_base, set_remap: set_remap@, list_base, list_remap: list_remap@ }), base, size)),
{
    let ghost whole = annotation_directories_in_place(items@, (Moved { set_base, set_remap: set_remap@, list_base, list_remap: list_remap@ }), base, size);
    let ghost keys = sorted_keys(items@);
    let ghost parts = annotation_directories_kept_parts(items@, (Moved { set_base, set_remap: set_remap@, list_base, list_remap: list_remap@ }));
    let mut blob = blank(size);
    let mut remap: BTreeMap<u32, u32> = BTreeMap::new();
    let list = entries(items);
    assert(remap@ =~= Map::empty());
    let mut i: usize = 0;
    while i < list.len()
        invariant
            i <= list@.len() == keys.len(),
            keys == sorted_keys(items@),
            parts == annotation_directories_kept_parts(items@, (Moved { set_base, set_remap: set_remap@, list_base, list_remap: list_remap@ })),
            forall|i: int|
                #![trigger list@[i]]
                0 <= i < list@.len() ==> list@[i].0 == keys[i] && items@[keys[i]] == *list@[i].1,
            whole == annotation_directories_in_place(items@, (Moved { set_base, set_remap: set_remap@, list_base, list_remap: list_remap@ }), base, size),
            whole == put_back(
                keys,
                parts,
                base,
                "preserve: annotation_directory overruns section",
                i as nat,
                Section { blob: blob@, remap: remap@ },
            ),
        decreases list@.len() - i,
    {
        let entry: (u32, &AnnotationDirectoryItem) = list[i];
        assert(list@[i as int].0 == keys[i as int]);
        let part = emit_annotation_directory_bytes(entry.1, set_base, set_remap, list_base, list_remap, true)?;
        put_item(
            &mut blob,
            &mut remap,
            entry.0,
            base,
            part.as_slice(),
            "preserve: annotation_directory overruns section",
        )?;
        i = i + 1;
    }
    Ok((blob, remap))
}

} // verus!
