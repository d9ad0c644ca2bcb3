//! Data sections: items laid out one after the other, with a map from the offset
//! at which each was found to its place in the section.
use std::collections::BTreeMap;
use vstd::prelude::*;

use crate::annotation::{AnnotationItem, EncodedValue};
use crate::bytes::{le32, push_u32, push_zeros, zeros};
use crate::collections::{bind, bound, entries, sorted_keys};
use crate::decode::{ClassData, CodeItem, EncodedMethod};
use crate::emit_dex::class_data::{class_data, emit_class_data_item};
use crate::emit_dex::code_item::{code_item, emit_code_item};
use crate::emit_dex::error::DexEmitError;
use crate::emit_dex::pools::{emit_type_list, push_words, type_list, words};
use crate::emit_dex::widths::{
    annotation_written, array_written, emit_encoded_annotation, emit_encoded_array_with_widths,
    width_seq, widths_at,
};
use crate::emit_dex::written::{done, gives};
use crate::ids::TypeIdx;

verus! {

/// A section and where each item went.
#[verifier::ext_equal]
pub struct Section {
    pub blob: Seq<u8>,
    /// From the offset at which an item was found to its place in the section.
    pub remap: Map<u32, u32>,
}

/// The section with nothing in it.
pub open spec fn nothing() -> Section {
    Section { blob: Seq::empty(), remap: Map::empty() }
}

/// A section in executable form.
pub type SectionBytes = (Vec<u8>, BTreeMap<u32, u32>);

/// A function that returns a section returns that of `expected`, or its error.
pub open spec fn gives_section(
    r: Result<SectionBytes, DexEmitError>,
    expected: Result<Section, DexEmitError>,
) -> bool {
    match expected {
        Ok(s) => r matches Ok(v) && v.0@ == s.blob && v.1@ == s.remap,
        Err(e) => r == Err::<SectionBytes, DexEmitError>(e),
    }
}

/// `blob` with zero bytes up to the next multiple of `align`.
pub open spec fn padded(blob: Seq<u8>, align: nat) -> Seq<u8> {
    if align == 4 && blob.len() % 4 != 0 {
        blob + zeros((4 - blob.len() % 4) as nat)
    } else {
        blob
    }
}

/// The items from position `i` on, put after what `acc` holds. `over` is the error
/// for a section that outgrows 32-bit offsets.
pub open spec fn laid_out(
    keys: Seq<u32>,
    items: Seq<Result<Seq<u8>, DexEmitError>>,
    align: nat,
    over: DexEmitError,
    i: nat,
    acc: Section,
) -> Result<Section, DexEmitError>
    decreases keys.len() - i,
{
    if i >= keys.len() {
        Ok(acc)
    } else {
        let blob = padded(acc.blob, align);
        if blob.len() > u32::MAX {
            Err(over)
        } else {
            match items[i as int] {
                Err(e) => Err(e),
                Ok(part) => laid_out(
                    keys,
                    items,
                    align,
                    over,
                    i + 1,
                    Section {
                        blob: blob + part,
                        remap: acc.remap.insert(keys[i as int], blob.len() as u32),
                    },
                ),
            }
        }
    }
}

/// A section of the given items.
pub open spec fn section(
    keys: Seq<u32>,
    items: Seq<Result<Seq<u8>, DexEmitError>>,
    align: nat,
    over: DexEmitError,
) -> Result<Section, DexEmitError> {
    laid_out(keys, items, align, over, 0, nothing())
}

/// An error about a section that outgrows 32-bit offsets.
pub open spec fn section_overflow(section: &'static str, context: &'static str) -> DexEmitError {
    DexEmitError::OffsetOverflow { section, context }
}

/// Inserts into an offset map.
pub fn record(remap: &mut BTreeMap<u32, u32>, key: u32, place: u32)
    ensures
        final(remap)@ == old(remap)@.insert(key, place),
{
    bind(remap, key, place);
}

/// Starts an item: pads the section and records the place.
pub fn open_item(
    blob: &mut Vec<u8>,
    remap: &mut BTreeMap<u32, u32>,
    key: u32,
    align: usize,
    over: DexEmitError,
) -> (r: Result<(), DexEmitError>)
    ensures
        final(blob)@ == padded(old(blob)@, align as nat),
        if final(blob)@.len() > u32::MAX {
            r == Err::<(), DexEmitError>(over)
        } else {
            r is Ok && final(remap)@ == old(remap)@.insert(key, final(blob)@.len() as u32)
        },
{
    if align == 4 && blob.len() % 4 != 0 {
        let pad: usize = 4 - blob.len() % 4;
        push_zeros(blob, pad);
    }
    if blob.len() > u32::MAX as usize {
        return Err(over);
    }
    record(remap, key, blob.len() as u32);
    Ok(())
}

/// The place in the file that an item found at `off` now has: 0 stays 0, and
/// anything else must be known.
pub open spec fn resolved(
    off: u32,
    base: u32,
    remap: Map<u32, u32>,
    missing: &'static str,
    section: &'static str,
    context: &'static str,
) -> Result<u32, DexEmitError> {
    if off == 0 {
        Ok(0)
    } else if !remap.contains_key(off) {
        Err(DexEmitError::UnrepresentableIR { why: missing })
    } else if base + remap[off] > u32::MAX {
        Err(DexEmitError::OffsetOverflow { section, context })
    } else {
        Ok((base + remap[off]) as u32)
    }
}

/// Looks a key up in an offset map.
pub fn place_of(remap: &BTreeMap<u32, u32>, key: u32) -> (r: Option<u32>)
    ensures
        match r {
            Some(p) => remap@.contains_key(key) && remap@[key] == p,
            None => !remap@.contains_key(key),
        },
{
    match bound(remap, key) {
        Some(p) => Some(*p),
        None => None,
    }
}

/// The place in the file that an item found at `off` now has.
pub fn resolve(
    off: u32,
    base: u32,
    remap: &BTreeMap<u32, u32>,
    missing: &'static str,
    section: &'static str,
    context: &'static str,
) -> (r: Result<u32, DexEmitError>)
    ensures
        r == resolved(off, base, remap@, missing, section, context),
{
    if off == 0 {
        return Ok(0);
    }
    match place_of(remap, off) {
        None => Err(DexEmitError::UnrepresentableIR { why: missing }),
        Some(local) => match base.checked_add(local) {
            None => Err(DexEmitError::OffsetOverflow { section, context }),
            Some(abs) => Ok(abs),
        },
    }
}

/// The places of the offsets from position `i` on, after those in `acc`.
pub open spec fn all_resolved(
    offs: Seq<u32>,
    base: u32,
    remap: Map<u32, u32>,
    missing: &'static str,
    section: &'static str,
    context: &'static str,
    i: nat,
    acc: Seq<u32>,
) -> Result<Seq<u32>, DexEmitError>
    decreases offs.len() - i,
{
    if i >= offs.len() {
        Ok(acc)
    } else {
        match resolved(offs[i as int], base, remap, missing, section, context) {
            Err(e) => Err(e),
            Ok(abs) => all_resolved(
                offs,
                base,
                remap,
                missing,
                section,
                context,
                i + 1,
                acc.push(abs),
            ),
        }
    }
}

/// A function that returns numbers returns those of `expected`, or its error.
pub open spec fn gives_words(
    r: Result<Vec<u32>, DexEmitError>,
    expected: Result<Seq<u32>, DexEmitError>,
) -> bool {
    match expected {
        Ok(s) => r matches Ok(v) && v@ == s,
        Err(e) => r == Err::<Vec<u32>, DexEmitError>(e),
    }
}

/// The places of all offsets.
pub fn resolve_all(
    offs: &[u32],
    base: u32,
    remap: &BTreeMap<u32, u32>,
    missing: &'static str,
    section: &'static str,
    context: &'static str,
) -> (r: Result<Vec<u32>, DexEmitError>)
    ensures
        gives_words(
            r,
            all_resolved(offs@, base, remap@, missing, section, context, 0, Seq::empty()),
        ),
{
    let ghost whole = all_resolved(
        offs@,
        base,
        remap@,
        missing,
        section,
        context,
        0,
        Seq::empty(),
    );
    let mut out: Vec<u32> = Vec::new();
    let mut i: usize = 0;
    while i < offs.len()
        invariant
            i <= offs@.len(),
            whole == all_resolved(
                offs@,
                base,
                remap@,
                missing,
                section,
                context,
                0,
                Seq::empty(),
            ),
            whole == all_resolved(
                offs@,
                base,
                remap@,
                missing,
                section,
                context,
                i as nat,
                out@,
            ),
        decreases offs@.len() - i,
    {
        let abs: u32 = resolve(offs[i], base, remap, missing, section, context)?;
        out.push(abs);
        i = i + 1;
    }
    Ok(out)
}

// Type lists

/// The type list at position `i` of `n`, followed by two zero bytes where that is
/// needed to align the next one.
pub open spec fn type_list_part(idxs: Seq<TypeIdx>, last: bool) -> Result<Seq<u8>, DexEmitError> {
    match type_list(idxs).result() {
        Err(e) => Err(e),
        Ok(b) => Ok(if !last && idxs.len() % 2 == 1 {
            b + zeros(2)
        } else {
            b
        }),
    }
}

/// The parts of the type-list section.
pub open spec fn type_list_parts(lists: Map<u32, Vec<TypeIdx>>) -> Seq<
    Result<Seq<u8>, DexEmitError>,
> {
    let keys = sorted_keys(lists);
    Seq::new(keys.len(), |i: int| type_list_part(lists[keys[i]]@, i + 1 == keys.len()))
}

/// The type-list section.
pub open spec fn type_list_section(lists: Map<u32, Vec<TypeIdx>>) -> Result<Section, DexEmitError> {
    section(
        sorted_keys(lists),
        type_list_parts(lists),
        1,
        section_overflow("type_list_section", "type_list blob exceeds u32 byte offset"),
    )
}

/// The type-list section.
pub fn emit_type_list_section(lists: &BTreeMap<u32, Vec<TypeIdx>>) -> (r: Result<
    SectionBytes,
    DexEmitError,
>)
    ensures
        gives_section(r, type_list_section(lists@)),
{
    let ghost whole = type_list_section(lists@);
    let ghost keys = sorted_keys(lists@);
    let ghost parts = type_list_parts(lists@);
    let over = DexEmitError::OffsetOverflow {
        section: "type_list_section",
        context: "type_list blob exceeds u32 byte offset",
    };
    let mut blob: Vec<u8> = Vec::new();
    let mut remap: BTreeMap<u32, u32> = BTreeMap::new();
    let list = entries(lists);
    assert(Section { blob: blob@, remap: remap@ } =~= nothing());
    let mut i: usize = 0;
    while i < list.len()
        invariant
            i <= list@.len() == keys.len(),
            keys == sorted_keys(lists@),
            parts == type_list_parts(lists@),
            forall|i: int|
                #![trigger list@[i]]
                0 <= i < list@.len() ==> list@[i].0 == keys[i] && lists@[keys[i]] == *list@[i].1,
            over == section_overflow(
                "type_list_section",
                "type_list blob exceeds u32 byte offset",
            ),
            whole == type_list_section(lists@),
            whole == laid_out(
                keys,
                parts,
                1,
                over,
                i as nat,
                Section { blob: blob@, remap: remap@ },
            ),
        decreases list@.len() - i,
    {
        let entry: (u32, &Vec<TypeIdx>) = list[i];
        assert(list@[i as int].0 == keys[i as int]);
        open_item(&mut blob, &mut remap, entry.0, 1, over)?;
        let ghost start = blob@;
        let item = emit_type_list(entry.1.as_slice())?;
        blob.extend_from_slice(item.as_slice());
        if i + 1 < list.len() && entry.1.len() % 2 == 1 {
            push_zeros(&mut blob, 2);
        }
        assert(blob@ =~= start + parts[i as int]->Ok_0);
        i = i + 1;
    }
    Ok((blob, remap))
}

// Method bodies

/// A method body with its debug-info offset left zero.
pub open spec fn code_item_part(ci: CodeItem) -> Result<Seq<u8>, DexEmitError> {
    code_item(ci, 0)
}

/// The parts of the method-body section.
pub open spec fn code_item_parts(items: Map<u32, CodeItem>) -> Seq<Result<Seq<u8>, DexEmitError>> {
    let keys = sorted_keys(items);
    Seq::new(keys.len(), |i: int| code_item_part(items[keys[i]]))
}

/// The method-body section.
pub open spec fn code_item_section(items: Map<u32, CodeItem>) -> Result<Section, DexEmitError> {
    section(
        sorted_keys(items),
        code_item_parts(items),
        4,
        section_overflow("code_item_section", "code_item blob exceeds u32 byte offset"),
    )
}

/// The method-body section.
pub fn emit_code_item_section(items: &BTreeMap<u32, CodeItem>) -> (r: Result<SectionBytes, DexEmitError>)
    ensures
        gives_section(r, code_item_section(items@)),
{
    let ghost whole = code_item_section(items@);
    let ghost keys = sorted_keys(items@);
    let ghost parts = code_item_parts(items@);
    let over = DexEmitError::OffsetOverflow { section: "code_item_section", context: "code_item blob exceeds u32 byte offset" };
    let mut blob: Vec<u8> = Vec::new();
    let mut remap: BTreeMap<u32, u32> = BTreeMap::new();
    let list = entries(items);
    assert(Section { blob: blob@, remap: remap@ } =~= nothing());
    let mut i: usize = 0;
    while i < list.len()
        invariant
            i <= list@.len() == keys.len(),
            keys == sorted_keys(items@),
            parts == code_item_parts(items@),
            forall|i: int|
                #![trigger list@[i]]
                0 <= i < list@.len() ==> list@[i].0 == keys[i] && items@[keys[i]] == *list@[i].1,
            over == section_overflow("code_item_section", "code_item blob exceeds u32 byte offset"),
            whole == code_item_section(items@),
            whole == laid_out(
                keys,
                parts,
                4,
                over,
                i as nat,
                Section { blob: blob@, remap: remap@ },
            ),
        decreases list@.len() - i,
    {
        let entry: (u32, &CodeItem) = list[i];
        assert(list@[i as int].0 == keys[i as int]);
        open_item(&mut blob, &mut remap, entry.0, 4, over)?;
        let ghost start = blob@;
        let item = emit_code_item(entry.1)?;
        blob.extend_from_slice(item.as_slice());
        assert(blob@ =~= start + parts[i as int]->Ok_0);
        i = i + 1;
    }
    Ok((blob, remap))
}

// Class members

/// The methods from position `i` on with the places of their bodies, after those
/// in `acc`.
pub open spec fn methods_moved(
    methods: Seq<EncodedMethod>,
    remap: Map<u32, u32>,
    base: u32,
    i: nat,
    acc: Seq<EncodedMethod>,
) -> Result<Seq<EncodedMethod>, DexEmitError>
    decreases methods.len() - i,
{
    if i >= methods.len() {
        Ok(acc)
    } else {
        let m = methods[i as int];
        match resolved(
            m.code_off,
            base,
            remap,
            "encoded_method.code_off references code_item not in DexFile.code_items",
            "class_data.code_off",
            "remapped code_off exceeds u32",
        ) {
            Err(e) => Err(e),
            Ok(code_off) => methods_moved(
                methods,
                remap,
                base,
                i + 1,
                acc.push(
                    EncodedMethod {
                        method_idx: m.method_idx,
                        access_flags: m.access_flags,
                        code_off,
                    },
                ),
            ),
        }
    }
}

fn move_methods(methods: &[EncodedMethod], remap: &BTreeMap<u32, u32>, base: u32) -> (r: Result<
    Vec<EncodedMethod>,
    DexEmitError,
>)
    ensures
        match methods_moved(methods@, remap@, base, 0, Seq::empty()) {
            Ok(s) => r matches Ok(v) && v@ == s,
            Err(e) => r == Err::<Vec<EncodedMethod>, DexEmitError>(e),
        },
{
    let ghost whole = methods_moved(methods@, remap@, base, 0, Seq::empty());
    let mut out: Vec<EncodedMethod> = Vec::new();
    let mut i: usize = 0;
    while i < methods.len()
        invariant
            i <= methods@.len(),
            whole == methods_moved(methods@, remap@, base, 0, Seq::empty()),
            whole == methods_moved(methods@, remap@, base, i as nat, out@),
        decreases methods@.len() - i,
    {
        let m: EncodedMethod = methods[i];
        let code_off: u32 = resolve(
            m.code_off,
            base,
            remap,
            "encoded_method.code_off references code_item not in DexFile.code_items",
            "class_data.code_off",
            "remapped code_off exceeds u32",
        )?;
        out.push(
            EncodedMethod { method_idx: m.method_idx, access_flags: m.access_flags, code_off },
        );
        i = i + 1;
    }
    Ok(out)
}

/// The members of a class with the places of their bodies.
pub open spec fn class_data_part(cd: ClassData, remap: Map<u32, u32>, base: u32) -> Result<
    Seq<u8>,
    DexEmitError,
> {
    match methods_moved(cd.direct_methods@, remap, base, 0, Seq::empty()) {
        Err(e) => Err(e),
        Ok(direct) => match methods_moved(cd.virtual_methods@, remap, base, 0, Seq::empty()) {
            Err(e) => Err(e),
            Ok(virt) => class_data(
                cd.static_fields@,
                cd.instance_fields@,
                direct,
                virt,
            ).result(),
        },
    }
}

/// The members of a class with the places of their bodies.
pub fn emit_class_data(cd: &ClassData, remap: &BTreeMap<u32, u32>, base: u32) -> (r: Result<
    Vec<u8>,
    DexEmitError,
>)
    ensures
        gives(r, class_data_part(*cd, remap@, base)),
{
    let direct = move_methods(cd.direct_methods.as_slice(), remap, base)?;
    let virt = move_methods(cd.virtual_methods.as_slice(), remap, base)?;
    emit_class_data_item(
        cd.static_fields.as_slice(),
        cd.instance_fields.as_slice(),
        direct.as_slice(),
        virt.as_slice(),
    )
}

/// The parts of the class-member section.
pub open spec fn class_data_parts(
    items: Map<u32, ClassData>,
    code_item_remap: Map<u32, u32>,
    code_item_base: u32,
) -> Seq<Result<Seq<u8>, DexEmitError>> {
    let keys = sorted_keys(items);
    Seq::new(keys.len(), |i: int| class_data_part(items[keys[i]], code_item_remap, code_item_base))
}

/// The class-member section.
pub open spec fn class_data_section(
    items: Map<u32, ClassData>,
    code_item_remap: Map<u32, u32>,
    code_item_base: u32,
) -> Result<Section, DexEmitError> {
    section(
        sorted_keys(items),
        class_data_parts(items, code_item_remap, code_item_base),
        1,
        section_overflow("class_data_section", "class_data blob exceeds u32 byte offset"),
    )
}

/// The class-member section.
pub fn emit_class_data_section(
    items: &BTreeMap<u32, ClassData>,
    code_item_remap: &BTreeMap<u32, u32>,
    code_item_base: u32,
) -> (r: Result<SectionBytes, DexEmitError>)
    ensures
        gives_section(r, class_data_section(items@, code_item_remap@, code_item_base)),
{
    let ghost whole = class_data_section(items@, code_item_remap@, code_item_base);
    let ghost keys = sorted_keys(items@);
    let ghost parts = class_data_parts(items@, code_item_remap@, code_item_base);
    let over = DexEmitError::OffsetOverflow { section: "class_data_section", context: "class_data blob exceeds u32 byte offset" };
    let mut blob: Vec<u8> = Vec::new();
    let mut remap: BTreeMap<u32, u32> = BTreeMap::new();
    let list = entries(items);
    assert(Section { blob: blob@, remap: remap@ } =~= nothing());
    let mut i: usize = 0;
    while i < list.len()
        invariant
            i <= list@.len() == keys.len(),
            keys == sorted_keys(items@),
            parts == class_data_parts(items@, code_item_remap@, code_item_base),
            forall|i: int|
                #![trigger list@[i]]
                0 <= i < list@.len() ==> list@[i].0 == keys[i] && items@[keys[i]] == *list@[i].1,
            over == section_overflow("class_data_section", "class_data blob exceeds u32 byte offset"),
            whole == class_data_section(items@, code_item_remap@, code_item_base),
            whole == laid_out(
                keys,
                parts,
                1,
                over,
                i as nat,
                Section { blob: blob@, remap: remap@ },
            ),
        decreases list@.len() - i,
    {
        let entry: (u32, &ClassData) = list[i];
        assert(list@[i as int].0 == keys[i as int]);
        open_item(&mut blob, &mut remap, entry.0, 1, over)?;
        let ghost start = blob@;
        let item = emit_class_data(entry.1, code_item_remap, code_item_base)?;
        blob.extend_from_slice(item.as_slice());
        assert(blob@ =~= start + parts[i as int]->Ok_0);
        i = i + 1;
    }
    Ok((blob, remap))
}

// Debug information

/// Debug information, as it was read.
pub open spec fn debug_info_part(raw: Vec<u8>) -> Result<Seq<u8>, DexEmitError> {
    Ok(raw@)
}

/// The parts of the debug-information section.
pub open spec fn debug_info_parts(items: Map<u32, Vec<u8>>) -> Seq<Result<Seq<u8>, DexEmitError>> {
    let keys = sorted_keys(items);
    Seq::new(keys.len(), |i: int| debug_info_part(items[keys[i]]))
}

/// The debug-information section.
pub open spec fn debug_info_section(items: Map<u32, Vec<u8>>) -> Result<Section, DexEmitError> {
    section(
        sorted_keys(items),
        debug_info_parts(items),
        1,
        section_overflow("debug_info_section", "debug_info blob exceeds u32 byte offset"),
    )
}

/// The debug-information section.
pub fn emit_debug_info_section(items: &BTreeMap<u32, Vec<u8>>) -> (r: Result<SectionBytes, DexEmitError>)
    ensures
        gives_section(r, debug_info_section(items@)),
{
    let ghost whole = debug_info_section(items@);
    let ghost keys = sorted_keys(items@);
    let ghost parts = debug_info_parts(items@);
    let over = DexEmitError::OffsetOverflow { section: "debug_info_section", context: "debug_info blob exceeds u32 byte offset" };
    let mut blob: Vec<u8> = Vec::new();
    let mut remap: BTreeMap<u32, u32> = BTreeMap::new();
    let list = entries(items);
    assert(Section { blob: blob@, remap: remap@ } =~= nothing());
    let mut i: usize = 0;
    while i < list.len()
        invariant
            i <= list@.len() == keys.len(),
            keys == sorted_keys(items@),
            parts == debug_info_parts(items@),
            forall|i: int|
                #![trigger list@[i]]
                0 <= i < list@.len() ==> list@[i].0 == keys[i] && items@[keys[i]] == *list@[i].1,
            over == section_overflow("debug_info_section", "debug_info blob exceeds u32 byte offset"),
            whole == debug_info_section(items@),
            whole == laid_out(
                keys,
                parts,
                1,
                over,
                i as nat,
                Section { blob: blob@, remap: remap@ },
            ),
        decreases list@.len() - i,
    {
        let entry: (u32, &Vec<u8>) = list[i];
        assert(list@[i as int].0 == keys[i as int]);
        open_item(&mut blob, &mut remap, entry.0, 1, over)?;
        let ghost start = blob@;
        let item: &Vec<u8> = entry.1;
        blob.extend_from_slice(item.as_slice());
        assert(blob@ =~= start + parts[i as int]->Ok_0);
        i = i + 1;
    }
    Ok((blob, remap))
}

// Encoded arrays

/// The recorded widths of the array at `key`.
pub open spec fn recorded_widths(widths: Option<Map<u32, Vec<u8>>>, key: u32) -> Option<Seq<u8>> {
    match widths {
        None => None,
        Some(w) => if w.contains_key(key) {
            Some(w[key]@)
        } else {
            None
        },
    }
}

/// The maps behind an optional reference.
pub open spec fn width_map(widths: Option<&BTreeMap<u32, Vec<u8>>>) -> Option<Map<u32, Vec<u8>>> {
    match widths {
        None => None,
        Some(w) => Some(w@),
    }
}

/// The parts of the encoded-array section.
pub open spec fn encoded_array_parts(
    items: Map<u32, Vec<EncodedValue>>,
    widths: Option<Map<u32, Vec<u8>>>,
) -> Seq<Result<Seq<u8>, DexEmitError>> {
    let keys = sorted_keys(items);
    Seq::new(
        keys.len(),
        |i: int| array_written(items[keys[i]]@, recorded_widths(widths, keys[i])).result(),
    )
}

/// The encoded-array section, at recorded widths where there are any.
pub open spec fn encoded_array_section(
    items: Map<u32, Vec<EncodedValue>>,
    widths: Option<Map<u32, Vec<u8>>>,
) -> Result<Section, DexEmitError> {
    section(
        sorted_keys(items),
        encoded_array_parts(items, widths),
        1,
        section_overflow("encoded_array_section", "encoded_array blob exceeds u32 byte offset"),
    )
}

/// The encoded-array section.
pub fn emit_encoded_array_section(arrays: &BTreeMap<u32, Vec<EncodedValue>>) -> (r: Result<
    SectionBytes,
    DexEmitError,
>)
    ensures
        gives_section(r, encoded_array_section(arrays@, None)),
{
    emit_encoded_array_section_with_widths(arrays, None)
}

/// The encoded-array section, at recorded widths where there are any.
pub fn emit_encoded_array_section_with_widths(
    items: &BTreeMap<u32, Vec<EncodedValue>>,
    widths: Option<&BTreeMap<u32, Vec<u8>>>,
) -> (r: Result<SectionBytes, DexEmitError>)
    ensures
        gives_section(r, encoded_array_section(items@, width_map(widths))),
{
    let ghost whole = encoded_array_section(items@, width_map(widths));
    let ghost keys = sorted_keys(items@);
    let ghost parts = encoded_array_parts(items@, width_map(widths));
    let over = DexEmitError::OffsetOverflow { section: "encoded_array_section", context: "encoded_array blob exceeds u32 byte offset" };
    let mut blob: Vec<u8> = Vec::new();
    let mut remap: BTreeMap<u32, u32> = BTreeMap::new();
    let list = entries(items);
    assert(Section { blob: blob@, remap: remap@ } =~= nothing());
    let mut i: usize = 0;
    while i < list.len()
        invariant
            i <= list@.len() == keys.len(),
            keys == sorted_keys(items@),
            parts == encoded_array_parts(items@, width_map(widths)),
            forall|i: int|
                #![trigger list@[i]]
                0 <= i < list@.len() ==> list@[i].0 == keys[i] && items@[keys[i]] == *list@[i].1,
            over == section_overflow("encoded_array_section", "encoded_array blob exceeds u32 byte offset"),
            whole == encoded_array_section(items@, width_map(widths)),
            whole == laid_out(
                keys,
                parts,
                1,
                over,
                i as nat,
                Section { blob: blob@, remap: remap@ },
            ),
        decreases list@.len() - i,
    {
        let entry: (u32, &Vec<EncodedValue>) = list[i];
        assert(list@[i as int].0 == keys[i as int]);
        open_item(&mut blob, &mut remap, entry.0, 1, over)?;
        let ghost start = blob@;
        let per_array: Option<&[u8]> = match widths {
            None => None,
            Some(w) => match widths_at(w, entry.0) {
                Some(ws) => Some(ws.as_slice()),
                None => None,
            },
        };
        assert(width_seq(per_array) == recorded_widths(width_map(widths), keys[i as int]));
        let item = emit_encoded_array_with_widths(entry.1.as_slice(), per_array)?;
        blob.extend_from_slice(item.as_slice());
        assert(blob@ =~= start + parts[i as int]->Ok_0);
        i = i + 1;
    }
    Ok((blob, remap))
}

// Annotations

/// An annotation: its visibility, then its body.
pub open spec fn annotation_item_part(item: AnnotationItem) -> Result<Seq<u8>, DexEmitError> {
    done(seq![item.visibility]).and(annotation_written(item.annotation)).result()
}

/// An annotation: its visibility, then its body.
pub fn emit_annotation_item_bytes(item: &AnnotationItem) -> (r: Result<Vec<u8>, DexEmitError>)
    ensures
        gives(r, annotation_item_part(*item)),
{
    let mut out: Vec<u8> = Vec::new();
    out.push(item.visibility);
    emit_encoded_annotation(&mut out, &item.annotation)?;
    assert(out@ =~= seq![item.visibility] + annotation_written(item.annotation).bytes);
    Ok(out)
}

/// The parts of the annotation section.
pub open spec fn annotation_item_parts(items: Map<u32, AnnotationItem>) -> Seq<Result<Seq<u8>, DexEmitError>> {
    let keys = sorted_keys(items);
    Seq::new(keys.len(), |i: int| annotation_item_part(items[keys[i]]))
}

/// The annotation section.
pub open spec fn annotation_item_section(items: Map<u32, AnnotationItem>) -> Result<Section, DexEmitError> {
    section(
        sorted_keys(items),
        annotation_item_parts(items),
        1,
        section_overflow("annotation_item_section", "annotation_item blob exceeds u32 byte offset"),
    )
}

/// The annotation section.
pub fn emit_annotation_item_section(items: &BTreeMap<u32, AnnotationItem>) -> (r: Result<SectionBytes, DexEmitError>)
    ensures
        gives_section(r, annotation_item_section(items@)),
{
    let ghost whole = annotation_item_section(items@);
    let ghost keys = sorted_keys(items@);
    let ghost parts = annotation_item_parts(items@);
    let over = DexEmitError::OffsetOverflow { section: "annotation_item_section", context: "annotation_item blob exceeds u32 byte offset" };
    let mut blob: Vec<u8> = Vec::new();
    let mut remap: BTreeMap<u32, u32> = BTreeMap::new();
    let list = entries(items);
    assert(Section { blob: blob@, remap: remap@ } =~= nothing());
    let mut i: usize = 0;
    while i < list.len()
        invariant
            i <= list@.len() == keys.len(),
            keys == sorted_keys(items@),
            parts == annotation_item_parts(items@),
            forall|i: int|
                #![trigger list@[i]]
                0 <= i < list@.len() ==> list@[i].0 == keys[i] && items@[keys[i]] == *list@[i].1,
            over == section_overflow("annotation_item_section", "annotation_item blob exceeds u32 byte offset"),
            whole == annotation_item_section(items@),
            whole == laid_out(
                keys,
                parts,
                1,
                over,
                i as nat,
                Section { blob: blob@, remap: remap@ },
            ),
        decreases list@.len() - i,
    {
        let entry: (u32, &AnnotationItem) = list[i];
        assert(list@[i as int].0 == keys[i as int]);
        open_item(&mut blob, &mut remap, entry.0, 1, over)?;
        let ghost start = blob@;
        let item = emit_annotation_item_bytes(entry.1)?;
        blob.extend_from_slice(item.as_slice());
        assert(blob@ =~= start + parts[i as int]->Ok_0);
        i = i + 1;
    }
    Ok((blob, remap))
}

/// A list of offsets after its length.
pub open spec fn offset_list(offs: Seq<u32>) -> Seq<u8> {
    le32((offs.len() % 0x1_0000_0000) as u32) + words(offs, offs.len())
}

/// A list of offsets after its length.
pub fn emit_annotation_set_bytes(absolute_offs: &[u32]) -> (r: Vec<u8>)
    ensures
        r@ == offset_list(absolute_offs@),
{
    let mut out: Vec<u8> = Vec::new();
    push_u32(&mut out, (absolute_offs.len() as u64 % 0x1_0000_0000) as u32);
    push_words(&mut out, absolute_offs);
    assert(out@ =~= offset_list(absolute_offs@));
    out
}

/// A list of offsets of items that moved.
pub open spec fn moved_list(
    offs: Seq<u32>,
    base: u32,
    remap: Map<u32, u32>,
    missing: &'static str,
    section: &'static str,
    context: &'static str,
) -> Result<Seq<u8>, DexEmitError> {
    match all_resolved(offs, base, remap, missing, section, context, 0, Seq::empty()) {
        Err(e) => Err(e),
        Ok(abs) => Ok(offset_list(abs)),
    }
}

/// A list of offsets of items that moved.
pub fn emit_moved_list(
    offs: &[u32],
    base: u32,
    remap: &BTreeMap<u32, u32>,
    missing: &'static str,
    section: &'static str,
    context: &'static str,
) -> (r: Result<Vec<u8>, DexEmitError>)
    ensures
        gives(r, moved_list(offs@, base, remap@, missing, section, context)),
{
    let absolute = resolve_all(offs, base, remap, missing, section, context)?;
    Ok(emit_annotation_set_bytes(absolute.as_slice()))
}

/// An annotation set: the places of its annotations.
pub open spec fn annotation_set_part(offs: Vec<u32>, base: u32, remap: Map<u32, u32>) -> Result<
    Seq<u8>,
    DexEmitError,
> {
    moved_list(
        offs@,
        base,
        remap,
        "annotation_set references annotation_item not in DexFile.annotation_items",
        "annotation_set.annotation_off",
        "remapped annotation_item offset exceeds u32",
    )
}

/// A list of annotation sets: their places.
pub open spec fn annotation_set_ref_list_part(
    offs: Vec<u32>,
    base: u32,
    remap: Map<u32, u32>,
) -> Result<Seq<u8>, DexEmitError> {
    moved_list(
        offs@,
        base,
        remap,
        "annotation_set_ref_list references annotation_set not in DexFile.annotation_sets",
        "annotation_set_ref_list.annotations_off",
        "remapped annotation_set offset exceeds u32",
    )
}

/// The parts of the annotation-set section.
pub open spec fn annotation_set_parts(
    items: Map<u32, Vec<u32>>,
    item_base: u32,
    item_remap: Map<u32, u32>,
) -> Seq<Result<Seq<u8>, DexEmitError>> {
    let keys = sorted_keys(items);
    Seq::new(keys.len(), |i: int| annotation_set_part(items[keys[i]], item_base, item_remap))
}

/// The annotation-set section.
pub open spec fn annotation_set_section(
    items: Map<u32, Vec<u32>>,
    item_base: u32,
    item_remap: Map<u32, u32>,
) -> Result<Section, DexEmitError> {
    section(
        sorted_keys(items),
        annotation_set_parts(items, item_base, item_remap),
        4,
        section_overflow("annotation_set_section", "annotation_set blob exceeds u32 byte offset"),
    )
}

/// The annotation-set section.
pub fn emit_annotation_set_section(
    items: &BTreeMap<u32, Vec<u32>>,
    item_base: u32,
    item_remap: &BTreeMap<u32, u32>,
) -> (r: Result<SectionBytes, DexEmitError>)
    ensures
        gives_section(r, annotation_set_section(items@, item_base, item_remap@)),
{
    let ghost whole = annotation_set_section(items@, item_base, item_remap@);
    let ghost keys = sorted_keys(items@);
    let ghost parts = annotation_set_parts(items@, item_base, item_remap@);
    let over = DexEmitError::OffsetOverflow { section: "annotation_set_section", context: "annotation_set blob exceeds u32 byte offset" };
    let mut blob: Vec<u8> = Vec::new();
    let mut remap: BTreeMap<u32, u32> = BTreeMap::new();
    let list = entries(items);
    assert(Section { blob: blob@, remap: remap@ } =~= nothing());
    let mut i: usize = 0;
    while i < list.len()
        invariant
            i <= list@.len() == keys.len(),
            keys == sorted_keys(items@),
            parts == annotation_set_parts(items@, item_base, item_remap@),
            forall|i: int|
                #![trigger list@[i]]
                0 <= i < list@.len() ==> list@[i].0 == keys[i] && items@[keys[i]] == *list@[i].1,
            over == section_overflow("annotation_set_section", "annotation_set blob exceeds u32 byte offset"),
            whole == annotation_set_section(items@, item_base, item_remap@),
            whole == laid_out(
                keys,
                parts,
                4,
                over,
                i as nat,
                Section { blob: blob@, remap: remap@ },
            ),
        decreases list@.len() - i,
    {
        let entry: (u32, &Vec<u32>) = list[i];
        assert(list@[i as int].0 == keys[i as int]);
        open_item(&mut blob, &mut remap, entry.0, 4, over)?;
        let ghost start = blob@;
        let item = emit_moved_list(
            entry.1.as_slice(),
            item_base,
            item_remap,
            "annotation_set references annotation_item not in DexFile.annotation_items",
            "annotation_set.annotation_off",
            "remapped annotation_item offset exceeds u32",
        )?;
        blob.extend_from_slice(item.as_slice());
        assert(blob@ =~= start + parts[i as int]->Ok_0);
        i = i + 1;
    }
    Ok((blob, remap))
}

/// The parts of the annotation-set-list section.
pub open spec fn annotation_set_ref_list_parts(
    items: Map<u32, Vec<u32>>,
    set_base: u32,
    set_remap: Map<u32, u32>,
) -> Seq<Result<Seq<u8>, DexEmitError>> {
    let keys = sorted_keys(items);
    Seq::new(keys.len(), |i: int| annotation_set_ref_list_part(items[keys[i]], set_base, set_remap))
}

/// The annotation-set-list section.
pub open spec fn annotation_set_ref_list_section(
    items: Map<u32, Vec<u32>>,
    set_base: u32,
    set_remap: Map<u32, u32>,
) -> Result<Section, DexEmitError> {
    section(
        sorted_keys(items),
        annotation_set_ref_list_parts(items, set_base, set_remap),
        4,
        section_overflow("annotation_set_ref_list_section", "annotation_set_ref_list blob exceeds u32 byte offset"),
    )
}

/// The annotation-set-list section.
pub fn emit_annotation_set_ref_list_section(
    items: &BTreeMap<u32, Vec<u32>>,
    set_base: u32,
    set_remap: &BTreeMap<u32, u32>,
) -> (r: Result<SectionBytes, DexEmitError>)
    ensures
        gives_section(r, annotation_set_ref_list_section(items@, set_base, set_remap@)),
{
    let ghost whole = annotation_set_ref_list_section(items@, set_base, set_remap@);
    let ghost keys = sorted_keys(items@);
    let ghost parts = annotation_set_ref_list_parts(items@, set_base, set_remap@);
    let over = DexEmitError::OffsetOverflow { section: "annotation_set_ref_list_section", context: "annotation_set_ref_list blob exceeds u32 byte offset" };
    let mut blob: Vec<u8> = Vec::new();
    let mut remap: BTreeMap<u32, u32> = BTreeMap::new();
    let list = entries(items);
    assert(Section { blob: blob@, remap: remap@ } =~= nothing());
    let mut i: usize = 0;
    while i < list.len()
        invariant
            i <= list@.len() == keys.len(),
            keys == sorted_keys(items@),
            parts == annotation_set_ref_list_parts(items@, set_base, set_remap@),
            forall|i: int|
                #![trigger list@[i]]
                0 <= i < list@.len() ==> list@[i].0 == keys[i] && items@[keys[i]] == *list@[i].1,
            over == section_overflow("annotation_set_ref_list_section", "annotation_set_ref_list blob exceeds u32 byte offset"),
            whole == annotation_set_ref_list_section(items@, set_base, set_remap@),
            whole == laid_out(
                keys,
                parts,
                4,
                over,
                i as nat,
                Section { blob: blob@, remap: remap@ },
            ),
        decreases list@.len() - i,
    {
        let entry: (u32, &Vec<u32>) = list[i];
        assert(list@[i as int].0 == keys[i as int]);
        open_item(&mut blob, &mut remap, entry.0, 4, over)?;
        let ghost start = blob@;
        let item = emit_moved_list(
            entry.1.as_slice(),
            set_base,
            set_remap,
            "annotation_set_ref_list references annotation_set not in DexFile.annotation_sets",
            "annotation_set_ref_list.annotations_off",
            "remapped annotation_set offset exceeds u32",
        )?;
        blob.extend_from_slice(item.as_slice());
        assert(blob@ =~= start + parts[i as int]->Ok_0);
        i = i + 1;
    }
    Ok((blob, remap))
}

} // verus!
