//! Where the id pools and the sections of a file go.
use std::collections::BTreeMap;
use vstd::prelude::*;

use crate::bytes::{le32, overlay, push_u32, read_le32, write_over};
use crate::collections::{bound, entries, sorted_keys};
use crate::decode::CodeItem;
use crate::dex_string::DexString;
use crate::emit_dex::checksum::DEX_HEADER_SIZE;
use crate::emit_dex::code_item::sat32;
use crate::emit_dex::error::DexEmitError;
use crate::emit_dex::ordering::{non_decreasing, NonDecreasing};
use crate::emit_dex::pools::{
    class_defs, emit_class_def_pool, emit_proto_pool, emit_type_pool, len32, low32, proto_ids,
    type_ids,
};
use crate::emit_dex::sections::{place_of, resolve, resolved};
use crate::emit_dex::written::gives;
use crate::ids::{ClassDefItem, ProtoIdItem, StringIdx};

verus! {

/// An error about an offset that does not fit in 32 bits.
pub open spec fn overflow(section: &'static str, context: &'static str) -> DexEmitError {
    DexEmitError::OffsetOverflow { section, context }
}

// Types

/// The index of the last of the first `n` strings that reads `text`.
pub open spec fn string_index(strings: Seq<DexString>, n: nat, text: Seq<char>) -> Option<StringIdx>
    decreases n,
{
    if n == 0 {
        None
    } else if strings[n - 1].text() == text {
        Some(StringIdx(low32((n - 1) as nat)))
    } else {
        string_index(strings, (n - 1) as nat, text)
    }
}

/// The string indexes of the type descriptors from position `i` on, after those in
/// `acc`.
pub open spec fn type_indexes(
    strings: Seq<DexString>,
    descriptors: Seq<String>,
    i: nat,
    acc: Seq<StringIdx>,
) -> Result<Seq<StringIdx>, DexEmitError>
    decreases descriptors.len() - i,
{
    if i >= descriptors.len() {
        Ok(acc)
    } else {
        match string_index(strings, strings.len(), descriptors[i as int]@) {
            None => Err(
                DexEmitError::UnrepresentableIR {
                    why: "emit_dex: type_descriptor not found in strings pool (IR is internally inconsistent)",
                },
            ),
            Some(idx) => type_indexes(strings, descriptors, i + 1, acc.push(idx)),
        }
    }
}

/// Every type descriptor gets a string index.
pub proof fn type_indexes_len(
    strings: Seq<DexString>,
    descriptors: Seq<String>,
    i: nat,
    acc: Seq<StringIdx>,
)
    requires
        i <= descriptors.len(),
    ensures
        type_indexes(strings, descriptors, i, acc) matches Ok(s) ==> s.len() == acc.len()
            + descriptors.len() - i,
    decreases descriptors.len() - i,
{
    if i < descriptors.len() {
        match string_index(strings, strings.len(), descriptors[i as int]@) {
            None => {},
            Some(idx) => type_indexes_len(strings, descriptors, i + 1, acc.push(idx)),
        }
    }
}

fn find_string(strings: &[DexString], text: &String) -> (r: Option<StringIdx>)
    ensures
        r == string_index(strings@, strings@.len(), text@),
{
    let mut n: usize = strings.len();
    while n > 0
        invariant
            n <= strings@.len(),
            string_index(strings@, strings@.len(), text@) == string_index(
                strings@,
                n as nat,
                text@,
            ),
        decreases n,
    {
        if strings[n - 1].reads(text) {
            return Some(StringIdx(len32(n - 1)));
        }
        n = n - 1;
    }
    None
}

/// The string index of each type descriptor.
pub fn find_types(strings: &[DexString], descriptors: &[String]) -> (r: Result<
    Vec<StringIdx>,
    DexEmitError,
>)
    ensures
        match type_indexes(strings@, descriptors@, 0, Seq::empty()) {
            Ok(s) => r matches Ok(v) && v@ == s,
            Err(e) => r == Err::<Vec<StringIdx>, DexEmitError>(e),
        },
{
    let ghost whole = type_indexes(strings@, descriptors@, 0, Seq::empty());
    let mut out: Vec<StringIdx> = Vec::new();
    let mut i: usize = 0;
    while i < descriptors.len()
        invariant
            i <= descriptors@.len(),
            whole == type_indexes(strings@, descriptors@, 0, Seq::empty()),
            whole == type_indexes(strings@, descriptors@, i as nat, out@),
        decreases descriptors@.len() - i,
    {
        match find_string(strings, &descriptors[i]) {
            None => {
                return Err(
                    DexEmitError::UnrepresentableIR {
                        why: "emit_dex: type_descriptor not found in strings pool (IR is internally inconsistent)",
                    },
                );
            },
            Some(idx) => {
                out.push(idx);
            },
        }
        i = i + 1;
    }
    Ok(out)
}

/// The type pool, which has to be in order.
pub open spec fn ordered_types(idxs: Seq<StringIdx>) -> Result<Seq<u8>, DexEmitError> {
    if non_decreasing(idxs) {
        Ok(type_ids(idxs, idxs.len()))
    } else {
        Err(
            DexEmitError::UnrepresentableIR {
                why: "dex.type_descriptors not in canonical order — parser accepts; emit rejects to avoid silent index miscompile",
            },
        )
    }
}

/// The type pool, which has to be in order.
pub fn emit_ordered_types(idxs: Vec<StringIdx>) -> (r: Result<Vec<u8>, DexEmitError>)
    ensures
        gives(r, ordered_types(idxs@)),
{
    match NonDecreasing::from_verified(idxs) {
        Ok(sorted) => Ok(emit_type_pool(&sorted)),
        Err(_) => Err(
            DexEmitError::UnrepresentableIR {
                why: "dex.type_descriptors not in canonical order — parser accepts; emit rejects to avoid silent index miscompile",
            },
        ),
    }
}

// Id pools

/// How many bytes each id pool takes.
pub struct PoolSizes {
    pub strings: int,
    pub types: int,
    pub protos: int,
    pub fields: int,
    pub methods: int,
    pub classes: int,
    pub call_sites: int,
    pub handles: int,
}

/// Where each id pool starts, 0 for one that is empty, and where they all end.
#[derive(Debug, Clone, Copy, PartialEq, Eq, Structural)]
pub struct PoolPlaces {
    pub string_ids_off: u32,
    pub type_ids_off: u32,
    pub proto_ids_off: u32,
    pub field_ids_off: u32,
    pub method_ids_off: u32,
    pub class_defs_off: u32,
    pub call_site_ids_off: u32,
    pub method_handles_off: u32,
    pub data_off: u32,
}

/// Where a pool of `bytes` bytes starts.
pub open spec fn start_of(bytes: int, off: u32) -> u32 {
    if bytes > 0 {
        off
    } else {
        0
    }
}

/// What is wrong with the size of a pool: which one, and the message.
pub open spec fn pool_fault(s: PoolSizes, in_place: bool) -> Option<DexEmitError> {
    if s.strings > u32::MAX {
        Some(
            overflow(
                "string_ids",
                if in_place {
                    "string_ids offset overflow"
                } else {
                    "string_ids section exceeds u32 byte offset"
                },
            ),
        )
    } else if s.types > u32::MAX {
        Some(overflow("type_ids", "type_ids offset overflow"))
    } else if s.protos > u32::MAX {
        Some(
            overflow(
                "proto_ids",
                if in_place {
                    "proto_ids size overflow"
                } else {
                    "proto_ids byte size exceeds u32"
                },
            ),
        )
    } else if s.fields > u32::MAX {
        Some(overflow("field_ids", "field_ids offset overflow"))
    } else if s.methods > u32::MAX {
        Some(overflow("method_ids", "method_ids offset overflow"))
    } else if s.classes > u32::MAX {
        Some(
            overflow(
                "class_defs",
                if in_place {
                    "class_defs size overflow"
                } else {
                    "class_defs byte size exceeds u32"
                },
            ),
        )
    } else if s.call_sites > u32::MAX {
        Some(
            overflow(
                "call_site_ids",
                if in_place {
                    "call_site_ids size overflow"
                } else {
                    "call_site_ids byte size exceeds u32"
                },
            ),
        )
    } else if s.handles > u32::MAX {
        Some(
            overflow(
                "method_handles",
                if in_place {
                    "method_handles size overflow"
                } else {
                    "method_handles byte size exceeds u32"
                },
            ),
        )
    } else {
        None
    }
}

/// Where the id pools go: one after the other behind the header.
pub open spec fn pool_places(s: PoolSizes) -> PoolPlaces {
    let types = sat32(DEX_HEADER_SIZE + s.strings);
    let protos = sat32(types + s.types);
    let fields = sat32(protos + s.protos);
    let methods = sat32(fields + s.fields);
    let classes = sat32(methods + s.methods);
    let call_sites = sat32(classes + s.classes);
    let handles = sat32(call_sites + s.call_sites);
    PoolPlaces {
        string_ids_off: start_of(s.strings, DEX_HEADER_SIZE),
        type_ids_off: start_of(s.types, types),
        proto_ids_off: start_of(s.protos, protos),
        field_ids_off: start_of(s.fields, fields),
        method_ids_off: start_of(s.methods, methods),
        class_defs_off: start_of(s.classes, classes),
        call_site_ids_off: start_of(s.call_sites, call_sites),
        method_handles_off: start_of(s.handles, handles),
        data_off: sat32(handles + s.handles),
    }
}

/// Where the id pools go. `in_place` selects the wording of errors.
pub open spec fn pool_layout(s: PoolSizes, in_place: bool) -> Result<PoolPlaces, DexEmitError> {
    match pool_fault(s, in_place) {
        Some(e) => Err(e),
        None => Ok(pool_places(s)),
    }
}

/// The start of a pool of `count` items of `stride` bytes at `off`, and its end.
fn place_pool(
    off: u32,
    count: usize,
    stride: u32,
    section: &'static str,
    context: &'static str,
) -> (r: Result<(u32, u32), DexEmitError>)
    requires
        0 < stride <= 32,
    ensures
        if count * stride > u32::MAX {
            r == Err::<(u32, u32), DexEmitError>(overflow(section, context))
        } else {
            r == Ok::<(u32, u32), DexEmitError>(
                (start_of(count * stride, off), sat32(off + count * stride)),
            )
        },
{
    assert(0 <= count * stride <= usize::MAX * 32) by (nonlinear_arith)
        requires
            stride <= 32,
            0 <= count <= usize::MAX,
    ;
    assert((count * stride == 0) == (count == 0)) by (nonlinear_arith)
        requires
            stride > 0,
    ;
    let bytes: u128 = count as u128 * stride as u128;
    if bytes > u32::MAX as u128 {
        return Err(DexEmitError::OffsetOverflow { section, context });
    }
    let start: u32 = if count > 0 {
        off
    } else {
        0
    };
    Ok((start, off.saturating_add(bytes as u32)))
}

/// How many items each id pool has, for pools of strings, types, fields and methods
/// how many bytes.
#[derive(Debug, Clone, Copy, PartialEq, Eq)]
pub struct PoolCounts {
    pub string_bytes: usize,
    pub type_bytes: usize,
    pub protos: usize,
    pub field_bytes: usize,
    pub method_bytes: usize,
    pub classes: usize,
    pub call_sites: usize,
    pub handles: usize,
}

impl PoolCounts {
    /// How many bytes each id pool takes.
    pub open spec fn sizes(self) -> PoolSizes {
        PoolSizes {
            strings: self.string_bytes as int,
            types: self.type_bytes as int,
            protos: self.protos * 12,
            fields: self.field_bytes as int,
            methods: self.method_bytes as int,
            classes: self.classes * 32,
            call_sites: self.call_sites * 4,
            handles: self.handles * 8,
        }
    }
}

/// Where the id pools go. `in_place` selects the wording of errors.
pub fn place_pools(c: &PoolCounts, in_place: bool) -> (r: Result<PoolPlaces, DexEmitError>)
    ensures
        r == pool_layout(c.sizes(), in_place),
{
    let (string_ids_off, off) = place_pool(
        DEX_HEADER_SIZE,
        c.string_bytes,
        1,
        "string_ids",
        if in_place {
            "string_ids offset overflow"
        } else {
            "string_ids section exceeds u32 byte offset"
        },
    )?;
    let (type_ids_off, off) = place_pool(
        off,
        c.type_bytes,
        1,
        "type_ids",
        "type_ids offset overflow",
    )?;
    let (proto_ids_off, off) = place_pool(
        off,
        c.protos,
        12,
        "proto_ids",
        if in_place {
            "proto_ids size overflow"
        } else {
            "proto_ids byte size exceeds u32"
        },
    )?;
    let (field_ids_off, off) = place_pool(
        off,
        c.field_bytes,
        1,
        "field_ids",
        "field_ids offset overflow",
    )?;
    let (method_ids_off, off) = place_pool(
        off,
        c.method_bytes,
        1,
        "method_ids",
        "method_ids offset overflow",
    )?;
    let (class_defs_off, off) = place_pool(
        off,
        c.classes,
        32,
        "class_defs",
        if in_place {
            "class_defs size overflow"
        } else {
            "class_defs byte size exceeds u32"
        },
    )?;
    let (call_site_ids_off, off) = place_pool(
        off,
        c.call_sites,
        4,
        "call_site_ids",
        if in_place {
            "call_site_ids size overflow"
        } else {
            "call_site_ids byte size exceeds u32"
        },
    )?;
    let (method_handles_off, data_off) = place_pool(
        off,
        c.handles,
        8,
        "method_handles",
        if in_place {
            "method_handles size overflow"
        } else {
            "method_handles byte size exceeds u32"
        },
    )?;
    Ok(
        PoolPlaces {
            string_ids_off,
            type_ids_off,
            proto_ids_off,
            field_ids_off,
            method_ids_off,
            class_defs_off,
            call_site_ids_off,
            method_handles_off,
            data_off,
        },
    )
}

// Alignment

/// The least multiple of `align` from `v` on, if it fits in 32 bits.
pub open spec fn aligned_up(v: u32, align: u32) -> Option<u32> {
    let top = v + align - 1;
    if top > u32::MAX {
        None
    } else {
        Some((top - top % align as int) as u32)
    }
}

/// The least multiple of `align` from `v` on, if `v` plus `align` less one fits in
/// 32 bits.
pub fn align_up_u32(v: u32, align: u32) -> (r: Option<u32>)
    requires
        align > 0,
    ensures
        r == aligned_up(v, align),
{
    match v.checked_add(align - 1) {
        None => None,
        Some(top) => Some(top - top % align),
    }
}

/// The least multiple of four from `v` on is a multiple of four, and less than four
/// away.
pub proof fn aligned_up_is_near(v: u32)
    ensures
        match aligned_up(v, 4) {
            Some(a) => a % 4 == 0 && v <= a < v + 4,
            None => v > u32::MAX - 3,
        },
{
}

/// Takes the place after `len` bytes at `off`.
pub fn after(off: u32, len: usize, section: &'static str, context: &'static str) -> (r: Result<
    u32,
    DexEmitError,
>)
    ensures
        if len > u32::MAX {
            r == Err::<u32, DexEmitError>(overflow(section, context))
        } else {
            r == Ok::<u32, DexEmitError>(sat32(off + len))
        },
{
    if len > u32::MAX as usize {
        return Err(DexEmitError::OffsetOverflow { section, context });
    }
    Ok(off.saturating_add(len as u32))
}

// Links between sections

/// The place of a method body's debug info: 0 where it has none, where it is not
/// known, and where the place does not fit in 32 bits.
pub open spec fn debug_place(off: u32, debug: Map<u32, u32>, base: u32) -> u32 {
    if off == 0 || !debug.contains_key(off) || base + debug[off] > u32::MAX {
        0
    } else {
        (base + debug[off]) as u32
    }
}

/// The method-body section `blob` with the places of debug info written into the
/// bodies from position `i` on.
pub open spec fn debug_linked(
    remap: Map<u32, u32>,
    items: Map<u32, CodeItem>,
    debug: Map<u32, u32>,
    base: u32,
    blob: Seq<u8>,
    i: nat,
) -> Result<Seq<u8>, DexEmitError>
    decreases sorted_keys(remap).len() - i,
{
    let keys = sorted_keys(remap);
    if i >= keys.len() {
        Ok(blob)
    } else if !items.contains_key(keys[i as int]) {
        debug_linked(remap, items, debug, base, blob, i + 1)
    } else {
        let at = remap[keys[i as int]] + 8;
        if at + 4 > blob.len() {
            Err(
                DexEmitError::InvariantViolated {
                    why: "code_item blob shorter than expected container header — debug_info_off rewrite OOB",
                },
            )
        } else {
            let place = debug_place(items[keys[i as int]].debug_info_off, debug, base);
            debug_linked(remap, items, debug, base, overlay(blob, at, le32(place)), i + 1)
        }
    }
}

fn debug_off_of(items: &BTreeMap<u32, CodeItem>, key: u32) -> (r: Option<u32>)
    ensures
        r == (if items@.contains_key(key) {
            Some(items@[key].debug_info_off)
        } else {
            None
        }),
{
    match bound(items, key) {
        Some(ci) => Some(ci.debug_info_off),
        None => None,
    }
}

/// Writes the places of debug info into the method-body section.
pub fn link_debug_info(
    section: Vec<u8>,
    remap: &BTreeMap<u32, u32>,
    items: &BTreeMap<u32, CodeItem>,
    debug: &BTreeMap<u32, u32>,
    base: u32,
) -> (r: Result<Vec<u8>, DexEmitError>)
    ensures
        gives(r, debug_linked(remap@, items@, debug@, base, section@, 0)),
{
    let ghost start = section@;
    let ghost whole = debug_linked(remap@, items@, debug@, base, start, 0);
    let ghost keys = sorted_keys(remap@);
    let list = entries(remap);
    let mut blob: Vec<u8> = section;
    let mut i: usize = 0;
    while i < list.len()
        invariant
            i <= list@.len() == keys.len(),
            keys == sorted_keys(remap@),
            start == section@,
            forall|i: int|
                #![trigger list@[i]]
                0 <= i < list@.len() ==> list@[i].0 == keys[i] && remap@[keys[i]] == *list@[i].1,
            whole == debug_linked(remap@, items@, debug@, base, start, 0),
            whole == debug_linked(remap@, items@, debug@, base, blob@, i as nat),
        decreases list@.len() - i,
    {
        let entry: (u32, &u32) = list[i];
        assert(list@[i as int].0 == keys[i as int]);
        match debug_off_of(items, entry.0) {
            None => {},
            Some(off) => {
                let place: u32 = match place_of(debug, off) {
                    Some(local) if off != 0 => match base.checked_add(local) {
                        Some(p) => p,
                        None => 0,
                    },
                    _ => 0,
                };
                assert(place == debug_place(off, debug@, base));
                if *entry.1 as u64 + 12 > blob.len() as u64 {
                    return Err(
                        DexEmitError::InvariantViolated {
                            why: "code_item blob shorter than expected container header — debug_info_off rewrite OOB",
                        },
                    );
                }
                let mut field: Vec<u8> = Vec::new();
                push_u32(&mut field, place);
                assert(field@ =~= le32(place));
                write_over(blob.as_mut_slice(), *entry.1 as usize + 8, field.as_slice());
            },
        }
        i = i + 1;
    }
    Ok(blob)
}

/// The numbers in `ids`, each moved up by `base`.
pub open spec fn lifted(ids: Seq<u8>, base: u32, n: nat) -> Seq<u8>
    decreases n,
{
    if n == 0 {
        Seq::empty()
    } else {
        lifted(ids, base, (n - 1) as nat) + le32(sat32(base + read_le32(ids, 4 * (n - 1))))
    }
}

/// Moves each of the numbers in `ids` up by `base`.
pub fn lift_string_ids(ids: &[u8], base: u32) -> (r: Vec<u8>)
    ensures
        r@ == lifted(ids@, base, ids@.len() / 4),
{
    let total: usize = ids.len();
    let n: usize = total / 4;
    let mut out: Vec<u8> = Vec::new();
    let mut i: usize = 0;
    while i < n
        invariant
            i <= n == total / 4,
            total == ids@.len(),
            out@ == lifted(ids@, base, i as nat),
        decreases n - i,
    {
        let at: usize = 4 * i;
        let rel: u32 = ids[at] as u32 + 256 * (ids[at + 1] as u32) + 65536 * (ids[at + 2] as u32)
            + 16777216 * (ids[at + 3] as u32);
        push_u32(&mut out, base.saturating_add(rel));
        i = i + 1;
    }
    out
}

/// Where a section went: its start and the place of each item in it.
pub struct Link {
    pub base: u32,
    pub remap: Map<u32, u32>,
}

/// Where the sections that the pools refer to went.
pub struct Links {
    pub lists: Link,
    pub classes: Link,
    pub directories: Link,
    pub arrays: Link,
}

/// A prototype with the place of its parameter list.
pub open spec fn proto_moved(p: ProtoIdItem, lists: Link) -> Result<ProtoIdItem, DexEmitError> {
    match resolved(
        p.parameters_off,
        lists.base,
        lists.remap,
        "proto.parameters_off references type_list not in DexFile.type_lists",
        "proto.parameters_off",
        "remapped type_list offset exceeds u32",
    ) {
        Err(e) => Err(e),
        Ok(off) => Ok(ProtoIdItem { parameters_off: off, ..p }),
    }
}

/// The prototypes from position `i` on, moved, after those in `acc`.
pub open spec fn protos_moved(
    protos: Seq<ProtoIdItem>,
    lists: Link,
    i: nat,
    acc: Seq<ProtoIdItem>,
) -> Result<Seq<ProtoIdItem>, DexEmitError>
    decreases protos.len() - i,
{
    if i >= protos.len() {
        Ok(acc)
    } else {
        match proto_moved(protos[i as int], lists) {
            Err(e) => Err(e),
            Ok(p) => protos_moved(protos, lists, i + 1, acc.push(p)),
        }
    }
}

/// A class with the places of what it refers to.
pub open spec fn class_moved(c: ClassDefItem, to: Links) -> Result<ClassDefItem, DexEmitError> {
    match resolved(
        c.interfaces_off,
        to.lists.base,
        to.lists.remap,
        "class.interfaces_off references type_list not in DexFile.type_lists",
        "class.interfaces_off",
        "remapped interfaces offset exceeds u32",
    ) {
        Err(e) => Err(e),
        Ok(interfaces_off) => match resolved(
            c.class_data_off,
            to.classes.base,
            to.classes.remap,
            "class.class_data_off references class_data not in DexFile.class_datas",
            "class.class_data_off",
            "remapped class_data offset exceeds u32",
        ) {
            Err(e) => Err(e),
            Ok(class_data_off) => match resolved(
                c.annotations_off,
                to.directories.base,
                to.directories.remap,
                "class.annotations_off references annotation_directory not in DexFile.annotations",
                "class.annotations_off",
                "remapped annotation_directory offset exceeds u32",
            ) {
                Err(e) => Err(e),
                Ok(annotations_off) => match resolved(
                    c.static_values_off,
                    to.arrays.base,
                    to.arrays.remap,
                    "class.static_values_off references encoded_array not in DexFile.encoded_arrays",
                    "class.static_values_off",
                    "remapped encoded_array offset exceeds u32",
                ) {
                    Err(e) => Err(e),
                    Ok(static_values_off) => Ok(
                        ClassDefItem {
                            interfaces_off,
                            class_data_off,
                            annotations_off,
                            static_values_off,
                            ..c
                        },
                    ),
                },
            },
        },
    }
}

/// The classes from position `i` on, moved, after those in `acc`.
pub open spec fn classes_moved(
    classes: Seq<ClassDefItem>,
    to: Links,
    i: nat,
    acc: Seq<ClassDefItem>,
) -> Result<Seq<ClassDefItem>, DexEmitError>
    decreases classes.len() - i,
{
    if i >= classes.len() {
        Ok(acc)
    } else {
        match class_moved(classes[i as int], to) {
            Err(e) => Err(e),
            Ok(c) => classes_moved(classes, to, i + 1, acc.push(c)),
        }
    }
}

/// The prototype pool with the places of the parameter lists.
#[verifier::opaque]
pub open spec fn linked_protos(protos: Seq<ProtoIdItem>, lists: Link) -> Result<
    Seq<u8>,
    DexEmitError,
> {
    match protos_moved(protos, lists, 0, Seq::empty()) {
        Err(e) => Err(e),
        Ok(moved) => Ok(proto_ids(moved, moved.len())),
    }
}

/// The class pool with the places of what the classes refer to.
#[verifier::opaque]
pub open spec fn linked_classes(classes: Seq<ClassDefItem>, to: Links) -> Result<
    Seq<u8>,
    DexEmitError,
> {
    match classes_moved(classes, to, 0, Seq::empty()) {
        Err(e) => Err(e),
        Ok(moved) => class_defs(moved, 0).result(),
    }
}

/// Where a section went, in executable form.
pub struct LinkRef<'a> {
    pub base: u32,
    pub remap: &'a BTreeMap<u32, u32>,
}

impl<'a> LinkRef<'a> {
    pub open spec fn link(self) -> Link {
        Link { base: self.base, remap: self.remap@ }
    }
}

/// The prototype pool with the places of the parameter lists.
pub fn emit_linked_protos(protos: &[ProtoIdItem], lists: &LinkRef) -> (r: Result<
    Vec<u8>,
    DexEmitError,
>)
    ensures
        gives(r, linked_protos(protos@, lists.link())),
{
    proof {
        reveal(linked_protos);
    }
    let ghost whole = protos_moved(protos@, lists.link(), 0, Seq::empty());
    let mut moved: Vec<ProtoIdItem> = Vec::new();
    let mut i: usize = 0;
    while i < protos.len()
        invariant
            i <= protos@.len(),
            whole == protos_moved(protos@, lists.link(), 0, Seq::empty()),
            whole == protos_moved(protos@, lists.link(), i as nat, moved@),
        decreases protos@.len() - i,
    {
        proof {
            reveal(linked_protos);
        }
        let p: ProtoIdItem = protos[i];
        let parameters_off: u32 = resolve(
            p.parameters_off,
            lists.base,
            lists.remap,
            "proto.parameters_off references type_list not in DexFile.type_lists",
            "proto.parameters_off",
            "remapped type_list offset exceeds u32",
        )?;
        moved.push(
            ProtoIdItem {
                shorty_idx: p.shorty_idx,
                return_type_idx: p.return_type_idx,
                parameters_off,
            },
        );
        i = i + 1;
    }
    Ok(emit_proto_pool(moved.as_slice()))
}

/// The class pool with the places of what the classes refer to.
pub fn emit_linked_classes(
    classes: &[ClassDefItem],
    lists: &LinkRef,
    datas: &LinkRef,
    directories: &LinkRef,
    arrays: &LinkRef,
) -> (r: Result<Vec<u8>, DexEmitError>)
    ensures
        gives(
            r,
            linked_classes(
                classes@,
                (Links {
                    lists: lists.link(),
                    classes: datas.link(),
                    directories: directories.link(),
                    arrays: arrays.link(),
                }),
            ),
        ),
{
    let ghost to = Links {
        lists: lists.link(),
        classes: datas.link(),
        directories: directories.link(),
        arrays: arrays.link(),
    };
    proof {
        reveal(linked_classes);
    }
    let ghost whole = classes_moved(classes@, to, 0, Seq::empty());
    let mut moved: Vec<ClassDefItem> = Vec::new();
    let mut i: usize = 0;
    while i < classes.len()
        invariant
            i <= classes@.len(),
            to == (Links {
                lists: lists.link(),
                classes: datas.link(),
                directories: directories.link(),
                arrays: arrays.link(),
            }),
            whole == classes_moved(classes@, to, 0, Seq::empty()),
            whole == classes_moved(classes@, to, i as nat, moved@),
        decreases classes@.len() - i,
    {
        proof {
            reveal(linked_classes);
        }
        let c: ClassDefItem = classes[i];
        let interfaces_off: u32 = resolve(
            c.interfaces_off,
            lists.base,
            lists.remap,
            "class.interfaces_off references type_list not in DexFile.type_lists",
            "class.interfaces_off",
            "remapped interfaces offset exceeds u32",
        )?;
        let class_data_off: u32 = resolve(
            c.class_data_off,
            datas.base,
            datas.remap,
            "class.class_data_off references class_data not in DexFile.class_datas",
            "class.class_data_off",
            "remapped class_data offset exceeds u32",
        )?;
        let annotations_off: u32 = resolve(
            c.annotations_off,
            directories.base,
            directories.remap,
            "class.annotations_off references annotation_directory not in DexFile.annotations",
            "class.annotations_off",
            "remapped annotation_directory offset exceeds u32",
        )?;
        let static_values_off: u32 = resolve(
            c.static_values_off,
            arrays.base,
            arrays.remap,
            "class.static_values_off references encoded_array not in DexFile.encoded_arrays",
            "class.static_values_off",
            "remapped encoded_array offset exceeds u32",
        )?;
        moved.push(
            ClassDefItem {
                class_idx: c.class_idx,
                access_flags: c.access_flags,
                superclass_idx: c.superclass_idx,
                interfaces_off,
                source_file_idx: c.source_file_idx,
                annotations_off,
                class_data_off,
                static_values_off,
            },
        );
        i = i + 1;
    }
    emit_class_def_pool(moved.as_slice())
}

} // verus!
