//! The id pools at the start of a file, and the lists they refer to.
use vstd::prelude::*;

use crate::bytes::{le16, le32, overlay, push_u16, push_u32, push_zeros, write_over, zeros};
use crate::dex_file::MethodHandleItem;
use crate::dex_string::DexString;
use crate::emit_dex::error::DexEmitError;
use crate::emit_dex::ordering::{NonDecreasing, OrderingViolation};
use crate::emit_dex::written::{done, gives, remains, unrepresentable, Written};
use crate::ids::{
    ClassDefItem, FieldIdItem, MethodIdItem, ProtoIdItem, StringIdx, TypeIdx,
};
use crate::leb128::{uleb, write_uleb128};
use crate::mutf8::{lex_le, push_cesu8_units, units_ordered, utf16_units};

verus! {

/// The index that means "none".
pub const NO_INDEX: u32 = 0xFFFF_FFFF;

/// A length as a 32-bit field holds it.
pub open spec fn low32(n: nat) -> u32 {
    (n % 0x1_0000_0000) as u32
}

/// The low 32 bits of a length.
pub fn len32(n: usize) -> (r: u32)
    ensures
        r == low32(n as nat),
{
    (n as u64 % 0x1_0000_0000) as u32
}

// Strings

/// The data of a string: its declared length, its bytes, a zero byte.
pub open spec fn string_item(declared: u32, bytes: Seq<u8>) -> Seq<u8> {
    uleb(declared as nat) + bytes + seq![0u8]
}

/// The declared length and the bytes of each string.
pub open spec fn contents(strings: Seq<(u32, &[u8])>) -> Seq<(u32, Seq<u8>)> {
    Seq::new(strings.len(), |i: int| (strings[i].0, strings[i].1@))
}

/// The data of the first `n` strings.
pub open spec fn string_data(strings: Seq<(u32, Seq<u8>)>, n: nat) -> Seq<u8>
    decreases n,
{
    if n == 0 {
        Seq::empty()
    } else {
        string_data(strings, (n - 1) as nat) + string_item(
            strings[n - 1].0,
            strings[n - 1].1,
        )
    }
}

/// For each of the first `n` strings, where its data starts within all data.
pub open spec fn string_ids(strings: Seq<(u32, Seq<u8>)>, n: nat) -> Seq<u8>
    decreases n,
{
    if n == 0 {
        Seq::empty()
    } else {
        string_ids(strings, (n - 1) as nat) + le32(
            low32(string_data(strings, (n - 1) as nat).len()),
        )
    }
}

/// The string pool: for each string the place of its data within all data, and
/// that data. Each string is a declared length and its bytes, taken as they are.
pub fn emit_string_pool(strings: &[(u32, &[u8])]) -> (r: (Vec<u8>, Vec<u8>))
    ensures
        r.0@ == string_ids(contents(strings@), strings@.len()),
        r.1@ == string_data(contents(strings@), strings@.len()),
{
    let mut id_items: Vec<u8> = Vec::new();
    let mut data_items: Vec<u8> = Vec::new();
    let mut i: usize = 0;
    while i < strings.len()
        invariant
            i <= strings@.len(),
            id_items@ == string_ids(contents(strings@), i as nat),
            data_items@ == string_data(contents(strings@), i as nat),
        decreases strings@.len() - i,
    {
        let entry: (u32, &[u8]) = strings[i];
        let ghost before = data_items@;
        push_u32(&mut id_items, len32(data_items.len()));
        write_uleb128(&mut data_items, entry.0);
        data_items.extend_from_slice(entry.1);
        data_items.push(0);
        assert(data_items@ =~= before + string_item(entry.0, entry.1@));
        i = i + 1;
    }
    (id_items, data_items)
}

/// Both parts of a string pool.
pub struct StringPool {
    pub ids: Seq<u8>,
    pub data: Seq<u8>,
}

/// The string pool with the data of each string from position `i` on put where it
/// was found, on top of what `acc` holds.
pub open spec fn strings_placed(
    strings: Seq<(u32, Seq<u8>)>,
    offs: Seq<u32>,
    base: u32,
    acc: StringPool,
    i: nat,
) -> Result<StringPool, DexEmitError>
    decreases strings.len() - i,
{
    if i >= strings.len() {
        Ok(acc)
    } else {
        let off = offs[i as int];
        let item = string_item(strings[i as int].0, strings[i as int].1);
        if off < base {
            Err(
                DexEmitError::UnrepresentableIR {
                    why: "emit_string_pool_preserve_layout: input string_data_off precedes section base",
                },
            )
        } else if off - base + item.len() > acc.data.len() {
            Err(
                DexEmitError::UnrepresentableIR {
                    why: "emit_string_pool_preserve_layout: string overruns preserved section size",
                },
            )
        } else {
            strings_placed(
                strings,
                offs,
                base,
                StringPool {
                    ids: acc.ids + le32(off),
                    data: overlay(acc.data, off - base, item),
                },
                i + 1,
            )
        }
    }
}

/// The string pool with the data of each string put where it was found, within a
/// section of `section_size` bytes that starts at `string_data_base`. Bytes that
/// belong to no string are zero.
pub open spec fn string_pool_placed(
    strings: Seq<(u32, Seq<u8>)>,
    offs: Seq<u32>,
    base: u32,
    size: u32,
) -> Result<StringPool, DexEmitError> {
    if strings.len() != offs.len() {
        Err(
            DexEmitError::UnrepresentableIR {
                why: "emit_string_pool_preserve_layout: strings and input_data_offs length mismatch",
            },
        )
    } else {
        strings_placed(
            strings,
            offs,
            base,
            StringPool { ids: Seq::empty(), data: zeros(size as nat) },
            0,
        )
    }
}

/// A function that returns a string pool returns that of `expected`, or its error.
pub open spec fn gives_pool(
    r: Result<(Vec<u8>, Vec<u8>), DexEmitError>,
    expected: Result<StringPool, DexEmitError>,
) -> bool {
    match expected {
        Ok(p) => r matches Ok(v) && v.0@ == p.ids && v.1@ == p.data,
        Err(e) => r == Err::<(Vec<u8>, Vec<u8>), DexEmitError>(e),
    }
}

/// The string pool with the data of each string put where it was found: the place
/// of each string is `input_data_offs`, and its data stands that far from
/// `string_data_base` in a section of `section_size` bytes.
pub fn emit_string_pool_preserve_layout(
    strings: &[(u32, &[u8])],
    input_data_offs: &[u32],
    string_data_base: u32,
    section_size: u32,
) -> (r: Result<(Vec<u8>, Vec<u8>), DexEmitError>)
    ensures
        gives_pool(
            r,
            string_pool_placed(contents(strings@), input_data_offs@, string_data_base, section_size),
        ),
{
    if strings.len() != input_data_offs.len() {
        return Err(
            DexEmitError::UnrepresentableIR {
                why: "emit_string_pool_preserve_layout: strings and input_data_offs length mismatch",
            },
        );
    }
    let mut id_items: Vec<u8> = Vec::new();
    let mut data_items: Vec<u8> = Vec::new();
    push_zeros(&mut data_items, section_size as usize);
    assert(data_items@ =~= zeros(section_size as nat));
    let ghost whole = string_pool_placed(
        contents(strings@),
        input_data_offs@,
        string_data_base,
        section_size,
    );
    let mut i: usize = 0;
    while i < strings.len()
        invariant
            i <= strings@.len() == input_data_offs@.len(),
            whole == string_pool_placed(
                contents(strings@),
                input_data_offs@,
                string_data_base,
                section_size,
            ),
            whole == strings_placed(
                contents(strings@),
                input_data_offs@,
                string_data_base,
                StringPool { ids: id_items@, data: data_items@ },
                i as nat,
            ),
        decreases strings@.len() - i,
    {
        let entry: (u32, &[u8]) = strings[i];
        let off: u32 = input_data_offs[i];
        if off < string_data_base {
            return Err(
                DexEmitError::UnrepresentableIR {
                    why: "emit_string_pool_preserve_layout: input string_data_off precedes section base",
                },
            );
        }
        let rel: usize = (off - string_data_base) as usize;
        let mut scratch: Vec<u8> = Vec::new();
        write_uleb128(&mut scratch, entry.0);
        scratch.extend_from_slice(entry.1);
        scratch.push(0);
        assert(scratch@ =~= string_item(entry.0, entry.1@));
        if rel > data_items.len() || scratch.len() > data_items.len() - rel {
            return Err(
                DexEmitError::UnrepresentableIR {
                    why: "emit_string_pool_preserve_layout: string overruns preserved section size",
                },
            );
        }
        push_u32(&mut id_items, off);
        write_over(data_items.as_mut_slice(), rel, scratch.as_slice());
        i = i + 1;
    }
    Ok((id_items, data_items))
}

/// The strings stand in the order of their UTF-16 code units, up to position `n`.
pub open spec fn pool_ordered(strings: Seq<DexString>, n: int) -> bool {
    forall|i: int|
        #![trigger strings[i]]
        0 < i < n ==> lex_le(strings[i - 1].sort_units(), strings[i].sort_units(), 0)
}

/// Whether the pool stands in UTF-16 order; the position of the first string that
/// comes before its predecessor if not.
pub fn verify_utf16_sorted(strings: &[DexString]) -> (r: Result<(), OrderingViolation>)
    ensures
        match r {
            Ok(_) => pool_ordered(strings@, strings@.len() as int),
            Err(e) => 0 < e.index < strings@.len() && pool_ordered(strings@, e.index as int)
                && !lex_le(
                strings@[e.index - 1].sort_units(),
                strings@[e.index as int].sort_units(),
                0,
            ),
        },
{
    let mut prev: Vec<u16> = Vec::new();
    let mut i: usize = 0;
    while i < strings.len()
        invariant
            i <= strings@.len(),
            pool_ordered(strings@, i as int),
            i > 0 ==> prev@ == strings@[i - 1].sort_units(),
        decreases strings@.len() - i,
    {
        let mut curr: Vec<u16> = Vec::new();
        match &strings[i] {
            DexString::Decoded { s, .. } => {
                curr = utf16_units(s.as_str());
            },
            DexString::MalformedMutf8 { raw_bytes, .. } => {
                push_cesu8_units(&mut curr, raw_bytes.as_slice());
            },
        }
        assert(curr@ =~= strings@[i as int].sort_units());
        if i > 0 && !units_ordered(&prev, &curr) {
            return Err(OrderingViolation { index: i });
        }
        prev = curr;
        i = i + 1;
    }
    Ok(())
}

// Types

/// The descriptor index of each of the first `n` types.
pub open spec fn type_ids(idxs: Seq<StringIdx>, n: nat) -> Seq<u8>
    decreases n,
{
    if n == 0 {
        Seq::empty()
    } else {
        type_ids(idxs, (n - 1) as nat) + le32(idxs[n - 1].0)
    }
}

/// The type pool.
pub fn emit_type_pool(type_descriptor_idxs: &NonDecreasing<StringIdx>) -> (r: Vec<u8>)
    ensures
        r@ == type_ids(type_descriptor_idxs@, type_descriptor_idxs@.len()),
{
    let idxs: &[StringIdx] = type_descriptor_idxs.as_slice();
    let mut out: Vec<u8> = Vec::new();
    let mut i: usize = 0;
    while i < idxs.len()
        invariant
            i <= idxs@.len(),
            out@ == type_ids(idxs@, i as nat),
        decreases idxs@.len() - i,
    {
        push_u32(&mut out, idxs[i].0);
        i = i + 1;
    }
    out
}

/// The entries of a type list from position `i` on.
pub open spec fn type_items(idxs: Seq<TypeIdx>, i: nat) -> Written
    decreases idxs.len() - i,
{
    if i >= idxs.len() {
        done(Seq::empty())
    } else {
        (if idxs[i as int].0 > 0xFFFF {
            unrepresentable(
                "type_list entry exceeds u16 type_id space (DEX §7.3 type_item is u16)",
            )
        } else {
            done(le16(idxs[i as int].0 as u16))
        }).and(type_items(idxs, i + 1))
    }
}

/// A type list: its length in 32 bits, its entries in 16 bits each.
pub open spec fn type_list(idxs: Seq<TypeIdx>) -> Written {
    done(le32(low32(idxs.len()))).and(type_items(idxs, 0))
}

/// A type list. Type indices above 65535 cannot be expressed.
pub fn emit_type_list(type_idxs: &[TypeIdx]) -> (r: Result<Vec<u8>, DexEmitError>)
    ensures
        gives(r, type_list(type_idxs@).result()),
{
    let ghost whole = type_list(type_idxs@);
    let mut out: Vec<u8> = Vec::new();
    push_u32(&mut out, len32(type_idxs.len()));
    let mut i: usize = 0;
    while i < type_idxs.len()
        invariant
            i <= type_idxs@.len(),
            whole == type_list(type_idxs@),
            remains(Seq::empty(), whole, out@, type_items(type_idxs@, i as nat)),
        decreases type_idxs@.len() - i,
    {
        let t: TypeIdx = type_idxs[i];
        if t.0 > 0xFFFF {
            return Err(
                DexEmitError::UnrepresentableIR {
                    why: "type_list entry exceeds u16 type_id space (DEX §7.3 type_item is u16)",
                },
            );
        }
        push_u16(&mut out, t.0 as u16);
        i = i + 1;
    }
    assert(out@ =~= whole.bytes);
    Ok(out)
}

// Prototypes, fields, methods

/// A prototype: shorty, return type, parameter list offset.
pub open spec fn proto_item(p: ProtoIdItem) -> Seq<u8> {
    le32(p.shorty_idx.0) + le32(p.return_type_idx.0) + le32(p.parameters_off)
}

/// The first `n` prototypes.
pub open spec fn proto_ids(protos: Seq<ProtoIdItem>, n: nat) -> Seq<u8>
    decreases n,
{
    if n == 0 {
        Seq::empty()
    } else {
        proto_ids(protos, (n - 1) as nat) + proto_item(protos[n - 1])
    }
}

/// The prototype pool, in the order given.
pub fn emit_proto_pool(protos: &[ProtoIdItem]) -> (r: Vec<u8>)
    ensures
        r@ == proto_ids(protos@, protos@.len()),
{
    let mut out: Vec<u8> = Vec::new();
    let mut i: usize = 0;
    while i < protos.len()
        invariant
            i <= protos@.len(),
            out@ == proto_ids(protos@, i as nat),
        decreases protos@.len() - i,
    {
        let p: ProtoIdItem = protos[i];
        let ghost before = out@;
        push_u32(&mut out, p.shorty_idx.0);
        push_u32(&mut out, p.return_type_idx.0);
        push_u32(&mut out, p.parameters_off);
        assert(out@ =~= before + proto_item(p));
        i = i + 1;
    }
    out
}

/// A field reference: class and type in 16 bits each, name in 32.
pub open spec fn field_item(f: FieldIdItem) -> Written {
    if f.class_idx.0 > 0xFFFF {
        unrepresentable("field_id_item.class_idx exceeds u16 type_id space (DEX §7.8)")
    } else if f.type_idx.0 > 0xFFFF {
        unrepresentable("field_id_item.type_idx exceeds u16 type_id space (DEX §7.8)")
    } else {
        done(le16(f.class_idx.0 as u16) + le16(f.type_idx.0 as u16) + le32(f.name_idx.0))
    }
}

/// The field references from position `i` on.
pub open spec fn field_ids(fields: Seq<FieldIdItem>, i: nat) -> Written
    decreases fields.len() - i,
{
    if i >= fields.len() {
        done(Seq::empty())
    } else {
        field_item(fields[i as int]).and(field_ids(fields, i + 1))
    }
}

/// The field pool, in the order given.
pub fn emit_field_pool(fields: &[FieldIdItem]) -> (r: Result<Vec<u8>, DexEmitError>)
    ensures
        gives(r, field_ids(fields@, 0).result()),
{
    let ghost whole = field_ids(fields@, 0);
    let mut out: Vec<u8> = Vec::new();
    let mut i: usize = 0;
    while i < fields.len()
        invariant
            i <= fields@.len(),
            whole == field_ids(fields@, 0),
            remains(Seq::empty(), whole, out@, field_ids(fields@, i as nat)),
        decreases fields@.len() - i,
    {
        let f: FieldIdItem = fields[i];
        if f.class_idx.0 > 0xFFFF {
            return Err(
                DexEmitError::UnrepresentableIR {
                    why: "field_id_item.class_idx exceeds u16 type_id space (DEX §7.8)",
                },
            );
        }
        if f.type_idx.0 > 0xFFFF {
            return Err(
                DexEmitError::UnrepresentableIR {
                    why: "field_id_item.type_idx exceeds u16 type_id space (DEX §7.8)",
                },
            );
        }
        push_u16(&mut out, f.class_idx.0 as u16);
        push_u16(&mut out, f.type_idx.0 as u16);
        push_u32(&mut out, f.name_idx.0);
        i = i + 1;
    }
    assert(out@ =~= whole.bytes);
    Ok(out)
}

/// A method reference: class and prototype in 16 bits each, name in 32.
pub open spec fn method_item(m: MethodIdItem) -> Written {
    if m.class_idx.0 > 0xFFFF {
        unrepresentable("method_id_item.class_idx exceeds u16 type_id space (DEX §7.9)")
    } else if m.proto_idx.0 > 0xFFFF {
        unrepresentable("method_id_item.proto_idx exceeds u16 proto_id space (DEX §7.9)")
    } else {
        done(le16(m.class_idx.0 as u16) + le16(m.proto_idx.0 as u16) + le32(m.name_idx.0))
    }
}

/// The method references from position `i` on.
pub open spec fn method_ids(methods: Seq<MethodIdItem>, i: nat) -> Written
    decreases methods.len() - i,
{
    if i >= methods.len() {
        done(Seq::empty())
    } else {
        method_item(methods[i as int]).and(method_ids(methods, i + 1))
    }
}

/// The method pool, in the order given.
pub fn emit_method_pool(methods: &[MethodIdItem]) -> (r: Result<Vec<u8>, DexEmitError>)
    ensures
        gives(r, method_ids(methods@, 0).result()),
{
    let ghost whole = method_ids(methods@, 0);
    let mut out: Vec<u8> = Vec::new();
    let mut i: usize = 0;
    while i < methods.len()
        invariant
            i <= methods@.len(),
            whole == method_ids(methods@, 0),
            remains(Seq::empty(), whole, out@, method_ids(methods@, i as nat)),
        decreases methods@.len() - i,
    {
        let m: MethodIdItem = methods[i];
        if m.class_idx.0 > 0xFFFF {
            return Err(
                DexEmitError::UnrepresentableIR {
                    why: "method_id_item.class_idx exceeds u16 type_id space (DEX §7.9)",
                },
            );
        }
        if m.proto_idx.0 > 0xFFFF {
            return Err(
                DexEmitError::UnrepresentableIR {
                    why: "method_id_item.proto_idx exceeds u16 proto_id space (DEX §7.9)",
                },
            );
        }
        push_u16(&mut out, m.class_idx.0 as u16);
        push_u16(&mut out, m.proto_idx.0 as u16);
        push_u32(&mut out, m.name_idx.0);
        i = i + 1;
    }
    assert(out@ =~= whole.bytes);
    Ok(out)
}

// Classes

/// An optional type index; [`NO_INDEX`] for none.
pub open spec fn type_or_none(t: Option<TypeIdx>) -> u32 {
    match t {
        Some(x) => x.0,
        None => NO_INDEX,
    }
}

/// An optional string index; [`NO_INDEX`] for none.
pub open spec fn string_or_none(t: Option<StringIdx>) -> u32 {
    match t {
        Some(x) => x.0,
        None => NO_INDEX,
    }
}

/// A class definition: eight 32-bit fields. An index equal to [`NO_INDEX`] could
/// not be told from an absent one.
pub open spec fn class_item(c: ClassDefItem) -> Written {
    if c.class_idx.0 == NO_INDEX {
        unrepresentable(
            "class_def_item.class_idx collides with NO_INDEX sentinel (DEX §7.10)",
        )
    } else if c.superclass_idx == Some(TypeIdx(NO_INDEX)) {
        unrepresentable(
            "class_def.superclass_idx = Some(TypeIdx(NO_INDEX)) collides with None sentinel",
        )
    } else if c.source_file_idx == Some(StringIdx(NO_INDEX)) {
        unrepresentable(
            "class_def.source_file_idx = Some(StringIdx(NO_INDEX)) collides with None sentinel",
        )
    } else {
        done(class_fields(c))
    }
}

/// The eight fields of a class definition.
pub open spec fn class_fields(c: ClassDefItem) -> Seq<u8> {
    le32(c.class_idx.0) + le32(c.access_flags) + le32(type_or_none(c.superclass_idx)) + le32(
        c.interfaces_off,
    ) + le32(string_or_none(c.source_file_idx)) + le32(c.annotations_off) + le32(c.class_data_off)
        + le32(c.static_values_off)
}

/// The class definitions from position `i` on.
pub open spec fn class_defs(classes: Seq<ClassDefItem>, i: nat) -> Written
    decreases classes.len() - i,
{
    if i >= classes.len() {
        done(Seq::empty())
    } else {
        class_item(classes[i as int]).and(class_defs(classes, i + 1))
    }
}

/// The class definitions, in the order given.
pub fn emit_class_def_pool(classes: &[ClassDefItem]) -> (r: Result<Vec<u8>, DexEmitError>)
    ensures
        gives(r, class_defs(classes@, 0).result()),
{
    let ghost whole = class_defs(classes@, 0);
    let mut out: Vec<u8> = Vec::new();
    let mut i: usize = 0;
    while i < classes.len()
        invariant
            i <= classes@.len(),
            whole == class_defs(classes@, 0),
            remains(Seq::empty(), whole, out@, class_defs(classes@, i as nat)),
        decreases classes@.len() - i,
    {
        let c: ClassDefItem = classes[i];
        let ghost before = out@;
        if c.class_idx.0 == NO_INDEX {
            return Err(
                DexEmitError::UnrepresentableIR {
                    why: "class_def_item.class_idx collides with NO_INDEX sentinel (DEX §7.10)",
                },
            );
        }
        let superclass: u32 = match c.superclass_idx {
            Some(t) => {
                if t.0 == NO_INDEX {
                    return Err(
                        DexEmitError::UnrepresentableIR {
                            why: "class_def.superclass_idx = Some(TypeIdx(NO_INDEX)) collides with None sentinel",
                        },
                    );
                }
                t.0
            },
            None => NO_INDEX,
        };
        let source_file: u32 = match c.source_file_idx {
            Some(s) => {
                if s.0 == NO_INDEX {
                    return Err(
                        DexEmitError::UnrepresentableIR {
                            why: "class_def.source_file_idx = Some(StringIdx(NO_INDEX)) collides with None sentinel",
                        },
                    );
                }
                s.0
            },
            None => NO_INDEX,
        };
        push_u32(&mut out, c.class_idx.0);
        push_u32(&mut out, c.access_flags);
        push_u32(&mut out, superclass);
        push_u32(&mut out, c.interfaces_off);
        push_u32(&mut out, source_file);
        push_u32(&mut out, c.annotations_off);
        push_u32(&mut out, c.class_data_off);
        push_u32(&mut out, c.static_values_off);
        assert(out@ =~= before + class_fields(c));
        i = i + 1;
    }
    assert(out@ =~= whole.bytes);
    Ok(out)
}

// Call sites and method handles

/// The first `n` numbers, in 32 bits each.
pub open spec fn words(v: Seq<u32>, n: nat) -> Seq<u8>
    decreases n,
{
    if n == 0 {
        Seq::empty()
    } else {
        words(v, (n - 1) as nat) + le32(v[n - 1])
    }
}

/// Appends the numbers in 32 bits each.
pub fn push_words(out: &mut Vec<u8>, v: &[u32])
    ensures
        final(out)@ == old(out)@ + words(v@, v@.len()),
{
    let mut i: usize = 0;
    while i < v.len()
        invariant
            i <= v@.len(),
            out@ =~= old(out)@ + words(v@, i as nat),
        decreases v@.len() - i,
    {
        push_u32(out, v[i]);
        i = i + 1;
    }
}

/// The call-site pool: the offset of the encoded array of each call site.
pub fn emit_call_site_id_section(absolute_offsets: &[u32]) -> (r: Result<Vec<u8>, DexEmitError>)
    ensures
        gives(r, Ok(words(absolute_offsets@, absolute_offsets@.len()))),
{
    let mut out: Vec<u8> = Vec::new();
    push_words(&mut out, absolute_offsets);
    assert(out@ =~= words(absolute_offsets@, absolute_offsets@.len()));
    Ok(out)
}

/// A method handle: kind and member index, each followed by two zero bytes.
pub open spec fn handle_item(h: MethodHandleItem) -> Seq<u8> {
    le16(h.kind) + le16(0) + le16(h.field_or_method_id) + le16(0)
}

/// The first `n` method handles.
pub open spec fn method_handles(handles: Seq<MethodHandleItem>, n: nat) -> Seq<u8>
    decreases n,
{
    if n == 0 {
        Seq::empty()
    } else {
        method_handles(handles, (n - 1) as nat) + handle_item(handles[n - 1])
    }
}

/// Appends the method handles.
pub fn push_method_handles(out: &mut Vec<u8>, handles: &[MethodHandleItem])
    ensures
        final(out)@ == old(out)@ + method_handles(handles@, handles@.len()),
{
    let mut i: usize = 0;
    while i < handles.len()
        invariant
            i <= handles@.len(),
            out@ =~= old(out)@ + method_handles(handles@, i as nat),
        decreases handles@.len() - i,
    {
        let h: MethodHandleItem = handles[i];
        push_u16(out, h.kind);
        push_u16(out, 0);
        push_u16(out, h.field_or_method_id);
        push_u16(out, 0);
        i = i + 1;
        assert(out@ =~= old(out)@ + method_handles(handles@, i as nat));
    }
}

/// The method-handle pool.
pub fn emit_method_handle_section(handles: &[MethodHandleItem]) -> (r: Result<
    Vec<u8>,
    DexEmitError,
>)
    ensures
        gives(r, Ok(method_handles(handles@, handles@.len()))),
{
    let mut out: Vec<u8> = Vec::new();
    push_method_handles(&mut out, handles);
    assert(out@ =~= method_handles(handles@, handles@.len()));
    Ok(out)
}

// Sizes

/// The string pool has four bytes for each string, whether its data is laid out
/// anew or in place.
pub proof fn string_ids_len(strings: Seq<(u32, Seq<u8>)>, n: nat)
    ensures
        string_ids(strings, n).len() == 4 * n,
    decreases n,
{
    if n > 0 {
        string_ids_len(strings, (n - 1) as nat);
    }
}

/// The string pool in place has four bytes for each string.
pub proof fn placed_ids_len(
    strings: Seq<(u32, Seq<u8>)>,
    offs: Seq<u32>,
    base: u32,
    acc: StringPool,
    i: nat,
)
    requires
        i <= strings.len(),
    ensures
        strings_placed(strings, offs, base, acc, i) matches Ok(p) ==> p.ids.len() == acc.ids.len()
            + 4 * (strings.len() - i) && p.data.len() == acc.data.len(),
    decreases strings.len() - i,
{
    if i < strings.len() {
        let off = offs[i as int];
        let item = string_item(strings[i as int].0, strings[i as int].1);
        if off >= base && off - base + item.len() <= acc.data.len() {
            placed_ids_len(
                strings,
                offs,
                base,
                StringPool {
                    ids: acc.ids + le32(off),
                    data: overlay(acc.data, off - base, item),
                },
                i + 1,
            );
        }
    }
}

/// The type pool has four bytes for each type.
pub proof fn type_ids_len(idxs: Seq<StringIdx>, n: nat)
    ensures
        type_ids(idxs, n).len() == 4 * n,
    decreases n,
{
    if n > 0 {
        type_ids_len(idxs, (n - 1) as nat);
    }
}

/// The prototype pool has twelve bytes for each prototype.
pub proof fn proto_ids_len(protos: Seq<ProtoIdItem>, n: nat)
    ensures
        proto_ids(protos, n).len() == 12 * n,
    decreases n,
{
    if n > 0 {
        proto_ids_len(protos, (n - 1) as nat);
    }
}

/// The field pool has eight bytes for each field.
pub proof fn field_ids_len(fields: Seq<FieldIdItem>, i: nat)
    requires
        i <= fields.len(),
        field_ids(fields, i).fault is None,
    ensures
        field_ids(fields, i).bytes.len() == 8 * (fields.len() - i),
    decreases fields.len() - i,
{
    if i < fields.len() {
        field_ids_len(fields, i + 1);
    }
}

/// The method pool has eight bytes for each method.
pub proof fn method_ids_len(methods: Seq<MethodIdItem>, i: nat)
    requires
        i <= methods.len(),
        method_ids(methods, i).fault is None,
    ensures
        method_ids(methods, i).bytes.len() == 8 * (methods.len() - i),
    decreases methods.len() - i,
{
    if i < methods.len() {
        method_ids_len(methods, i + 1);
    }
}

/// The class pool has thirty-two bytes for each class.
pub proof fn class_defs_len(classes: Seq<ClassDefItem>, i: nat)
    requires
        i <= classes.len(),
        class_defs(classes, i).fault is None,
    ensures
        class_defs(classes, i).bytes.len() == 32 * (classes.len() - i),
    decreases classes.len() - i,
{
    if i < classes.len() {
        class_defs_len(classes, i + 1);
    }
}

/// The call-site pool has four bytes for each call site.
pub proof fn words_len(v: Seq<u32>, n: nat)
    ensures
        words(v, n).len() == 4 * n,
    decreases n,
{
    if n > 0 {
        words_len(v, (n - 1) as nat);
    }
}

/// The method-handle pool has eight bytes for each handle.
pub proof fn method_handles_len(handles: Seq<MethodHandleItem>, n: nat)
    ensures
        method_handles(handles, n).len() == 8 * n,
    decreases n,
{
    if n > 0 {
        method_handles_len(handles, (n - 1) as nat);
    }
}

} // verus!
