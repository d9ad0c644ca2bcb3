//! The members of a class.
use vstd::prelude::*;

use crate::decode::{EncodedField, EncodedMethod};
use crate::emit_dex::error::DexEmitError;
use crate::emit_dex::written::{done, failed, gives, remains, unrepresentable, Written};
use crate::leb128::{uleb, write_uleb128};

verus! {

/// An index as its distance from the one before it; the first stands for itself.
/// Indices must ascend strictly.
pub open spec fn index_step(idx: u32, prev: Option<u32>, why: &'static str) -> Written {
    match prev {
        None => done(uleb(idx as nat)),
        Some(p) => if idx > p {
            done(uleb((idx - p) as nat))
        } else {
            unrepresentable(why)
        },
    }
}

/// The index of the field before position `i`.
pub open spec fn prev_field(fields: Seq<EncodedField>, i: nat) -> Option<u32> {
    if i == 0 {
        None
    } else {
        Some(fields[i - 1].field_idx.0)
    }
}

/// The index of the method before position `i`.
pub open spec fn prev_method(methods: Seq<EncodedMethod>, i: nat) -> Option<u32> {
    if i == 0 {
        None
    } else {
        Some(methods[i - 1].method_idx.0)
    }
}

/// The fields from position `i` on.
pub open spec fn field_list(fields: Seq<EncodedField>, i: nat) -> Written
    decreases fields.len() - i,
{
    if i >= fields.len() {
        done(Seq::empty())
    } else {
        let f = fields[i as int];
        index_step(
            f.field_idx.0,
            prev_field(fields, i),
            "class_data_item: encoded_field list must be strictly ascending by field_idx (DEX §7.14)",
        ).and(done(uleb(f.access_flags as nat))).and(field_list(fields, i + 1))
    }
}

/// The methods from position `i` on.
pub open spec fn method_list(methods: Seq<EncodedMethod>, i: nat) -> Written
    decreases methods.len() - i,
{
    if i >= methods.len() {
        done(Seq::empty())
    } else {
        let m = methods[i as int];
        index_step(
            m.method_idx.0,
            prev_method(methods, i),
            "class_data_item: encoded_method list must be strictly ascending by method_idx (DEX §7.15)",
        ).and(done(uleb(m.access_flags as nat) + uleb(m.code_off as nat))).and(
            method_list(methods, i + 1),
        )
    }
}

/// A length that must fit in 32 bits.
pub open spec fn member_count(n: nat, context: &'static str) -> Option<DexEmitError> {
    if n > u32::MAX {
        Some(DexEmitError::SizeOverflow { layer: "class_data_item", context })
    } else {
        None
    }
}

/// The members of a class: four lengths, then the four lists, each with its own
/// run of index distances.
pub open spec fn class_data(
    static_fields: Seq<EncodedField>,
    instance_fields: Seq<EncodedField>,
    direct_methods: Seq<EncodedMethod>,
    virtual_methods: Seq<EncodedMethod>,
) -> Written {
    match member_count(static_fields.len(), "static_fields_size exceeds u32") {
        Some(e) => failed(e),
        None => match member_count(instance_fields.len(), "instance_fields_size exceeds u32") {
            Some(e) => failed(e),
            None => match member_count(direct_methods.len(), "direct_methods_size exceeds u32") {
                Some(e) => failed(e),
                None => match member_count(
                    virtual_methods.len(),
                    "virtual_methods_size exceeds u32",
                ) {
                    Some(e) => failed(e),
                    None => done(
                        uleb(static_fields.len()) + uleb(instance_fields.len()) + uleb(
                            direct_methods.len(),
                        ) + uleb(virtual_methods.len()),
                    ).and(field_list(static_fields, 0)).and(field_list(instance_fields, 0)).and(
                        method_list(direct_methods, 0),
                    ).and(method_list(virtual_methods, 0)),
                },
            },
        },
    }
}

fn write_index_step(out: &mut Vec<u8>, idx: u32, prev: Option<u32>, why: &'static str) -> (r: Result<
    (),
    DexEmitError,
>)
    ensures
        index_step(idx, prev, why).appends(old(out)@, final(out)@, r),
{
    let diff: u32 = match prev {
        None => idx,
        Some(p) => {
            if idx <= p {
                assert(out@ =~= old(out)@ + Seq::<u8>::empty());
                return Err(DexEmitError::UnrepresentableIR { why });
            }
            idx - p
        },
    };
    write_uleb128(out, diff);
    Ok(())
}

fn emit_encoded_field_list(out: &mut Vec<u8>, fields: &[EncodedField]) -> (r: Result<
    (),
    DexEmitError,
>)
    ensures
        field_list(fields@, 0).appends(old(out)@, final(out)@, r),
{
    let ghost whole = field_list(fields@, 0);
    let mut prev: Option<u32> = None;
    let mut i: usize = 0;
    while i < fields.len()
        invariant
            i <= fields@.len(),
            prev == prev_field(fields@, i as nat),
            whole == field_list(fields@, 0),
            remains(old(out)@, whole, out@, field_list(fields@, i as nat)),
        decreases fields@.len() - i,
    {
        let f: EncodedField = fields[i];
        write_index_step(
            out,
            f.field_idx.0,
            prev,
            "class_data_item: encoded_field list must be strictly ascending by field_idx (DEX §7.14)",
        )?;
        write_uleb128(out, f.access_flags);
        prev = Some(f.field_idx.0);
        i = i + 1;
    }
    Ok(())
}

fn emit_encoded_method_list(out: &mut Vec<u8>, methods: &[EncodedMethod]) -> (r: Result<
    (),
    DexEmitError,
>)
    ensures
        method_list(methods@, 0).appends(old(out)@, final(out)@, r),
{
    let ghost whole = method_list(methods@, 0);
    let mut prev: Option<u32> = None;
    let mut i: usize = 0;
    while i < methods.len()
        invariant
            i <= methods@.len(),
            prev == prev_method(methods@, i as nat),
            whole == method_list(methods@, 0),
            remains(old(out)@, whole, out@, method_list(methods@, i as nat)),
        decreases methods@.len() - i,
    {
        let m: EncodedMethod = methods[i];
        write_index_step(
            out,
            m.method_idx.0,
            prev,
            "class_data_item: encoded_method list must be strictly ascending by method_idx (DEX §7.15)",
        )?;
        write_uleb128(out, m.access_flags);
        write_uleb128(out, m.code_off);
        prev = Some(m.method_idx.0);
        i = i + 1;
    }
    Ok(())
}

/// The members of a class. Each list must ascend strictly by index.
pub fn emit_class_data_item(
    static_fields: &[EncodedField],
    instance_fields: &[EncodedField],
    direct_methods: &[EncodedMethod],
    virtual_methods: &[EncodedMethod],
) -> (r: Result<Vec<u8>, DexEmitError>)
    ensures
        gives(
            r,
            class_data(
                static_fields@,
                instance_fields@,
                direct_methods@,
                virtual_methods@,
            ).result(),
        ),
{
    if static_fields.len() > u32::MAX as usize {
        return Err(
            DexEmitError::SizeOverflow {
                layer: "class_data_item",
                context: "static_fields_size exceeds u32",
            },
        );
    }
    if instance_fields.len() > u32::MAX as usize {
        return Err(
            DexEmitError::SizeOverflow {
                layer: "class_data_item",
                context: "instance_fields_size exceeds u32",
            },
        );
    }
    if direct_methods.len() > u32::MAX as usize {
        return Err(
            DexEmitError::SizeOverflow {
                layer: "class_data_item",
                context: "direct_methods_size exceeds u32",
            },
        );
    }
    if virtual_methods.len() > u32::MAX as usize {
        return Err(
            DexEmitError::SizeOverflow {
                layer: "class_data_item",
                context: "virtual_methods_size exceeds u32",
            },
        );
    }
    let mut out: Vec<u8> = Vec::new();
    write_uleb128(&mut out, static_fields.len() as u32);
    write_uleb128(&mut out, instance_fields.len() as u32);
    write_uleb128(&mut out, direct_methods.len() as u32);
    write_uleb128(&mut out, virtual_methods.len() as u32);
    emit_encoded_field_list(&mut out, static_fields)?;
    emit_encoded_field_list(&mut out, instance_fields)?;
    emit_encoded_method_list(&mut out, direct_methods)?;
    emit_encoded_method_list(&mut out, virtual_methods)?;
    assert(out@ =~= class_data(
        static_fields@,
        instance_fields@,
        direct_methods@,
        virtual_methods@,
    ).bytes);
    Ok(out)
}

} // verus!
