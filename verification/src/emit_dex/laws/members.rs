//! The members of a class read back.
use vstd::prelude::*;

use crate::decode::{EncodedField, EncodedMethod};
use crate::emit_dex::class_data::{class_data, field_list, method_list, prev_field, prev_method};
use crate::ids::{FieldIdx, MethodIdx};
use crate::leb128::{uleb, uleb_read, uleb_reads_back};

verus! {

/// The number that starts `s`, and what follows it.
pub open spec fn next_number(s: Seq<u8>) -> Option<(nat, Seq<u8>)> {
    match uleb_read(s) {
        None => None,
        Some((v, n)) => Some((v, s.skip(n as int))),
    }
}

/// A number is followed by what was written behind it.
pub proof fn number_then_rest(v: nat, rest: Seq<u8>)
    ensures
        next_number(uleb(v) + rest) == Some((v, rest)),
{
    uleb_reads_back(v, rest);
    assert((uleb(v) + rest).skip(uleb(v).len() as int) =~= rest);
}

/// The `n` fields that start `s`, where the index before them is `prev`, and what
/// follows them.
pub open spec fn fields_read(s: Seq<u8>, n: nat, prev: nat) -> Option<(Seq<EncodedField>, Seq<u8>)>
    decreases n,
{
    if n == 0 {
        Some((Seq::empty(), s))
    } else {
        match next_number(s) {
            None => None,
            Some((step, s)) => match next_number(s) {
                None => None,
                Some((flags, s)) => match fields_read(s, (n - 1) as nat, prev + step) {
                    None => None,
                    Some((more, s)) => Some(
                        (
                            seq![
                                EncodedField {
                                    field_idx: FieldIdx((prev + step) as u32),
                                    access_flags: flags as u32,
                                },
                            ] + more,
                            s,
                        ),
                    ),
                },
            },
        }
    }
}

/// The `n` methods that start `s`, where the index before them is `prev`, and what
/// follows them.
pub open spec fn methods_read(s: Seq<u8>, n: nat, prev: nat) -> Option<
    (Seq<EncodedMethod>, Seq<u8>),
>
    decreases n,
{
    if n == 0 {
        Some((Seq::empty(), s))
    } else {
        match next_number(s) {
            None => None,
            Some((step, s)) => match next_number(s) {
                None => None,
                Some((flags, s)) => match next_number(s) {
                    None => None,
                    Some((code_off, s)) => match methods_read(s, (n - 1) as nat, prev + step) {
                        None => None,
                        Some((more, s)) => Some(
                            (
                                seq![
                                    EncodedMethod {
                                        method_idx: MethodIdx((prev + step) as u32),
                                        access_flags: flags as u32,
                                        code_off: code_off as u32,
                                    },
                                ] + more,
                                s,
                            ),
                        ),
                    },
                },
            },
        }
    }
}

/// The index before position `i` of a list, 0 before its start.
spec fn base_of(prev: Option<u32>) -> nat {
    match prev {
        None => 0,
        Some(p) => p as nat,
    }
}

proof fn lemma_fields_read(fields: Seq<EncodedField>, i: nat, rest: Seq<u8>)
    requires
        i <= fields.len(),
        field_list(fields, i).fault is None,
    ensures
        fields_read(
            field_list(fields, i).bytes + rest,
            (fields.len() - i) as nat,
            base_of(prev_field(fields, i)),
        ) == Some((fields.skip(i as int), rest)),
    decreases fields.len() - i,
{
    let s = field_list(fields, i).bytes + rest;
    if i == fields.len() {
        assert(s =~= rest);
        assert(fields.skip(i as int) =~= Seq::empty());
    } else {
        let f = fields[i as int];
        let prev = base_of(prev_field(fields, i));
        let step = (f.field_idx.0 - prev) as nat;
        let more = field_list(fields, i + 1).bytes + rest;
        lemma_fields_read(fields, i + 1, rest);
        assert(s =~= uleb(step) + (uleb(f.access_flags as nat) + more));
        number_then_rest(step, uleb(f.access_flags as nat) + more);
        number_then_rest(f.access_flags as nat, more);
        assert(seq![f] + fields.skip((i + 1) as int) =~= fields.skip(i as int));
    }
}

proof fn lemma_methods_read(methods: Seq<EncodedMethod>, i: nat, rest: Seq<u8>)
    requires
        i <= methods.len(),
        method_list(methods, i).fault is None,
    ensures
        methods_read(
            method_list(methods, i).bytes + rest,
            (methods.len() - i) as nat,
            base_of(prev_method(methods, i)),
        ) == Some((methods.skip(i as int), rest)),
    decreases methods.len() - i,
{
    let s = method_list(methods, i).bytes + rest;
    if i == methods.len() {
        assert(s =~= rest);
        assert(methods.skip(i as int) =~= Seq::empty());
    } else {
        let m = methods[i as int];
        let prev = base_of(prev_method(methods, i));
        let step = (m.method_idx.0 - prev) as nat;
        let more = method_list(methods, i + 1).bytes + rest;
        lemma_methods_read(methods, i + 1, rest);
        let off = uleb(m.code_off as nat) + more;
        let flags = uleb(m.access_flags as nat) + off;
        assert(s =~= uleb(step) + flags);
        number_then_rest(step, flags);
        number_then_rest(m.access_flags as nat, off);
        number_then_rest(m.code_off as nat, more);
        assert(seq![m] + methods.skip((i + 1) as int) =~= methods.skip(i as int));
    }
}

/// The members of a class, as they are read.
#[verifier::ext_equal]
pub struct Members {
    pub static_fields: Seq<EncodedField>,
    pub instance_fields: Seq<EncodedField>,
    pub direct_methods: Seq<EncodedMethod>,
    pub virtual_methods: Seq<EncodedMethod>,
}

/// The four lengths that start `s`, and what follows them.
pub open spec fn lengths_read(s: Seq<u8>) -> Option<(nat, nat, nat, nat, Seq<u8>)> {
    match next_number(s) {
        None => None,
        Some((a, s)) => match next_number(s) {
            None => None,
            Some((b, s)) => match next_number(s) {
                None => None,
                Some((c, s)) => match next_number(s) {
                    None => None,
                    Some((d, s)) => Some((a, b, c, d, s)),
                },
            },
        },
    }
}

/// The members of a class that start `s`, and what follows them.
pub open spec fn members_read(s: Seq<u8>) -> Option<(Members, Seq<u8>)> {
    match lengths_read(s) {
        None => None,
        Some((a, b, c, d, s)) => match fields_read(s, a, 0) {
            None => None,
            Some((static_fields, s)) => match fields_read(s, b, 0) {
                None => None,
                Some((instance_fields, s)) => match methods_read(s, c, 0) {
                    None => None,
                    Some((direct_methods, s)) => match methods_read(s, d, 0) {
                        None => None,
                        Some((virtual_methods, s)) => Some(
                            (
                                Members {
                                    static_fields,
                                    instance_fields,
                                    direct_methods,
                                    virtual_methods,
                                },
                                s,
                            ),
                        ),
                    },
                },
            },
        },
    }
}

proof fn lemma_regroup(
    a: Seq<u8>,
    b: Seq<u8>,
    c: Seq<u8>,
    d: Seq<u8>,
    rest: Seq<u8>,
)
    ensures
        a + b + c + d + rest == a + (b + (c + (d + rest))),
{
    assert(a + b + c + d + rest =~= a + (b + (c + (d + rest))));
}

/// The members of a class read back, whatever follows them: the four lists with
/// their indices, flags and body offsets.
pub proof fn class_data_reads_back(
    static_fields: Seq<EncodedField>,
    instance_fields: Seq<EncodedField>,
    direct_methods: Seq<EncodedMethod>,
    virtual_methods: Seq<EncodedMethod>,
    rest: Seq<u8>,
)
    requires
        class_data(static_fields, instance_fields, direct_methods, virtual_methods).fault is None,
    ensures
        members_read(
            class_data(
                static_fields,
                instance_fields,
                direct_methods,
                virtual_methods,
            ).bytes + rest,
        ) == Some(
            (
                Members { static_fields, instance_fields, direct_methods, virtual_methods },
                rest,
            ),
        ),
{
    let whole = class_data(static_fields, instance_fields, direct_methods, virtual_methods);
    let s4 = method_list(virtual_methods, 0).bytes + rest;
    let s3 = method_list(direct_methods, 0).bytes + s4;
    let s2 = field_list(instance_fields, 0).bytes + s3;
    let s1 = field_list(static_fields, 0).bytes + s2;
    let d = uleb(virtual_methods.len()) + s1;
    let c = uleb(direct_methods.len()) + d;
    let b = uleb(instance_fields.len()) + c;
    let a = uleb(static_fields.len()) + b;
    let lens = uleb(static_fields.len()) + uleb(instance_fields.len()) + uleb(
        direct_methods.len(),
    ) + uleb(virtual_methods.len());
    lemma_regroup(
        lens + field_list(static_fields, 0).bytes,
        field_list(instance_fields, 0).bytes,
        method_list(direct_methods, 0).bytes,
        method_list(virtual_methods, 0).bytes,
        rest,
    );
    assert(lens + field_list(static_fields, 0).bytes + s2 =~= lens + s1);
    lemma_regroup(
        uleb(static_fields.len()),
        uleb(instance_fields.len()),
        uleb(direct_methods.len()),
        uleb(virtual_methods.len()),
        s1,
    );
    assert(whole.bytes + rest == a);
    number_then_rest(static_fields.len(), b);
    number_then_rest(instance_fields.len(), c);
    number_then_rest(direct_methods.len(), d);
    number_then_rest(virtual_methods.len(), s1);
    lemma_fields_read(static_fields, 0, s2);
    lemma_fields_read(instance_fields, 0, s3);
    lemma_methods_read(direct_methods, 0, s4);
    lemma_methods_read(virtual_methods, 0, rest);
    assert(static_fields.skip(0) =~= static_fields);
    assert(instance_fields.skip(0) =~= instance_fields);
    assert(direct_methods.skip(0) =~= direct_methods);
    assert(virtual_methods.skip(0) =~= virtual_methods);
}

} // verus!
