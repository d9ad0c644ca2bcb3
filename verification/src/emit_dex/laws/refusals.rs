//! When the class-member section is refused, and what it holds when it is not.
use vstd::prelude::*;

use crate::collections::{sorted_keys, sorted_keys_list};
use crate::decode::{ClassData, EncodedField, EncodedMethod};
use crate::emit_dex::class_data::{class_data, field_list, method_list};
use crate::emit_dex::error::DexEmitError;
use crate::emit_dex::laws::members::{class_data_reads_back, members_read, Members};
use crate::emit_dex::laws::sections::class_members_are_found;
use crate::emit_dex::sections::{
    class_data_part, class_data_parts, class_data_section, laid_out, methods_moved, nothing,
    section_overflow, Section,
};

verus! {

// Lists

/// The indices of the fields ascend strictly.
pub open spec fn fields_ascend(fields: Seq<EncodedField>) -> bool {
    forall|j: int|
        #![trigger fields[j]]
        0 < j < fields.len() ==> fields[j - 1].field_idx.0 < fields[j].field_idx.0
}

/// The indices of the methods ascend strictly.
pub open spec fn methods_ascend(methods: Seq<EncodedMethod>) -> bool {
    forall|j: int|
        #![trigger methods[j]]
        0 < j < methods.len() ==> methods[j - 1].method_idx.0 < methods[j].method_idx.0
}

proof fn lemma_fields(fields: Seq<EncodedField>, i: nat)
    requires
        i <= fields.len(),
    ensures
        field_list(fields, i).fault is None <==> forall|j: int|
            #![trigger fields[j]]
            i <= j < fields.len() && 0 < j ==> fields[j - 1].field_idx.0 < fields[j].field_idx.0,
        field_list(fields, i).fault matches Some(e) ==> e is UnrepresentableIR,
    decreases fields.len() - i,
{
    if i < fields.len() {
        let f = fields[i as int];
        lemma_fields(fields, i + 1);
    }
}

proof fn lemma_methods(methods: Seq<EncodedMethod>, i: nat)
    requires
        i <= methods.len(),
    ensures
        method_list(methods, i).fault is None <==> forall|j: int|
            #![trigger methods[j]]
            i <= j < methods.len() && 0 < j ==> methods[j - 1].method_idx.0
                < methods[j].method_idx.0,
        method_list(methods, i).fault matches Some(e) ==> e is UnrepresentableIR,
    decreases methods.len() - i,
{
    if i < methods.len() {
        let m = methods[i as int];
        lemma_methods(methods, i + 1);
    }
}

// Bodies

/// The body of the method has a place, or the method has none.
pub open spec fn body_found(m: EncodedMethod, remap: Map<u32, u32>) -> bool {
    m.code_off == 0 || remap.contains_key(m.code_off)
}

/// The place of the body fits in 32 bits.
pub open spec fn body_fits(m: EncodedMethod, remap: Map<u32, u32>, base: u32) -> bool {
    m.code_off != 0 && remap.contains_key(m.code_off) ==> base + remap[m.code_off] <= u32::MAX
}

/// The method with the place of its body.
pub open spec fn with_place(m: EncodedMethod, remap: Map<u32, u32>, base: u32) -> EncodedMethod {
    EncodedMethod {
        code_off: if m.code_off == 0 {
            0
        } else {
            (base + remap[m.code_off]) as u32
        },
        ..m
    }
}

/// The methods with the places of their bodies.
pub open spec fn with_places(
    methods: Seq<EncodedMethod>,
    remap: Map<u32, u32>,
    base: u32,
) -> Seq<EncodedMethod> {
    methods.map_values(|m: EncodedMethod| with_place(m, remap, base))
}

/// All bodies have places that fit.
pub open spec fn bodies_placed(
    methods: Seq<EncodedMethod>,
    remap: Map<u32, u32>,
    base: u32,
) -> bool {
    forall|j: int|
        #![trigger methods[j]]
        0 <= j < methods.len() ==> body_found(methods[j], remap) && body_fits(
            methods[j],
            remap,
            base,
        )
}

proof fn lemma_moved(
    methods: Seq<EncodedMethod>,
    remap: Map<u32, u32>,
    base: u32,
    i: nat,
    acc: Seq<EncodedMethod>,
)
    requires
        i <= methods.len(),
        acc == with_places(methods, remap, base).take(i as int),
    ensures
        methods_moved(methods, remap, base, i, acc) is Ok <==> forall|j: int|
            #![trigger methods[j]]
            i <= j < methods.len() ==> body_found(methods[j], remap) && body_fits(
                methods[j],
                remap,
                base,
            ),
        methods_moved(methods, remap, base, i, acc) matches Ok(s) ==> s == with_places(
            methods,
            remap,
            base,
        ),
        methods_moved(methods, remap, base, i, acc) matches Err(e) ==> e is UnrepresentableIR || (
        exists|j: int|
            i <= j < methods.len() && !body_fits(#[trigger] methods[j], remap, base)),
    decreases methods.len() - i,
{
    let all = with_places(methods, remap, base);
    if i < methods.len() {
        let m = methods[i as int];
        if body_found(m, remap) && body_fits(m, remap, base) {
            assert(all[i as int] == with_place(m, remap, base));
            assert(acc.push(with_place(m, remap, base)) =~= all.take(i as int + 1));
            lemma_moved(methods, remap, base, i + 1, acc.push(with_place(m, remap, base)));
        }
    } else {
        assert(all.take(i as int) =~= all);
    }
}

/// Methods that could be moved are the methods with the places of their bodies, which all
/// have places.
pub proof fn moved_methods_have_places(methods: Seq<EncodedMethod>, remap: Map<u32, u32>, base: u32)
    ensures
        methods_moved(methods, remap, base, 0, Seq::empty()) is Ok <==> bodies_placed(
            methods,
            remap,
            base,
        ),
        methods_moved(methods, remap, base, 0, Seq::empty()) matches Ok(s) ==> s == with_places(
            methods,
            remap,
            base,
        ),
        methods_moved(methods, remap, base, 0, Seq::empty()) matches Err(e)
            ==> e is UnrepresentableIR || (exists|j: int|
            0 <= j < methods.len() && !body_fits(#[trigger] methods[j], remap, base)),
{
    assert(with_places(methods, remap, base).take(0) =~= Seq::empty());
    lemma_moved(methods, remap, base, 0, Seq::empty());
}

// A class

/// The lengths of the lists of members fit in 32 bits.
pub open spec fn lengths_fit(cd: ClassData) -> bool {
    &&& cd.static_fields@.len() <= u32::MAX
    &&& cd.instance_fields@.len() <= u32::MAX
    &&& cd.direct_methods@.len() <= u32::MAX
    &&& cd.virtual_methods@.len() <= u32::MAX
}

/// The indices in each list of members ascend strictly.
pub open spec fn members_ascend(cd: ClassData) -> bool {
    &&& fields_ascend(cd.static_fields@)
    &&& fields_ascend(cd.instance_fields@)
    &&& methods_ascend(cd.direct_methods@)
    &&& methods_ascend(cd.virtual_methods@)
}

/// The members of a class can be written.
pub open spec fn members_fit(cd: ClassData, remap: Map<u32, u32>, base: u32) -> bool {
    &&& bodies_placed(cd.direct_methods@, remap, base)
    &&& bodies_placed(cd.virtual_methods@, remap, base)
    &&& lengths_fit(cd)
    &&& members_ascend(cd)
}

/// The members of a class with the places of their bodies.
pub open spec fn members_placed(cd: ClassData, remap: Map<u32, u32>, base: u32) -> Members {
    Members {
        static_fields: cd.static_fields@,
        instance_fields: cd.instance_fields@,
        direct_methods: with_places(cd.direct_methods@, remap, base),
        virtual_methods: with_places(cd.virtual_methods@, remap, base),
    }
}

proof fn lemma_same_ascent(methods: Seq<EncodedMethod>, remap: Map<u32, u32>, base: u32)
    ensures
        methods_ascend(with_places(methods, remap, base)) == methods_ascend(methods),
{
    let moved = with_places(methods, remap, base);
    if methods_ascend(methods) {
        assert forall|j: int|
            #![trigger moved[j]]
            0 < j < moved.len() implies moved[j - 1].method_idx.0 < moved[j].method_idx.0 by {
            let m = methods[j];
        }
    }
    if methods_ascend(moved) {
        assert forall|j: int|
            #![trigger methods[j]]
            0 < j < methods.len() implies methods[j - 1].method_idx.0 < methods[j].method_idx.0 by {
            let m = moved[j];
        }
    }
}

proof fn lemma_lists(
    a: Seq<EncodedField>,
    b: Seq<EncodedField>,
    c: Seq<EncodedMethod>,
    d: Seq<EncodedMethod>,
)
    ensures
        class_data(a, b, c, d).fault is None <==> a.len() <= u32::MAX && b.len() <= u32::MAX
            && c.len() <= u32::MAX && d.len() <= u32::MAX && fields_ascend(a) && fields_ascend(b)
            && methods_ascend(c) && methods_ascend(d),
        a.len() <= u32::MAX && b.len() <= u32::MAX && c.len() <= u32::MAX && d.len() <= u32::MAX
            ==> (class_data(a, b, c, d).fault matches Some(e) ==> e is UnrepresentableIR),
{
    lemma_fields(a, 0);
    lemma_fields(b, 0);
    lemma_methods(c, 0);
    lemma_methods(d, 0);
}

/// The members of a class are refused exactly where a body has no place or one that does
/// not fit, a list is too long or an index does not ascend. Where the places and the
/// lengths fit, the complaint is that the class cannot be written.
pub proof fn members_are_refused(cd: ClassData, remap: Map<u32, u32>, base: u32)
    ensures
        class_data_part(cd, remap, base) is Ok <==> members_fit(cd, remap, base),
        lengths_fit(cd) && (forall|off: u32| #[trigger]
            remap.contains_key(off) ==> base + remap[off] <= u32::MAX) ==> (class_data_part(
            cd,
            remap,
            base,
        ) matches Err(e) ==> e is UnrepresentableIR),
{
    let direct = with_places(cd.direct_methods@, remap, base);
    let virt = with_places(cd.virtual_methods@, remap, base);
    moved_methods_have_places(cd.direct_methods@, remap, base);
    moved_methods_have_places(cd.virtual_methods@, remap, base);
    lemma_same_ascent(cd.direct_methods@, remap, base);
    lemma_same_ascent(cd.virtual_methods@, remap, base);
    lemma_lists(cd.static_fields@, cd.instance_fields@, direct, virt);
}

// The section

/// The length of the first `n` parts.
pub open spec fn length_of(parts: Seq<Result<Seq<u8>, DexEmitError>>, n: nat) -> nat
    decreases n,
{
    if n == 0 {
        0
    } else {
        length_of(parts, (n - 1) as nat) + match parts[n - 1] {
            Ok(part) => part.len(),
            Err(_) => 0,
        }
    }
}

/// Every part starts within 32 bits.
pub open spec fn starts_fit(parts: Seq<Result<Seq<u8>, DexEmitError>>) -> bool {
    forall|j: nat| j < parts.len() ==> #[trigger] length_of(parts, j) <= u32::MAX
}

proof fn lemma_laid_out(
    keys: Seq<u32>,
    parts: Seq<Result<Seq<u8>, DexEmitError>>,
    over: DexEmitError,
    i: nat,
    acc: Section,
)
    requires
        keys.len() == parts.len(),
        i <= keys.len(),
        acc.blob.len() == length_of(parts, i),
    ensures
        laid_out(keys, parts, 1, over, i, acc) is Ok <==> (forall|j: int|
            i <= j < parts.len() ==> (#[trigger] parts[j]) is Ok) && (forall|j: nat|
            i <= j < parts.len() ==> #[trigger] length_of(parts, j) <= u32::MAX),
        laid_out(keys, parts, 1, over, i, acc) matches Err(e) ==> (exists|j: int|
            i <= j < parts.len() && #[trigger] parts[j] == Err::<Seq<u8>, DexEmitError>(e)) || (
        exists|j: nat| i <= j < parts.len() && #[trigger] length_of(parts, j) > u32::MAX),
    decreases keys.len() - i,
{
    if i < keys.len() && length_of(parts, i) <= u32::MAX {
        match parts[i as int] {
            Err(e) => {
                assert(!(parts[i as int] is Ok));
            },
            Ok(part) => {
                let next = Section {
                    blob: acc.blob + part,
                    remap: acc.remap.insert(keys[i as int], acc.blob.len() as u32),
                };
                lemma_laid_out(keys, parts, over, i + 1, next);
            },
        }
    }
}

/// The class-member section is refused exactly where the members of a class are, or where
/// a class would start past what 32 bits hold. Where all places, lengths and starts fit,
/// the complaint is that a class cannot be written: a body has no place or an index does
/// not ascend.
pub proof fn class_members_are_refused(items: Map<u32, ClassData>, remap: Map<u32, u32>, base: u32)
    ensures
        class_data_section(items, remap, base) is Ok <==> (forall|key: u32| #[trigger]
            items.contains_key(key) ==> members_fit(items[key], remap, base)) && starts_fit(
            class_data_parts(items, remap, base),
        ),
        (forall|off: u32| #[trigger] remap.contains_key(off) ==> base + remap[off] <= u32::MAX) && (
        forall|key: u32| #[trigger] items.contains_key(key) ==> lengths_fit(items[key]))
            && starts_fit(class_data_parts(items, remap, base)) ==> (class_data_section(
            items,
            remap,
            base,
        ) matches Err(e) ==> e is UnrepresentableIR),
{
    let keys = sorted_keys(items);
    let parts = class_data_parts(items, remap, base);
    let over = section_overflow("class_data_section", "class_data blob exceeds u32 byte offset");
    let whole = class_data_section(items, remap, base);
    sorted_keys_list(items);
    lemma_laid_out(keys, parts, over, 0, nothing());
    assert forall|j: int| 0 <= j < parts.len() implies items.contains_key(#[trigger] keys[j])
        && ((#[trigger] parts[j]) is Ok <==> members_fit(items[keys[j]], remap, base)) by {
        assert(keys.contains(keys[j]));
        members_are_refused(items[keys[j]], remap, base);
    }
    let all = forall|key: u32| #[trigger]
        items.contains_key(key) ==> members_fit(items[key], remap, base);
    if forall|j: int| 0 <= j < parts.len() ==> (#[trigger] parts[j]) is Ok {
        assert forall|key: u32| #[trigger] items.contains_key(key) implies members_fit(
            items[key],
            remap,
            base,
        ) by {
            assert(keys.contains(key));
            let j = choose|j: int| 0 <= j < keys.len() && keys[j] == key;
            assert(parts[j] is Ok);
        }
    }
    if all {
        assert forall|j: int| 0 <= j < parts.len() implies (#[trigger] parts[j]) is Ok by {
            assert(items.contains_key(keys[j]));
        }
    }
    if (forall|off: u32| #[trigger] remap.contains_key(off) ==> base + remap[off] <= u32::MAX) && (
    forall|key: u32| #[trigger] items.contains_key(key) ==> lengths_fit(items[key]))
        && starts_fit(parts) && whole is Err {
        let e = whole->Err_0;
        if exists|j: nat| 0 <= j < parts.len() && #[trigger] length_of(parts, j) > u32::MAX {
            let j = choose|j: nat| 0 <= j < parts.len() && #[trigger] length_of(parts, j)
                > u32::MAX;
            assert(length_of(parts, j) <= u32::MAX);
        }
        let j = choose|j: int|
            0 <= j < parts.len() && #[trigger] parts[j] == Err::<Seq<u8>, DexEmitError>(e);
        assert(items.contains_key(keys[j]));
        members_are_refused(items[keys[j]], remap, base);
    }
}

/// Where the section is not refused, the members of every class read back from the place
/// that the offset map gives for it: the fields as they were, and the methods with the
/// places of their bodies.
pub proof fn class_members_read_back(
    items: Map<u32, ClassData>,
    remap: Map<u32, u32>,
    base: u32,
    key: u32,
)
    requires
        class_data_section(items, remap, base) is Ok,
        items.contains_key(key),
    ensures
        ({
            let s = class_data_section(items, remap, base)->Ok_0;
            &&& s.remap.contains_key(key)
            &&& members_read(s.blob.skip(s.remap[key] as int)) matches Some((m, _)) && m
                == members_placed(items[key], remap, base)
        }),
{
    let s = class_data_section(items, remap, base)->Ok_0;
    let cd = items[key];
    let part = class_data_part(cd, remap, base)->Ok_0;
    let direct = with_places(cd.direct_methods@, remap, base);
    let virt = with_places(cd.virtual_methods@, remap, base);
    class_members_are_found(items, remap, base, key);
    moved_methods_have_places(cd.direct_methods@, remap, base);
    moved_methods_have_places(cd.virtual_methods@, remap, base);
    let at = s.remap[key] as int;
    let rest = s.blob.skip(at + part.len());
    assert(s.blob.skip(at) =~= part + rest) by {
        assert(s.blob.subrange(at, at + part.len()) == part);
    }
    class_data_reads_back(cd.static_fields@, cd.instance_fields@, direct, virt, rest);
}

} // verus!
