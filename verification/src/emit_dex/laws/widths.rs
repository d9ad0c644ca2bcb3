//! How many bytes the numbers among constants take.
use vstd::prelude::*;

use crate::annotation::{EncodedAnnotation, EncodedValue};
use crate::bytes::le_low;
use crate::collections::{sorted_keys, sorted_keys_list};
use crate::dex_file::DexFile;
use crate::emit_dex::assembly::canonical_file;
use crate::emit_dex::config::EmitConfig;
use crate::emit_dex::encoded_value::{leaf, num_of, value_written};
use crate::emit_dex::laws::file::{canonical_parts, canonical_sections_stand};
use crate::emit_dex::laws::links::arrays_and_directories_are_laid_out;
use crate::emit_dex::laws::place::{holding_is_transitive, holds_at};
use crate::emit_dex::laws::sections::encoded_arrays_are_found;
use crate::emit_dex::laws::values::elements_are_finite;
use crate::emit_dex::sections::recorded_widths;
use crate::emit_dex::widths::{
    array_written, arrays_tally, at_width, body_deep, elements_deep, emit_width, items_deep,
    items_tally, value_deep, value_tally, values_alone, width_divergences,
};
use crate::leb128::uleb;

verus! {

/// Half of what `w` bytes can tell apart.
pub open spec fn half(w: int) -> int {
    if w == 1 {
        0x80
    } else if w == 2 {
        0x8000
    } else if w == 3 {
        0x80_0000
    } else if w == 4 {
        0x8000_0000
    } else if w == 5 {
        0x80_0000_0000
    } else if w == 6 {
        0x8000_0000_0000
    } else if w == 7 {
        0x80_0000_0000_0000
    } else {
        0x8000_0000_0000_0000
    }
}

/// A signed number fits `w` bytes of at most `most`.
pub open spec fn signed_fits(x: int, w: int, most: int) -> bool {
    1 <= w <= most && -half(w) <= x < half(w)
}

/// An unsigned number fits `w` bytes of at most `most`.
pub open spec fn unsigned_fits(x: int, w: int, most: int) -> bool {
    1 <= w <= most && 0 <= x < 2 * half(w)
}

/// A number or an index fits `w` bytes; only these have a choice of widths.
pub open spec fn fits_in(v: EncodedValue, w: int) -> bool {
    match v {
        EncodedValue::Short(x) => signed_fits(x as int, w, 2),
        EncodedValue::Char(x) => unsigned_fits(x as int, w, 2),
        EncodedValue::Int(x) => signed_fits(x as int, w, 4),
        EncodedValue::Long(x) => signed_fits(x as int, w, 8),
        EncodedValue::String(x) => unsigned_fits(x.0 as int, w, 4),
        EncodedValue::Type(x) => unsigned_fits(x.0 as int, w, 4),
        EncodedValue::Field(x) => unsigned_fits(x.0 as int, w, 4),
        EncodedValue::Method(x) => unsigned_fits(x.0 as int, w, 4),
        EncodedValue::Enum(x) => unsigned_fits(x.0 as int, w, 4),
        EncodedValue::MethodType(x) => unsigned_fits(x.0 as int, w, 4),
        EncodedValue::MethodHandle(x) => unsigned_fits(x.0 as int, w, 4),
        _ => false,
    }
}

proof fn lemma_low_len(v: u64, n: nat)
    ensures
        le_low(v, n).len() == n,
    decreases n,
{
    if n > 0 {
        lemma_low_len(v / 256, (n - 1) as nat);
    }
}

proof fn lemma_low_lens()
    ensures
        forall|v: u64, n: nat| (#[trigger] le_low(v, n)).len() == n,
{
    assert forall|v: u64, n: nat| (#[trigger] le_low(v, n)).len() == n by {
        lemma_low_len(v, n);
    }
}

/// A number can be written in each width that it fits, and in no other; it then takes that
/// many bytes behind the one that says so.
pub proof fn numbers_are_written_where_they_fit(v: EncodedValue, w: u8)
    ensures
        at_width(v, w) is Some <==> fits_in(v, w as int),
        at_width(v, w) matches Some(b) ==> b.len() == 1 + w,
{
    lemma_low_lens();
}

/// By itself a number takes the fewest bytes that it fits. Floating-point numbers take all of
/// theirs, a byte takes one, and null and booleans none.
pub proof fn numbers_take_the_fewest_bytes(v: EncodedValue, w: u8)
    ensures
        fits_in(v, w as int) ==> leaf(v).len() <= 1 + w && fits_in(v, leaf(v).len() - 1)
            && at_width(v, (leaf(v).len() - 1) as u8) == Some(leaf(v)) && emit_width(v) == Some(
            (leaf(v).len() - 1) as nat,
        ),
        v is Byte ==> leaf(v).len() == 2,
        v is Float ==> leaf(v).len() == 5,
        v is Double ==> leaf(v).len() == 9,
        v is Null || v is Boolean ==> leaf(v).len() == 1 && emit_width(v) is None,
{
    lemma_low_lens();
}

// Recorded widths

/// The value has a recorded width.
pub open spec fn takes_width(v: EncodedValue) -> bool {
    !(v is Array) && !(v is Annotation) && !(v is Null) && !(v is Boolean)
}

/// A value that holds no others is written in its recorded width where it fits, and in the
/// fewest bytes otherwise. Each takes one width, but null and booleans take none.
pub proof fn recorded_widths_are_followed(v: EncodedValue, ws: Seq<u8>, k: nat)
    requires
        !(v is Array),
        !(v is Annotation),
    ensures
        ({
            let r = value_deep(v, ws, k);
            &&& r.w.fault is None
            &&& takes_width(v) && k < ws.len() ==> r.next == k + 1
            &&& !(takes_width(v) && k < ws.len()) ==> r.next == k
            &&& takes_width(v) && k < ws.len() && fits_in(v, ws[k as int] as int) ==> at_width(
                v,
                ws[k as int],
            ) == Some(r.w.bytes) && r.w.bytes.len() == 1 + ws[k as int]
            &&& !(k < ws.len() && fits_in(v, ws[k as int] as int)) ==> r.w.bytes == leaf(v)
        }),
{
    if k < ws.len() {
        numbers_are_written_where_they_fit(v, ws[k as int]);
    }
}

/// How many of the first `i` values have a recorded width.
pub open spec fn widths_taken(items: Seq<EncodedValue>, i: int) -> int
    decreases i,
{
    if i <= 0 {
        0
    } else {
        widths_taken(items, i - 1) + if takes_width(items[i - 1]) {
            1int
        } else {
            0int
        }
    }
}

/// None of the values holds others.
pub open spec fn flat(items: Seq<EncodedValue>) -> bool {
    forall|i: int|
        0 <= i < items.len() ==> !((#[trigger] items[i]) is Array) && !(items[i] is Annotation)
}

proof fn lemma_taken(items: Seq<EncodedValue>, i: int, n: int)
    requires
        0 <= i <= n,
    ensures
        0 <= widths_taken(items, i) <= widths_taken(items, n) <= n,
    decreases n,
{
    if n > 0 {
        if i < n {
            lemma_taken(items, i, n - 1);
        } else {
            lemma_taken(items, i - 1, n - 1);
        }
    }
}

/// What the values write, each with the width that is recorded for it.
pub open spec fn each_at_its_width(items: Seq<EncodedValue>, ws: Seq<u8>) -> Seq<Seq<u8>> {
    Seq::new(
        items.len(),
        |i: int| value_deep(items[i], ws, widths_taken(items, i) as nat).w.bytes,
    )
}

proof fn lemma_flat(items: Seq<EncodedValue>, i: nat, ws: Seq<u8>)
    requires
        flat(items),
        i <= items.len(),
        widths_taken(items, items.len() as int) <= ws.len(),
    ensures
        ({
            let r = items_deep(items, i, ws, widths_taken(items, i as int) as nat);
            &&& r.w.fault is None
            &&& r.w.bytes == each_at_its_width(items, ws).skip(i as int).flatten()
        }),
    decreases items.len() - i,
{
    let all = each_at_its_width(items, ws);
    let k = widths_taken(items, i as int);
    if i < items.len() {
        let v = items[i as int];
        lemma_taken(items, i as int, items.len() as int);
        lemma_taken(items, i as int + 1, items.len() as int);
        recorded_widths_are_followed(v, ws, k as nat);
        lemma_flat(items, i + 1, ws);
        assert(value_deep(v, ws, k as nat).next == widths_taken(items, i as int + 1));
        let rest = all.skip(i as int);
        assert(rest[0] == all[i as int]);
        assert(rest.drop_first() =~= all.skip(i as int + 1));
        assert(rest.flatten() == rest.first() + rest.drop_first().flatten());
    } else {
        assert(all.skip(i as int) =~= Seq::empty());
        assert(all.skip(i as int).flatten() =~= Seq::empty());
    }
}

/// The values of an array without nesting stand one after the other, each with the width that
/// is recorded for it: the first width is that of the first value that has one, and so on.
pub proof fn values_take_their_widths_in_order(items: Seq<EncodedValue>, ws: Seq<u8>)
    requires
        flat(items),
        widths_taken(items, items.len() as int) <= ws.len(),
    ensures
        items_deep(items, 0, ws, 0).w.fault is None,
        items_deep(items, 0, ws, 0).w.bytes == each_at_its_width(items, ws).flatten(),
{
    lemma_flat(items, 0, ws);
    assert(each_at_its_width(items, ws).skip(0) =~= each_at_its_width(items, ws));
}

/// Values within an array or an annotation go on with the widths where the value before left
/// off: an array is its tag, its length and its items, an annotation its tag and its body.
pub proof fn nested_values_go_on_with_the_widths(
    items: Vec<EncodedValue>,
    ann: EncodedAnnotation,
    ws: Seq<u8>,
    k: nat,
)
    ensures
        ({
            let v = value_deep(EncodedValue::Array(items), ws, k);
            let inner = items_deep(items@, 0, ws, k);
            items@.len() <= u32::MAX && inner.w.fault is None ==> v.w.fault is None && v.next
                == inner.next && v.w.bytes == seq![0x1cu8] + uleb(items@.len()) + inner.w.bytes
        }),
        ({
            let v = value_deep(EncodedValue::Annotation(ann), ws, k);
            let inner = body_deep(ann, ws, k);
            inner.w.fault is None ==> v.w.fault is None && v.next == inner.next && v.w.bytes
                == seq![0x1du8] + inner.w.bytes
        }),
{
}

proof fn lemma_elements(m: Map<u32, EncodedValue>, keys: Seq<u32>, i: nat, ws: Seq<u8>)
    requires
        m.dom().finite(),
        forall|j: int| 0 <= j < keys.len() ==> m.contains_key(#[trigger] keys[j]),
        flat(values_of(m, keys)),
        i <= keys.len(),
        widths_taken(values_of(m, keys), keys.len() as int) <= ws.len(),
    ensures
        ({
            let items = values_of(m, keys);
            let r = elements_deep(m, keys, i, ws, widths_taken(items, i as int) as nat);
            &&& r.w.fault is None
            &&& r.w.bytes == each_named(keys, each_at_its_width(items, ws)).skip(
                i as int,
            ).flatten()
        }),
    decreases keys.len() - i,
{
    let items = values_of(m, keys);
    let all = each_named(keys, each_at_its_width(items, ws));
    let k = widths_taken(items, i as int);
    if i < keys.len() {
        let v = items[i as int];
        lemma_taken(items, i as int, items.len() as int);
        lemma_taken(items, i as int + 1, items.len() as int);
        recorded_widths_are_followed(v, ws, k as nat);
        lemma_elements(m, keys, i + 1, ws);
        assert(value_deep(v, ws, k as nat).next == widths_taken(items, i as int + 1));
        let rest = all.skip(i as int);
        assert(rest[0] == all[i as int]);
        assert(rest.drop_first() =~= all.skip(i as int + 1));
        assert(rest.flatten() == rest.first() + rest.drop_first().flatten());
    } else {
        assert(all.skip(i as int) =~= Seq::empty());
        assert(all.skip(i as int).flatten() =~= Seq::empty());
    }
}

/// The values of elements, in the order of `keys`.
pub open spec fn values_of(m: Map<u32, EncodedValue>, keys: Seq<u32>) -> Seq<EncodedValue> {
    Seq::new(keys.len(), |i: int| m[keys[i]])
}

/// What values write, each with the index of its name before it.
pub open spec fn each_named(keys: Seq<u32>, parts: Seq<Seq<u8>>) -> Seq<Seq<u8>> {
    Seq::new(parts.len(), |i: int| uleb(keys[i] as nat) + parts[i])
}

/// The elements of an annotation without nesting stand in the order of their names, each with
/// the width that is recorded for it behind the index of its name.
pub proof fn elements_take_their_widths_in_order(ann: EncodedAnnotation, ws: Seq<u8>)
    requires
        sorted_keys(ann.elements@).len() <= u32::MAX,
        flat(values_of(ann.elements@, sorted_keys(ann.elements@))),
        widths_taken(
            values_of(ann.elements@, sorted_keys(ann.elements@)),
            sorted_keys(ann.elements@).len() as int,
        ) <= ws.len(),
    ensures
        ({
            let keys = sorted_keys(ann.elements@);
            let r = body_deep(ann, ws, 0);
            &&& r.w.fault is None
            &&& r.w.bytes == uleb(ann.type_idx.0 as nat) + uleb(keys.len()) + each_named(
                keys,
                each_at_its_width(values_of(ann.elements@, keys), ws),
            ).flatten()
        }),
{
    let m = ann.elements@;
    let keys = sorted_keys(m);
    sorted_keys_list(m);
    elements_are_finite(m);
    assert forall|j: int| 0 <= j < keys.len() implies m.contains_key(#[trigger] keys[j]) by {
        assert(keys.contains(keys[j]));
    }
    lemma_elements(m, keys, 0, ws);
    let all = each_named(keys, each_at_its_width(values_of(m, keys), ws));
    assert(all.skip(0) =~= all);
}

// Differences

/// The width recorded for the value at `i` is above the least that it fits.
pub open spec fn is_wider(items: Seq<EncodedValue>, ws: Seq<u8>, i: int) -> bool {
    let k = widths_taken(items, i);
    &&& takes_width(items[i])
    &&& !(items[i] is Float) && !(items[i] is Double)
    &&& 0 <= k < ws.len()
    &&& ws[k] > leaf(items[i]).len() - 1
}

/// How many of the values from position `i` on have a width recorded above the least.
pub open spec fn wider_from(items: Seq<EncodedValue>, ws: Seq<u8>, i: int) -> int
    decreases items.len() - i,
{
    if i >= items.len() {
        0
    } else {
        wider_from(items, ws, i + 1) + if is_wider(items, ws, i) {
            1int
        } else {
            0int
        }
    }
}

proof fn lemma_tally(items: Seq<EncodedValue>, ws: Seq<u8>, i: nat, k: nat)
    requires
        flat(items),
        i <= items.len(),
        k == (if widths_taken(items, i as int) <= ws.len() {
            widths_taken(items, i as int)
        } else {
            ws.len() as int
        }),
    ensures
        items_tally(items, i, ws, k).count == wider_from(items, ws, i as int),
    decreases items.len() - i,
{
    if i < items.len() {
        let v = items[i as int];
        lemma_low_lens();
        lemma_taken(items, i as int, items.len() as int);
        lemma_tally(items, ws, i + 1, value_tally(v, ws, k).next);
    }
}

/// What is counted in an array without nesting are the integers and indexes whose recorded
/// width is above the least that they fit.
pub proof fn wider_numbers_are_counted(items: Seq<EncodedValue>, ws: Seq<u8>)
    requires
        flat(items),
    ensures
        items_tally(items, 0, ws, 0).count == wider_from(items, ws, 0),
{
    lemma_tally(items, ws, 0, 0);
}

/// Values within others count as they do by themselves.
pub proof fn nested_numbers_are_counted(items: Vec<EncodedValue>, ws: Seq<u8>, k: nat)
    ensures
        value_tally(EncodedValue::Array(items), ws, k) == items_tally(items@, 0, ws, k),
{
}

proof fn lemma_none_wider(items: Seq<EncodedValue>, i: nat, ws: Seq<u8>, k: nat)
    requires
        flat(items),
        items_tally(items, i, ws, k).count == 0,
    ensures
        items_deep(items, i, ws, k).w == values_alone(items, i),
    decreases items.len() - i,
{
    if i < items.len() {
        let v = items[i as int];
        let first = value_deep(v, ws, k);
        lemma_low_lens();
        assert(value_written(v, 0) == crate::emit_dex::written::done(leaf(v)));
        if k < ws.len() && at_width(v, ws[k as int]) is Some {
            let n = num_of(v)->0;
            assert(value_tally(v, ws, k).count == 0);
            assert(emit_width(v) == Some(n.least));
            assert(ws[k as int] == n.least);
        }
        assert(first.w.bytes == leaf(v));
        assert(first.next == value_tally(v, ws, k).next);
        lemma_none_wider(items, i + 1, ws, first.next);
    }
}

/// Where nothing is counted, writing an array without nesting at its recorded widths gives what
/// writing it in the fewest bytes gives.
pub proof fn without_wider_numbers_widths_change_nothing(items: Seq<EncodedValue>, ws: Seq<u8>)
    requires
        flat(items),
        items_tally(items, 0, ws, 0).count == 0,
    ensures
        array_written(items, Some(ws)) == array_written(items, None),
{
    lemma_none_wider(items, 0, ws, 0);
}

proof fn lemma_arrays_tally(
    arrays: Map<u32, Vec<EncodedValue>>,
    widths: Map<u32, Vec<u8>>,
    keys: Seq<u32>,
    i: nat,
)
    ensures
        arrays_tally(arrays, widths, keys, i) > 0 <==> exists|j: int|
            i <= j < keys.len() && widths.contains_key(#[trigger] keys[j]) && items_tally(
                arrays[keys[j]]@,
                0,
                widths[keys[j]]@,
                0,
            ).count > 0,
    decreases keys.len() - i,
{
    if i < keys.len() {
        lemma_arrays_tally(arrays, widths, keys, i + 1);
        let key = keys[i as int];
        if widths.contains_key(key) && items_tally(arrays[key]@, 0, widths[key]@, 0).count > 0 {
            assert(widths.contains_key(keys[i as int]));
        }
        if arrays_tally(arrays, widths, keys, i + 1) > 0 {
            let j = choose|j: int|
                i + 1 <= j < keys.len() && widths.contains_key(#[trigger] keys[j]) && items_tally(
                    arrays[keys[j]]@,
                    0,
                    widths[keys[j]]@,
                    0,
                ).count > 0;
            assert(widths.contains_key(keys[j]));
        }
    }
}

/// Numbers are counted in every encoded array that has recorded widths, and nowhere else.
pub proof fn all_arrays_are_counted(dex: DexFile)
    ensures
        width_divergences(dex) > 0 <==> exists|key: u32|
            dex.encoded_arrays@.contains_key(key) && dex.encoded_array_widths@.contains_key(key)
                && (#[trigger] items_tally(
                dex.encoded_arrays@[key]@,
                0,
                dex.encoded_array_widths@[key]@,
                0,
            )).count > 0,
{
    let arrays = dex.encoded_arrays@;
    let widths = dex.encoded_array_widths@;
    let keys = sorted_keys(arrays);
    lemma_arrays_tally(arrays, widths, keys, 0);
    sorted_keys_list(arrays);
    if width_divergences(dex) > 0 {
        let j = choose|j: int|
            0 <= j < keys.len() && widths.contains_key(#[trigger] keys[j]) && items_tally(
                arrays[keys[j]]@,
                0,
                widths[keys[j]]@,
                0,
            ).count > 0;
        assert(keys.contains(keys[j]));
        assert(items_tally(arrays[keys[j]]@, 0, widths[keys[j]]@, 0).count > 0);
    }
    if exists|key: u32|
        arrays.contains_key(key) && widths.contains_key(key) && (#[trigger] items_tally(
            arrays[key]@,
            0,
            widths[key]@,
            0,
        )).count > 0 {
        let key = choose|key: u32|
            arrays.contains_key(key) && widths.contains_key(key) && (#[trigger] items_tally(
                arrays[key]@,
                0,
                widths[key]@,
                0,
            )).count > 0;
        assert(keys.contains(key));
        let j = choose|j: int| 0 <= j < keys.len() && keys[j] == key;
        assert(widths.contains_key(keys[j]));
    }
}

/// In a file in the canonical layout an encoded array stands at its recorded widths where these
/// are to be kept and there are some, and in the fewest bytes otherwise.
pub proof fn arrays_keep_their_widths_where_asked(dex: DexFile, config: EmitConfig, key: u32)
    requires
        canonical_file(dex, config) is Ok,
        dex.encoded_arrays@.contains_key(key),
    ensures
        ({
            let t = canonical_parts(dex, config).data.tail;
            let widths = if config.preserve_encoded_value_width
                && dex.encoded_array_widths@.contains_key(key) {
                Some(dex.encoded_array_widths@[key]@)
            } else {
                None
            };
            holds_at(
                canonical_file(dex, config)->Ok_0.bytes,
                t.array_base + t.arrays.remap[key],
                array_written(dex.encoded_arrays@[key]@, widths).bytes,
            )
        }),
{
    let t = canonical_parts(dex, config).data.tail;
    let all = if config.preserve_encoded_value_width {
        Some(dex.encoded_array_widths@)
    } else {
        None
    };
    canonical_sections_stand(dex, config);
    arrays_and_directories_are_laid_out(dex, config);
    encoded_arrays_are_found(dex.encoded_arrays@, all, key);
    holding_is_transitive(
        canonical_file(dex, config)->Ok_0.bytes,
        t.array_base as int,
        t.arrays.blob,
        t.arrays.remap[key] as int,
        array_written(dex.encoded_arrays@[key]@, recorded_widths(all, key)).bytes,
    );
}

} // verus!
