//! Constants written at recorded byte widths instead of the least ones, and the
//! count of places where the two differ.
use std::collections::BTreeMap;
use vstd::prelude::*;

use crate::annotation::{AnnotationItem, EncodedAnnotation, EncodedValue};
use crate::bytes::{i64_bits, write_le_bytes};
use crate::collections::{bound, entries, sorted_keys};
use crate::dex_file::DexFile;
use crate::emit_dex::encoded_value::{
    count32, emit_encoded_value, is_composite, leaf, min_signed_bytes, min_unsigned_bytes, num_of,
    number, value_written, VT_ANNOTATION, VT_ARRAY, VT_CHAR, VT_ENUM, VT_FIELD, VT_INT, VT_LONG,
    VT_METHOD, VT_METHOD_HANDLE, VT_METHOD_TYPE, VT_SHORT, VT_STRING, VT_TYPE,
};
use crate::emit_dex::error::DexEmitError;
use crate::emit_dex::written::{done, gives, remains, Written};
use crate::leb128::{uleb, write_uleb128};

verus! {

/// The encoding of `v` in `width` bytes, where that width is allowed for its type
/// and keeps its value. Only integers and indices have a choice of widths.
pub open spec fn at_width(v: EncodedValue, width: u8) -> Option<Seq<u8>> {
    match num_of(v) {
        Some(n) => if n.least <= width <= n.most {
            Some(number(n.tag, n.raw, width as nat))
        } else {
            None
        },
        None => None,
    }
}

/// The tag, bit pattern, least and greatest width of an integer or index.
fn number_parts(v: &EncodedValue) -> (r: Option<(u8, u64, usize, usize)>)
    ensures
        match r {
            None => num_of(*v) is None,
            Some((tag, raw, least, most)) => num_of(*v) matches Some(n) && n.tag == tag && n.raw
                == raw && n.least == least && n.most == most && tag < 32,
        },
{
    match v {
        EncodedValue::Short(x) => Some(
            (VT_SHORT, i64_bits(*x as i64), min_signed_bytes(*x as i64), 2),
        ),
        EncodedValue::Char(x) => Some((VT_CHAR, *x as u64, min_unsigned_bytes(*x as u64), 2)),
        EncodedValue::Int(x) => Some(
            (VT_INT, i64_bits(*x as i64), min_signed_bytes(*x as i64), 4),
        ),
        EncodedValue::Long(x) => Some((VT_LONG, i64_bits(*x), min_signed_bytes(*x), 8)),
        EncodedValue::String(x) => Some(
            (VT_STRING, x.0 as u64, min_unsigned_bytes(x.0 as u64), 4),
        ),
        EncodedValue::Type(x) => Some((VT_TYPE, x.0 as u64, min_unsigned_bytes(x.0 as u64), 4)),
        EncodedValue::Field(x) => Some((VT_FIELD, x.0 as u64, min_unsigned_bytes(x.0 as u64), 4)),
        EncodedValue::Method(x) => Some(
            (VT_METHOD, x.0 as u64, min_unsigned_bytes(x.0 as u64), 4),
        ),
        EncodedValue::Enum(x) => Some((VT_ENUM, x.0 as u64, min_unsigned_bytes(x.0 as u64), 4)),
        EncodedValue::MethodType(x) => Some(
            (VT_METHOD_TYPE, x.0 as u64, min_unsigned_bytes(x.0 as u64), 4),
        ),
        EncodedValue::MethodHandle(x) => Some(
            (VT_METHOD_HANDLE, x.0 as u64, min_unsigned_bytes(x.0 as u64), 4),
        ),
        _ => None,
    }
}

/// Appends `val` in `requested_width` bytes and returns `true`; returns `false`
/// and appends nothing where the width is not allowed or would lose the value.
pub fn emit_encoded_value_at_width(
    out: &mut Vec<u8>,
    val: &EncodedValue,
    requested_width: u8,
) -> (r: bool)
    ensures
        match at_width(*val, requested_width) {
            Some(b) => r && final(out)@ == old(out)@ + b,
            None => !r && final(out)@ == old(out)@,
        },
{
    let width: usize = requested_width as usize;
    match number_parts(val) {
        None => false,
        Some((tag, raw, least, most)) => {
            if width > most || width < least {
                return false;
            }
            out.push(tag + (requested_width - 1) * 32);
            write_le_bytes(out, raw, width);
            assert(out@ =~= old(out)@ + number(tag, raw, width as nat));
            true
        },
    }
}

/// The width that the least-width encoding gives a value; `None` for values whose
/// width means nothing.
pub open spec fn emit_width(v: EncodedValue) -> Option<nat> {
    match v {
        EncodedValue::Byte(_) => Some(1),
        EncodedValue::Float(_) => Some(4),
        EncodedValue::Double(_) => Some(8),
        _ => match num_of(v) {
            Some(n) => Some(n.least),
            None => None,
        },
    }
}

/// The width that the least-width encoding gives `val`; `None` for arrays,
/// annotations, null and booleans.
pub fn encoded_value_min_emit_width(val: &EncodedValue) -> (r: Option<u8>)
    ensures
        match r {
            Some(w) => emit_width(*val) == Some(w as nat),
            None => emit_width(*val) is None,
        },
{
    match val {
        EncodedValue::Byte(_) => Some(1),
        EncodedValue::Float(_) => Some(4),
        EncodedValue::Double(_) => Some(8),
        _ => match number_parts(val) {
            Some((_, _, least, _)) => Some(least as u8),
            None => None,
        },
    }
}

/// What a value writes, and which recorded width comes next.
#[verifier::ext_equal]
pub struct Threaded {
    pub w: Written,
    pub next: nat,
}

impl Threaded {
    pub open spec fn and(self, step: Threaded) -> Threaded {
        if self.w.fault is Some {
            self
        } else {
            Threaded { w: self.w.and(step.w), next: step.next }
        }
    }
}

pub open spec fn plain(w: Written, next: nat) -> Threaded {
    Threaded { w, next }
}

/// The encoding of `v` with the widths `ws`, of which the first unused one is at
/// `k`. A width that does not suit the value is consumed and not followed.
pub open spec fn value_deep(v: EncodedValue, ws: Seq<u8>, k: nat) -> Threaded
    decreases v, 0nat,
{
    match v {
        EncodedValue::Array(items) => {
            let head = done(seq![VT_ARRAY]).and(
                count32(items@.len(), "encoded_array", "length exceeds u32"),
            );
            if head.fault is Some {
                plain(head, k)
            } else {
                plain(head, k).and(items_deep(items@, 0, ws, k))
            }
        },
        EncodedValue::Annotation(ann) => plain(done(seq![VT_ANNOTATION]), k).and(
            body_deep(ann, ws, k),
        ),
        EncodedValue::Null => plain(done(leaf(v)), k),
        EncodedValue::Boolean(_) => plain(done(leaf(v)), k),
        _ => if k < ws.len() {
            plain(
                done(
                    match at_width(v, ws[k as int]) {
                        Some(b) => b,
                        None => leaf(v),
                    },
                ),
                k + 1,
            )
        } else {
            plain(done(leaf(v)), k)
        },
    }
}

/// The items from position `i` on.
pub open spec fn items_deep(items: Seq<EncodedValue>, i: nat, ws: Seq<u8>, k: nat) -> Threaded
    decreases items, items.len() - i,
{
    if i >= items.len() {
        plain(done(Seq::empty()), k)
    } else {
        let first = value_deep(items[i as int], ws, k);
        first.and(items_deep(items, i + 1, ws, first.next))
    }
}

/// The body of an annotation.
pub open spec fn body_deep(ann: EncodedAnnotation, ws: Seq<u8>, k: nat) -> Threaded
    decreases ann, 1nat,
{
    let keys = sorted_keys(ann.elements@);
    let head = done(uleb(ann.type_idx.0 as nat)).and(
        count32(keys.len(), "encoded_annotation", "element count exceeds u32"),
    );
    if head.fault is Some {
        plain(head, k)
    } else {
        plain(head, k).and(elements_deep(ann.elements@, keys, 0, ws, k))
    }
}

/// The elements from position `i` on, each with its name index before it.
pub open spec fn elements_deep(
    m: Map<u32, EncodedValue>,
    keys: Seq<u32>,
    i: nat,
    ws: Seq<u8>,
    k: nat,
) -> Threaded
    decreases m, keys.len() - i,
{
    if i >= keys.len() || !m.contains_key(keys[i as int]) || !m.dom().finite() {
        plain(done(Seq::empty()), k)
    } else {
        let val = value_deep(m[keys[i as int]], ws, k);
        let first = plain(done(uleb(keys[i as int] as nat)), k).and(val);
        first.and(elements_deep(m, keys, i + 1, ws, first.next))
    }
}

proof fn lemma_leaf_written(v: EncodedValue)
    requires
        !is_composite(v),
    ensures
        value_written(v, 0) == done(leaf(v)),
{
}

/// Appends `val` with recorded widths, the first unused one being `*pos`.
fn emit_encoded_value_deep_widths(
    out: &mut Vec<u8>,
    val: &EncodedValue,
    widths: &[u8],
    pos: &mut usize,
) -> (r: Result<(), DexEmitError>)
    requires
        *old(pos) <= widths@.len(),
    ensures
        value_deep(*val, widths@, *old(pos) as nat).w.appends(old(out)@, final(out)@, r),
        r is Ok ==> *final(pos) == value_deep(*val, widths@, *old(pos) as nat).next,
        *final(pos) <= widths@.len(),
    decreases *val, 0nat,
{
    let ghost k0 = *pos as nat;
    match val {
        EncodedValue::Array(items) => {
            out.push(VT_ARRAY);
            let ghost whole = value_deep(*val, widths@, k0);
            if items.len() > u32::MAX as usize {
                assert(out@ =~= old(out)@ + whole.w.bytes);
                return Err(
                    DexEmitError::SizeOverflow {
                        layer: "encoded_array",
                        context: "length exceeds u32",
                    },
                );
            }
            write_uleb128(out, items.len() as u32);
            let mut i: usize = 0;
            while i < items.len()
                invariant
                    i <= items@.len(),
                    *val == EncodedValue::Array(*items),
                    *pos <= widths@.len(),
                    k0 == *old(pos),
                    whole == value_deep(*val, widths@, k0),
                    remains(
                        old(out)@,
                        whole.w,
                        out@,
                        items_deep(items@, i as nat, widths@, *pos as nat).w,
                    ),
                    whole.next == items_deep(items@, i as nat, widths@, *pos as nat).next,
                decreases items@.len() - i,
            {
                assert(decreases_to!(*val => items@[i as int]));
                match emit_encoded_value_deep_widths(out, &items[i], widths, pos) {
                    Ok(_) => {},
                    Err(e) => {
                        assert(out@ =~= old(out)@ + whole.w.bytes);
                        return Err(e);
                    },
                }
                i = i + 1;
            }
            Ok(())
        },
        EncodedValue::Annotation(ann) => {
            out.push(VT_ANNOTATION);
            let r = emit_encoded_annotation_body(out, ann, widths, pos);
            assert(out@ =~= old(out)@ + value_deep(*val, widths@, k0).w.bytes);
            r
        },
        EncodedValue::Null => emit_encoded_value(out, val),
        EncodedValue::Boolean(_) => emit_encoded_value(out, val),
        _ => {
            proof {
                lemma_leaf_written(*val);
            }
            if *pos < widths.len() {
                let w: u8 = widths[*pos];
                *pos = *pos + 1;
                if emit_encoded_value_at_width(out, val, w) {
                    return Ok(());
                }
            }
            emit_encoded_value(out, val)
        },
    }
}

fn emit_encoded_annotation_body(
    out: &mut Vec<u8>,
    ann: &EncodedAnnotation,
    widths: &[u8],
    pos: &mut usize,
) -> (r: Result<(), DexEmitError>)
    requires
        *old(pos) <= widths@.len(),
    ensures
        body_deep(*ann, widths@, *old(pos) as nat).w.appends(old(out)@, final(out)@, r),
        r is Ok ==> *final(pos) == body_deep(*ann, widths@, *old(pos) as nat).next,
        *final(pos) <= widths@.len(),
    decreases *ann, 1nat,
{
    broadcast use vstd::std_specs::btree::group_btree_axioms;

    let ghost k0 = *pos as nat;
    let ghost whole = body_deep(*ann, widths@, k0);
    let ghost m = ann.elements@;
    let ghost keys = sorted_keys(m);
    let elems = entries(&ann.elements);
    write_uleb128(out, ann.type_idx.0);
    if elems.len() > u32::MAX as usize {
        assert(out@ =~= old(out)@ + whole.w.bytes);
        return Err(
            DexEmitError::SizeOverflow {
                layer: "encoded_annotation",
                context: "element count exceeds u32",
            },
        );
    }
    write_uleb128(out, elems.len() as u32);
    let mut i: usize = 0;
    while i < elems.len()
        invariant
            i <= elems@.len(),
            m == ann.elements@,
            m.dom().finite(),
            keys == sorted_keys(m),
            elems@.len() == keys.len(),
            forall|i: int|
                #![trigger elems@[i]]
                0 <= i < elems@.len() ==> elems@[i].0 == keys[i] && m.contains_key(elems@[i].0)
                    && m[elems@[i].0] == *elems@[i].1,
            *pos <= widths@.len(),
            k0 == *old(pos),
            whole == body_deep(*ann, widths@, k0),
            remains(
                old(out)@,
                whole.w,
                out@,
                elements_deep(m, keys, i as nat, widths@, *pos as nat).w,
            ),
            whole.next == elements_deep(m, keys, i as nat, widths@, *pos as nat).next,
        decreases elems@.len() - i,
    {
        let elem: (u32, &EncodedValue) = elems[i];
        assert(elems@[i as int].0 == keys[i as int]);
        assert(decreases_to!(*ann => ann.elements@));
        assert(decreases_to!(m => m[keys[i as int]]));
        write_uleb128(out, elem.0);
        match emit_encoded_value_deep_widths(out, elem.1, widths, pos) {
            Ok(_) => {},
            Err(e) => {
                assert(out@ =~= old(out)@ + whole.w.bytes);
                return Err(e);
            },
        }
        i = i + 1;
    }
    Ok(())
}

/// The elements of an annotation that stands by itself, from position `i` on.
pub open spec fn elements_alone(m: Map<u32, EncodedValue>, keys: Seq<u32>, i: nat) -> Written
    decreases keys.len() - i,
{
    if i >= keys.len() {
        done(Seq::empty())
    } else {
        done(uleb(keys[i as int] as nat)).and(value_written(m[keys[i as int]], 0)).and(
            elements_alone(m, keys, i + 1),
        )
    }
}

/// The body of an annotation that stands by itself: its type, its number of
/// elements, and the elements by ascending name index.
pub open spec fn annotation_written(ann: EncodedAnnotation) -> Written {
    let keys = sorted_keys(ann.elements@);
    done(uleb(ann.type_idx.0 as nat)).and(
        count32(keys.len(), "encoded_annotation", "element count exceeds u32"),
    ).and(elements_alone(ann.elements@, keys, 0))
}

/// Appends the body of `ann`.
pub fn emit_encoded_annotation(out: &mut Vec<u8>, ann: &EncodedAnnotation) -> (r: Result<
    (),
    DexEmitError,
>)
    ensures
        annotation_written(*ann).appends(old(out)@, final(out)@, r),
{
    let ghost whole = annotation_written(*ann);
    let ghost m = ann.elements@;
    let ghost keys = sorted_keys(m);
    let elems = entries(&ann.elements);
    write_uleb128(out, ann.type_idx.0);
    if elems.len() > u32::MAX as usize {
        assert(out@ =~= old(out)@ + whole.bytes);
        return Err(
            DexEmitError::SizeOverflow {
                layer: "encoded_annotation",
                context: "element count exceeds u32",
            },
        );
    }
    write_uleb128(out, elems.len() as u32);
    let mut i: usize = 0;
    while i < elems.len()
        invariant
            i <= elems@.len(),
            elems@.len() == keys.len(),
            forall|i: int|
                #![trigger elems@[i]]
                0 <= i < elems@.len() ==> elems@[i].0 == keys[i] && m[elems@[i].0] == *elems@[i].1,
            whole == annotation_written(*ann),
            remains(old(out)@, whole, out@, elements_alone(m, keys, i as nat)),
        decreases elems@.len() - i,
    {
        let elem: (u32, &EncodedValue) = elems[i];
        assert(elems@[i as int].0 == keys[i as int]);
        write_uleb128(out, elem.0);
        match emit_encoded_value(out, elem.1) {
            Ok(_) => {},
            Err(e) => {
                assert(out@ =~= old(out)@ + whole.bytes);
                return Err(e);
            },
        }
        i = i + 1;
    }
    Ok(())
}

/// Appends the body of `ann` with recorded widths.
pub fn emit_encoded_annotation_with_widths(
    out: &mut Vec<u8>,
    ann: &EncodedAnnotation,
    widths: &[u8],
) -> (r: Result<(), DexEmitError>)
    ensures
        body_deep(*ann, widths@, 0).w.appends(old(out)@, final(out)@, r),
{
    let mut pos: usize = 0;
    emit_encoded_annotation_body(out, ann, widths, &mut pos)
}

/// Appends `item` with recorded widths: its visibility, then its body.
pub fn emit_annotation_item_with_widths(
    out: &mut Vec<u8>,
    item: &AnnotationItem,
    widths: &[u8],
) -> (r: Result<(), DexEmitError>)
    ensures
        done(seq![item.visibility]).and(body_deep(item.annotation, widths@, 0).w).appends(
            old(out)@,
            final(out)@,
            r,
        ),
{
    out.push(item.visibility);
    let r = emit_encoded_annotation_with_widths(out, &item.annotation, widths);
    assert(out@ =~= old(out)@ + (seq![item.visibility] + body_deep(
        item.annotation,
        widths@,
        0,
    ).w.bytes));
    r
}

/// The values of an array that stands by itself, from position `i` on.
pub open spec fn values_alone(values: Seq<EncodedValue>, i: nat) -> Written
    decreases values.len() - i,
{
    if i >= values.len() {
        done(Seq::empty())
    } else {
        value_written(values[i as int], 0).and(values_alone(values, i + 1))
    }
}

/// An array that stands by itself: its length, then its values, at recorded
/// widths where there are any.
pub open spec fn array_written(values: Seq<EncodedValue>, widths: Option<Seq<u8>>) -> Written {
    count32(values.len(), "encoded_array_item", "array length exceeds u32").and(
        match widths {
            None => values_alone(values, 0),
            Some(ws) => items_deep(values, 0, ws, 0).w,
        },
    )
}

/// The widths as a sequence.
pub open spec fn width_seq(widths: Option<&[u8]>) -> Option<Seq<u8>> {
    match widths {
        None => None,
        Some(ws) => Some(ws@),
    }
}

/// The encoding of an array of constants.
pub fn emit_encoded_array(values: &[EncodedValue]) -> (r: Result<Vec<u8>, DexEmitError>)
    ensures
        gives(r, array_written(values@, None).result()),
{
    emit_encoded_array_with_widths(values, None)
}

/// The encoding of an array of constants, at recorded widths where there are any.
pub fn emit_encoded_array_with_widths(values: &[EncodedValue], widths: Option<&[u8]>) -> (r: Result<
    Vec<u8>,
    DexEmitError,
>)
    ensures
        gives(r, array_written(values@, width_seq(widths)).result()),
{
    let ghost whole = array_written(values@, width_seq(widths));
    let mut out: Vec<u8> = Vec::new();
    if values.len() > u32::MAX as usize {
        return Err(
            DexEmitError::SizeOverflow {
                layer: "encoded_array_item",
                context: "array length exceeds u32",
            },
        );
    }
    write_uleb128(&mut out, values.len() as u32);
    let mut i: usize = 0;
    match widths {
        None => {
            while i < values.len()
                invariant
                    i <= values@.len(),
                    width_seq(widths) is None,
                    whole == array_written(values@, None),
                    remains(Seq::empty(), whole, out@, values_alone(values@, i as nat)),
                decreases values@.len() - i,
            {
                match emit_encoded_value(&mut out, &values[i]) {
                    Ok(_) => {},
                    Err(e) => return Err(e),
                }
                i = i + 1;
            }
        },
        Some(ws) => {
            let mut pos: usize = 0;
            while i < values.len()
                invariant
                    i <= values@.len(),
                    pos <= ws@.len(),
                    width_seq(widths) == Some(ws@),
                    whole == array_written(values@, Some(ws@)),
                    remains(
                        Seq::empty(),
                        whole,
                        out@,
                        items_deep(values@, i as nat, ws@, pos as nat).w,
                    ),
                decreases values@.len() - i,
            {
                match emit_encoded_value_deep_widths(&mut out, &values[i], ws, &mut pos) {
                    Ok(_) => {},
                    Err(e) => return Err(e),
                }
                i = i + 1;
            }
        },
    }
    assert(out@ =~= whole.bytes);
    Ok(out)
}

/// A count of differences, and which recorded width comes next.
pub struct Tally {
    pub count: nat,
    pub next: nat,
}

/// How many numbers in `v` have a recorded width above the least one. The first
/// unused recorded width is at `k`; numbers past the last one are not counted, and
/// neither are floats, which are always written in full.
pub open spec fn value_tally(v: EncodedValue, ws: Seq<u8>, k: nat) -> Tally
    decreases v, 0nat,
{
    match v {
        EncodedValue::Array(items) => items_tally(items@, 0, ws, k),
        EncodedValue::Annotation(ann) => body_tally(ann, ws, k),
        EncodedValue::Null => Tally { count: 0, next: k },
        EncodedValue::Boolean(_) => Tally { count: 0, next: k },
        _ => if k < ws.len() {
            Tally {
                count: if v is Float || v is Double {
                    0
                } else if emit_width(v) matches Some(w) && ws[k as int] > w {
                    1
                } else {
                    0
                },
                next: k + 1,
            }
        } else {
            Tally { count: 0, next: k }
        },
    }
}

pub open spec fn items_tally(items: Seq<EncodedValue>, i: nat, ws: Seq<u8>, k: nat) -> Tally
    decreases items, items.len() - i,
{
    if i >= items.len() {
        Tally { count: 0, next: k }
    } else {
        let first = value_tally(items[i as int], ws, k);
        let rest = items_tally(items, i + 1, ws, first.next);
        Tally { count: first.count + rest.count, next: rest.next }
    }
}

pub open spec fn body_tally(ann: EncodedAnnotation, ws: Seq<u8>, k: nat) -> Tally
    decreases ann, 1nat,
{
    elements_tally(ann.elements@, sorted_keys(ann.elements@), 0, ws, k)
}

pub open spec fn elements_tally(
    m: Map<u32, EncodedValue>,
    keys: Seq<u32>,
    i: nat,
    ws: Seq<u8>,
    k: nat,
) -> Tally
    decreases m, keys.len() - i,
{
    if i >= keys.len() || !m.contains_key(keys[i as int]) || !m.dom().finite() {
        Tally { count: 0, next: k }
    } else {
        let first = value_tally(m[keys[i as int]], ws, k);
        let rest = elements_tally(m, keys, i + 1, ws, first.next);
        Tally { count: first.count + rest.count, next: rest.next }
    }
}

/// `n`, or `u32::MAX` where it is larger.
pub open spec fn capped(n: nat) -> u32 {
    if n <= u32::MAX {
        n as u32
    } else {
        u32::MAX
    }
}

/// Adds the differences in `val` to `*count`, which saturates.
fn walk_count_divergences(val: &EncodedValue, widths: &[u8], pos: &mut usize, count: &mut u32)
    requires
        *old(pos) <= widths@.len(),
    ensures
        *final(pos) == value_tally(*val, widths@, *old(pos) as nat).next,
        *final(pos) <= widths@.len(),
        *final(count) == capped(
            *old(count) as nat + value_tally(*val, widths@, *old(pos) as nat).count,
        ),
    decreases *val, 0nat,
{
    let ghost k0 = *pos as nat;
    let ghost c0 = *count as nat;
    match val {
        EncodedValue::Array(items) => {
            let ghost whole = value_tally(*val, widths@, k0);
            let ghost mut seen: nat = 0;
            let mut i: usize = 0;
            while i < items.len()
                invariant
                    i <= items@.len(),
                    *val == EncodedValue::Array(*items),
                    *pos <= widths@.len(),
                    whole.count == seen + items_tally(
                        items@,
                        i as nat,
                        widths@,
                        *pos as nat,
                    ).count,
                    whole.next == items_tally(items@, i as nat, widths@, *pos as nat).next,
                    *count == capped(c0 + seen),
                decreases items@.len() - i,
            {
                assert(decreases_to!(*val => val->Array_0));
                assert(decreases_to!(*items => items@));
                assert(decreases_to!(items@ => items@[i as int]));
                proof {
                    seen = seen + value_tally(items@[i as int], widths@, *pos as nat).count;
                }
                walk_count_divergences(&items[i], widths, pos, count);
                i = i + 1;
            }
        },
        EncodedValue::Annotation(ann) => {
            walk_annotation(ann, widths, pos, count);
        },
        EncodedValue::Null => {},
        EncodedValue::Boolean(_) => {},
        EncodedValue::Float(_) | EncodedValue::Double(_) => {
            if *pos < widths.len() {
                *pos = *pos + 1;
            }
        },
        _ => {
            if *pos < widths.len() {
                let w: u8 = widths[*pos];
                *pos = *pos + 1;
                match encoded_value_min_emit_width(val) {
                    None => {},
                    Some(least) => {
                        if w > least {
                            *count = count.saturating_add(1);
                        }
                    },
                }
            }
        },
    }
}

fn walk_annotation(ann: &EncodedAnnotation, widths: &[u8], pos: &mut usize, count: &mut u32)
    requires
        *old(pos) <= widths@.len(),
    ensures
        *final(pos) == body_tally(*ann, widths@, *old(pos) as nat).next,
        *final(pos) <= widths@.len(),
        *final(count) == capped(
            *old(count) as nat + body_tally(*ann, widths@, *old(pos) as nat).count,
        ),
    decreases *ann, 1nat,
{
    broadcast use vstd::std_specs::btree::group_btree_axioms;

    let ghost c0 = *count as nat;
    let ghost whole = body_tally(*ann, widths@, *pos as nat);
    let ghost m = ann.elements@;
    let ghost keys = sorted_keys(m);
    let elems = entries(&ann.elements);
    let ghost mut seen: nat = 0;
    let mut i: usize = 0;
    while i < elems.len()
        invariant
            i <= elems@.len(),
            m == ann.elements@,
            m.dom().finite(),
            elems@.len() == keys.len(),
            forall|i: int|
                #![trigger elems@[i]]
                0 <= i < elems@.len() ==> elems@[i].0 == keys[i] && m.contains_key(elems@[i].0)
                    && m[elems@[i].0] == *elems@[i].1,
            *pos <= widths@.len(),
            whole.count == seen + elements_tally(m, keys, i as nat, widths@, *pos as nat).count,
            whole.next == elements_tally(m, keys, i as nat, widths@, *pos as nat).next,
            *count == capped(c0 + seen),
        decreases elems@.len() - i,
    {
        let elem: (u32, &EncodedValue) = elems[i];
        assert(elems@[i as int].0 == keys[i as int]);
        assert(decreases_to!(*ann => ann.elements@));
        assert(decreases_to!(m => m[keys[i as int]]));
        proof {
            seen = seen + value_tally(m[keys[i as int]], widths@, *pos as nat).count;
        }
        walk_count_divergences(elem.1, widths, pos, count);
        i = i + 1;
    }
}

/// Differences in the arrays from position `i` on; arrays without recorded widths
/// do not count.
pub open spec fn arrays_tally(
    arrays: Map<u32, Vec<EncodedValue>>,
    widths: Map<u32, Vec<u8>>,
    keys: Seq<u32>,
    i: nat,
) -> nat
    decreases keys.len() - i,
{
    if i >= keys.len() {
        0
    } else {
        let k = keys[i as int];
        (if widths.contains_key(k) {
            items_tally(arrays[k]@, 0, widths[k]@, 0).count
        } else {
            0
        }) + arrays_tally(arrays, widths, keys, i + 1)
    }
}

/// How many numbers in the encoded arrays of a file have a recorded width above the
/// least one. Annotations are not counted.
pub open spec fn width_divergences(dex: DexFile) -> nat {
    arrays_tally(
        dex.encoded_arrays@,
        dex.encoded_array_widths@,
        sorted_keys(dex.encoded_arrays@),
        0,
    )
}

/// The widths recorded at `key`.
pub fn widths_at(widths: &BTreeMap<u32, Vec<u8>>, key: u32) -> (r: Option<&Vec<u8>>)
    ensures
        match r {
            Some(w) => widths@.contains_key(key) && *w == widths@[key],
            None => !widths@.contains_key(key),
        },
{
    bound(widths, key)
}

/// How many numbers in the encoded arrays of a file have a recorded width above the
/// least one; at most `u32::MAX`.
pub fn count_encoded_value_width_divergences(dex: &DexFile) -> (r: u32)
    ensures
        r == capped(width_divergences(*dex)),
{
    let mut count: u32 = 0;
    let ghost mut seen: nat = 0;
    let arrays = entries(&dex.encoded_arrays);
    let ghost keys = sorted_keys(dex.encoded_arrays@);
    let ghost total = arrays_tally(dex.encoded_arrays@, dex.encoded_array_widths@, keys, 0);
    let mut i: usize = 0;
    while i < arrays.len()
        invariant
            i <= arrays@.len(),
            arrays@.len() == keys.len(),
            forall|i: int|
                #![trigger arrays@[i]]
                0 <= i < arrays@.len() ==> arrays@[i].0 == keys[i] && dex.encoded_arrays@[keys[i]]
                    == *arrays@[i].1,
            total == seen + arrays_tally(
                dex.encoded_arrays@,
                dex.encoded_array_widths@,
                keys,
                i as nat,
            ),
            count == capped(seen),
        decreases arrays@.len() - i,
    {
        let entry: (u32, &Vec<EncodedValue>) = arrays[i];
        assert(arrays@[i as int].0 == keys[i as int]);
        match widths_at(&dex.encoded_array_widths, entry.0) {
            None => {},
            Some(ws) => {
                let values: &Vec<EncodedValue> = entry.1;
                let ghost start = seen;
                let ghost part = items_tally(values@, 0, ws@, 0).count;
                let mut pos: usize = 0;
                let mut j: usize = 0;
                while j < values.len()
                    invariant
                        j <= values@.len(),
                        pos <= ws@.len(),
                        start + part == seen + items_tally(
                            values@,
                            j as nat,
                            ws@,
                            pos as nat,
                        ).count,
                        count == capped(seen),
                    decreases values@.len() - j,
                {
                    proof {
                        seen = seen + value_tally(values@[j as int], ws@, pos as nat).count;
                    }
                    walk_count_divergences(&values[j], ws.as_slice(), &mut pos, &mut count);
                    j = j + 1;
                }
            },
        }
        i = i + 1;
    }
    count
}

} // verus!
