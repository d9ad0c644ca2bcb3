//! Constants: a header byte with the type in its low five bits and a size or flag
//! in its high three, then a payload.
use vstd::prelude::*;

use crate::annotation::{EncodedAnnotation, EncodedValue};
use crate::bytes::{i64_bits, le_low, twos64, twos8, write_le_bytes};
use crate::collections::{entries, sorted_keys};
use crate::emit_dex::error::DexEmitError;
use crate::emit_dex::written::{done, failed, remains, unrepresentable, Written};
use crate::leb128::{uleb, write_uleb128};

verus! {

pub const VT_BYTE: u8 = 0x00;
pub const VT_SHORT: u8 = 0x02;
pub const VT_CHAR: u8 = 0x03;
pub const VT_INT: u8 = 0x04;
pub const VT_LONG: u8 = 0x06;
pub const VT_FLOAT: u8 = 0x10;
pub const VT_DOUBLE: u8 = 0x11;
pub const VT_METHOD_TYPE: u8 = 0x15;
pub const VT_METHOD_HANDLE: u8 = 0x16;
pub const VT_STRING: u8 = 0x17;
pub const VT_TYPE: u8 = 0x18;
pub const VT_FIELD: u8 = 0x19;
pub const VT_METHOD: u8 = 0x1a;
pub const VT_ENUM: u8 = 0x1b;
pub const VT_ARRAY: u8 = 0x1c;
pub const VT_ANNOTATION: u8 = 0x1d;
pub const VT_NULL: u8 = 0x1e;
pub const VT_BOOLEAN: u8 = 0x1f;

/// Upper bound on the tasks that may be pending while a value is written.
pub const EMIT_STACK_CAP: usize = 65_536;

/// The least number of bytes whose two's-complement range holds `v`.
pub open spec fn signed_width(v: int) -> nat {
    if -0x80 <= v < 0x80 {
        1
    } else if -0x8000 <= v < 0x8000 {
        2
    } else if -0x80_0000 <= v < 0x80_0000 {
        3
    } else if -0x8000_0000 <= v < 0x8000_0000 {
        4
    } else if -0x80_0000_0000 <= v < 0x80_0000_0000 {
        5
    } else if -0x8000_0000_0000 <= v < 0x8000_0000_0000 {
        6
    } else if -0x80_0000_0000_0000 <= v < 0x80_0000_0000_0000 {
        7
    } else {
        8
    }
}

/// The least number of bytes, at least one, whose unsigned range holds `v`.
pub open spec fn unsigned_width(v: int) -> nat {
    if v < 0x100 {
        1
    } else if v < 0x1_0000 {
        2
    } else if v < 0x100_0000 {
        3
    } else if v < 0x1_0000_0000 {
        4
    } else if v < 0x100_0000_0000 {
        5
    } else if v < 0x1_0000_0000_0000 {
        6
    } else if v < 0x100_0000_0000_0000 {
        7
    } else {
        8
    }
}

/// The least number of bytes that hold `val` with its sign.
pub fn min_signed_bytes(val: i64) -> (r: usize)
    ensures
        r == signed_width(val as int),
{
    if -0x80 <= val && val < 0x80 {
        1
    } else if -0x8000 <= val && val < 0x8000 {
        2
    } else if -0x80_0000 <= val && val < 0x80_0000 {
        3
    } else if -0x8000_0000 <= val && val < 0x8000_0000 {
        4
    } else if -0x80_0000_0000 <= val && val < 0x80_0000_0000 {
        5
    } else if -0x8000_0000_0000 <= val && val < 0x8000_0000_0000 {
        6
    } else if -0x80_0000_0000_0000 <= val && val < 0x80_0000_0000_0000 {
        7
    } else {
        8
    }
}

/// The least number of bytes, at least one, that hold `val`.
pub fn min_unsigned_bytes(val: u64) -> (r: usize)
    ensures
        r == unsigned_width(val as int),
{
    if val < 0x100 {
        1
    } else if val < 0x1_0000 {
        2
    } else if val < 0x100_0000 {
        3
    } else if val < 0x1_0000_0000 {
        4
    } else if val < 0x100_0000_0000 {
        5
    } else if val < 0x1_0000_0000_0000 {
        6
    } else if val < 0x100_0000_0000_0000 {
        7
    } else {
        8
    }
}

/// A number: type and size in the header byte, then its low `size` bytes.
pub open spec fn number(tag: u8, raw: u64, size: nat) -> Seq<u8> {
    seq![(tag + (size - 1) * 32) as u8] + le_low(raw, size)
}

/// A number written in `width` bytes of the possible ones: its tag, its 64-bit
/// pattern, the least width that keeps its value and the widest allowed.
pub struct Num {
    pub tag: u8,
    pub raw: u64,
    pub least: nat,
    pub most: nat,
}

/// The numeric shape of an integer or index; `None` for everything else.
pub open spec fn num_of(v: EncodedValue) -> Option<Num> {
    match v {
        EncodedValue::Short(s) => Some(
            Num { tag: VT_SHORT, raw: twos64(s as int), least: signed_width(s as int), most: 2 },
        ),
        EncodedValue::Char(c) => Some(
            Num { tag: VT_CHAR, raw: c as u64, least: unsigned_width(c as int), most: 2 },
        ),
        EncodedValue::Int(i) => Some(
            Num { tag: VT_INT, raw: twos64(i as int), least: signed_width(i as int), most: 4 },
        ),
        EncodedValue::Long(l) => Some(
            Num { tag: VT_LONG, raw: twos64(l as int), least: signed_width(l as int), most: 8 },
        ),
        EncodedValue::String(x) => Some(index_num(VT_STRING, x.0)),
        EncodedValue::Type(x) => Some(index_num(VT_TYPE, x.0)),
        EncodedValue::Field(x) => Some(index_num(VT_FIELD, x.0)),
        EncodedValue::Method(x) => Some(index_num(VT_METHOD, x.0)),
        EncodedValue::Enum(x) => Some(index_num(VT_ENUM, x.0)),
        EncodedValue::MethodType(x) => Some(index_num(VT_METHOD_TYPE, x.0)),
        EncodedValue::MethodHandle(x) => Some(index_num(VT_METHOD_HANDLE, x.0)),
        _ => None,
    }
}

pub open spec fn index_num(tag: u8, x: u32) -> Num {
    Num { tag, raw: x as u64, least: unsigned_width(x as int), most: 4 }
}

/// The encoding of a value that holds no other values. Integers and indices take
/// the least width, floating-point numbers their full width.
pub open spec fn leaf(v: EncodedValue) -> Seq<u8> {
    match v {
        EncodedValue::Byte(b) => seq![VT_BYTE, twos8(b as int)],
        EncodedValue::Float(bits) => number(VT_FLOAT, bits as u64, 4),
        EncodedValue::Double(bits) => number(VT_DOUBLE, bits, 8),
        EncodedValue::Null => seq![VT_NULL],
        EncodedValue::Boolean(b) => seq![(VT_BOOLEAN + if b { 32int } else { 0 }) as u8],
        _ => match num_of(v) {
            Some(n) => number(n.tag, n.raw, n.least),
            None => Seq::empty(),
        },
    }
}

/// A count that must fit in 32 bits.
pub open spec fn count32(n: nat, layer: &'static str, context: &'static str) -> Written {
    if n > u32::MAX {
        failed(DexEmitError::SizeOverflow { layer, context })
    } else {
        done(uleb(n))
    }
}

/// The encoding of a value while `pending` other tasks wait. Too many waiting
/// tasks are an error.
pub open spec fn value_written(v: EncodedValue, pending: nat) -> Written
    decreases v, 0nat,
{
    match v {
        EncodedValue::Array(items) => done(seq![VT_ARRAY]).and(
            count32(items@.len(), "encoded_array", "length exceeds u32"),
        ).and(
            if items@.len() > 0 && pending + items@.len() > EMIT_STACK_CAP {
                unrepresentable(
                    "encoded_array emit work-stack exceeded cap (hand-built IR too deeply nested)",
                )
            } else {
                items_written(items@, 0, pending)
            },
        ),
        EncodedValue::Annotation(ann) => done(seq![VT_ANNOTATION]).and(
            if pending >= EMIT_STACK_CAP {
                unrepresentable(
                    "encoded_annotation emit work-stack exceeded cap (hand-built IR too deeply nested)",
                )
            } else {
                body_written(ann, pending)
            },
        ),
        _ => done(leaf(v)),
    }
}

/// The encodings of the items from position `i` on.
pub open spec fn items_written(items: Seq<EncodedValue>, i: nat, pending: nat) -> Written
    decreases items, items.len() - i,
{
    if i >= items.len() {
        done(Seq::empty())
    } else {
        value_written(items[i as int], (pending + (items.len() - 1 - i)) as nat).and(
            items_written(items, i + 1, pending),
        )
    }
}

/// The body of an annotation: its type, its number of elements, and the elements
/// by ascending name index.
pub open spec fn body_written(ann: EncodedAnnotation, pending: nat) -> Written
    decreases ann, 1nat,
{
    let keys = sorted_keys(ann.elements@);
    done(uleb(ann.type_idx.0 as nat)).and(
        count32(keys.len(), "encoded_annotation", "element count exceeds u32"),
    ).and(
        if keys.len() > 0 && pending + 2 * keys.len() > EMIT_STACK_CAP {
            unrepresentable(
                "encoded_annotation emit work-stack exceeded cap (hand-built IR too deeply nested)",
            )
        } else {
            elements_written(ann.elements@, keys, 0, pending)
        },
    )
}

/// The elements from position `i` on, each with its name index before it.
pub open spec fn elements_written(
    m: Map<u32, EncodedValue>,
    keys: Seq<u32>,
    i: nat,
    pending: nat,
) -> Written
    decreases m, keys.len() - i,
{
    if i >= keys.len() || !m.contains_key(keys[i as int]) || !m.dom().finite() {
        done(Seq::empty())
    } else {
        done(uleb(keys[i as int] as nat)).and(
            value_written(m[keys[i as int]], (pending + 2 * (keys.len() - 1 - i)) as nat),
        ).and(elements_written(m, keys, i + 1, pending))
    }
}

/// Steps can be grouped in any way.
pub proof fn and_is_associative(a: Written, b: Written, c: Written)
    ensures
        a.and(b).and(c) == a.and(b.and(c)),
{
    assert(a.and(b).and(c) =~= a.and(b.and(c)));
}

/// Whether a value holds other values.
pub open spec fn is_composite(v: EncodedValue) -> bool {
    v is Array || v is Annotation
}

fn push_number(out: &mut Vec<u8>, tag: u8, raw: u64, size: usize)
    requires
        1 <= size <= 8,
        tag < 32,
    ensures
        final(out)@ == old(out)@ + number(tag, raw, size as nat),
{
    out.push(tag + (size as u8 - 1) * 32);
    write_le_bytes(out, raw, size);
    assert(out@ =~= old(out)@ + number(tag, raw, size as nat));
}

fn push_signed_number(out: &mut Vec<u8>, tag: u8, v: i64)
    requires
        tag < 32,
    ensures
        final(out)@ == old(out)@ + number(tag, twos64(v as int), signed_width(v as int)),
{
    push_number(out, tag, i64_bits(v), min_signed_bytes(v));
}

fn push_unsigned_number(out: &mut Vec<u8>, tag: u8, v: u64)
    requires
        tag < 32,
    ensures
        final(out)@ == old(out)@ + number(tag, v, unsigned_width(v as int)),
{
    push_number(out, tag, v, min_unsigned_bytes(v));
}

fn push_leaf(out: &mut Vec<u8>, v: &EncodedValue)
    requires
        !is_composite(*v),
    ensures
        final(out)@ == old(out)@ + leaf(*v),
{
    match v {
        EncodedValue::Byte(b) => {
            out.push(VT_BYTE);
            out.push(if *b < 0 { (*b as i16 + 0x100) as u8 } else { *b as u8 });
            assert(out@ =~= old(out)@ + leaf(*v));
        },
        EncodedValue::Short(x) => push_signed_number(out, VT_SHORT, *x as i64),
        EncodedValue::Char(x) => push_unsigned_number(out, VT_CHAR, *x as u64),
        EncodedValue::Int(x) => push_signed_number(out, VT_INT, *x as i64),
        EncodedValue::Long(x) => push_signed_number(out, VT_LONG, *x),
        EncodedValue::Float(bits) => push_number(out, VT_FLOAT, *bits as u64, 4),
        EncodedValue::Double(bits) => push_number(out, VT_DOUBLE, *bits, 8),
        EncodedValue::String(x) => push_unsigned_number(out, VT_STRING, x.0 as u64),
        EncodedValue::Type(x) => push_unsigned_number(out, VT_TYPE, x.0 as u64),
        EncodedValue::Field(x) => push_unsigned_number(out, VT_FIELD, x.0 as u64),
        EncodedValue::Method(x) => push_unsigned_number(out, VT_METHOD, x.0 as u64),
        EncodedValue::Enum(x) => push_unsigned_number(out, VT_ENUM, x.0 as u64),
        EncodedValue::MethodType(x) => push_unsigned_number(out, VT_METHOD_TYPE, x.0 as u64),
        EncodedValue::MethodHandle(x) => push_unsigned_number(out, VT_METHOD_HANDLE, x.0 as u64),
        EncodedValue::Null => {
            out.push(VT_NULL);
            assert(out@ =~= old(out)@ + leaf(*v));
        },
        EncodedValue::Boolean(b) => {
            out.push(if *b { VT_BOOLEAN + 32 } else { VT_BOOLEAN });
            assert(out@ =~= old(out)@ + leaf(*v));
        },
        EncodedValue::Array(_) => {},
        EncodedValue::Annotation(_) => {},
    }
}

/// Work that remains to be done. The last task of a list is done first.
pub enum EmitTask<'a> {
    /// Write a value.
    Value(&'a EncodedValue),
    /// Write the body of an annotation.
    AnnBody(&'a EncodedAnnotation),
    /// Write a number.
    Uleb128(u32),
}

/// What a task writes while `pending` others wait.
pub open spec fn task_written(t: EmitTask<'_>, pending: nat) -> Written {
    match t {
        EmitTask::Value(v) => value_written(*v, pending),
        EmitTask::AnnBody(a) => body_written(*a, pending),
        EmitTask::Uleb128(n) => done(uleb(n as nat)),
    }
}

/// What a list of tasks writes.
pub open spec fn flushed(stack: Seq<EmitTask<'_>>) -> Written
    decreases stack.len(),
{
    if stack.len() == 0 {
        done(Seq::empty())
    } else {
        task_written(stack.last(), (stack.len() - 1) as nat).and(flushed(stack.drop_last()))
    }
}

spec fn value_weight(v: EncodedValue) -> nat
    decreases v, 0nat,
{
    match v {
        EncodedValue::Array(items) => 1 + items_weight(items@, 0),
        EncodedValue::Annotation(ann) => 1 + body_weight(ann),
        _ => 1,
    }
}

spec fn items_weight(items: Seq<EncodedValue>, i: nat) -> nat
    decreases items, items.len() - i,
{
    if i >= items.len() {
        0
    } else {
        value_weight(items[i as int]) + items_weight(items, i + 1)
    }
}

spec fn body_weight(ann: EncodedAnnotation) -> nat
    decreases ann, 1nat,
{
    1 + elements_weight(ann.elements@, sorted_keys(ann.elements@), 0)
}

spec fn elements_weight(m: Map<u32, EncodedValue>, keys: Seq<u32>, i: nat) -> nat
    decreases m, keys.len() - i,
{
    if i >= keys.len() || !m.contains_key(keys[i as int]) || !m.dom().finite() {
        0
    } else {
        1 + value_weight(m[keys[i as int]]) + elements_weight(m, keys, i + 1)
    }
}

spec fn task_weight(t: EmitTask<'_>) -> nat {
    match t {
        EmitTask::Value(v) => value_weight(*v),
        EmitTask::AnnBody(a) => body_weight(*a),
        EmitTask::Uleb128(n) => 1,
    }
}

spec fn stack_weight(stack: Seq<EmitTask<'_>>) -> nat
    decreases stack.len(),
{
    if stack.len() == 0 {
        0
    } else {
        task_weight(stack.last()) + stack_weight(stack.drop_last())
    }
}

proof fn lemma_push_task<'a>(stack: Seq<EmitTask<'a>>, t: EmitTask<'a>)
    ensures
        flushed(stack.push(t)) == task_written(t, stack.len()).and(flushed(stack)),
        stack_weight(stack.push(t)) == task_weight(t) + stack_weight(stack),
{
    assert(stack.push(t).drop_last() =~= stack);
}

/// Puts the items of an array on the stack so that the first comes off first.
fn push_items<'a>(stack: &mut Vec<EmitTask<'a>>, items: &'a Vec<EncodedValue>) -> (r: Result<
    (),
    DexEmitError,
>)
    ensures
        ({
            let p = old(stack)@.len();
            let n = items@.len();
            if n > 0 && p + n > EMIT_STACK_CAP {
                r == Err::<(), DexEmitError>(
                    DexEmitError::UnrepresentableIR {
                        why: "encoded_array emit work-stack exceeded cap (hand-built IR too deeply nested)",
                    },
                )
            } else {
                &&& r is Ok
                &&& flushed(final(stack)@) == items_written(items@, 0, p).and(
                    flushed(old(stack)@),
                )
                &&& stack_weight(final(stack)@) == items_weight(items@, 0) + stack_weight(
                    old(stack)@,
                )
            }
        }),
{
    let mut i: usize = items.len();
    while i > 0
        invariant
            i <= items@.len(),
            stack@.len() == old(stack)@.len() + items@.len() - i,
            i < items@.len() ==> stack@.len() <= EMIT_STACK_CAP,
            flushed(stack@) == items_written(items@, i as nat, old(stack)@.len()).and(
                flushed(old(stack)@),
            ),
            stack_weight(stack@) == items_weight(items@, i as nat) + stack_weight(old(stack)@),
        decreases i,
    {
        if stack.len() >= EMIT_STACK_CAP {
            return Err(
                DexEmitError::UnrepresentableIR {
                    why: "encoded_array emit work-stack exceeded cap (hand-built IR too deeply nested)",
                },
            );
        }
        let ghost before = stack@;
        i = i - 1;
        stack.push(EmitTask::Value(&items[i]));
        proof {
            lemma_push_task(before, stack@.last());
            assert(stack@ =~= before.push(stack@.last()));
            and_is_associative(
                value_written(items@[i as int], before.len()),
                items_written(items@, (i + 1) as nat, old(stack)@.len()),
                flushed(old(stack)@),
            );
        }
    }
    Ok(())
}

/// Puts the elements of an annotation on the stack so that the first comes off
/// first, its name before its value.
fn push_elements<'a>(stack: &mut Vec<EmitTask<'a>>, elems: &Vec<(u32, &'a EncodedValue)>, Ghost(
    m,
): Ghost<Map<u32, EncodedValue>>) -> (r: Result<(), DexEmitError>)
    requires
        m.dom().finite(),
        elems@.len() == sorted_keys(m).len(),
        forall|i: int|
            #![trigger elems@[i]]
            0 <= i < elems@.len() ==> elems@[i].0 == sorted_keys(m)[i] && m.contains_key(
                elems@[i].0,
            ) && m[elems@[i].0] == *elems@[i].1,
    ensures
        ({
            let p = old(stack)@.len();
            let keys = sorted_keys(m);
            if keys.len() > 0 && p + 2 * keys.len() > EMIT_STACK_CAP {
                r == Err::<(), DexEmitError>(
                    DexEmitError::UnrepresentableIR {
                        why: "encoded_annotation emit work-stack exceeded cap (hand-built IR too deeply nested)",
                    },
                )
            } else {
                &&& r is Ok
                &&& flushed(final(stack)@) == elements_written(m, keys, 0, p).and(
                    flushed(old(stack)@),
                )
                &&& stack_weight(final(stack)@) == elements_weight(m, keys, 0) + stack_weight(
                    old(stack)@,
                )
            }
        }),
{
    let ghost keys = sorted_keys(m);
    let mut i: usize = elems.len();
    while i > 0
        invariant
            i <= elems@.len(),
            m.dom().finite(),
            elems@.len() == keys.len(),
            keys == sorted_keys(m),
            forall|i: int|
                #![trigger elems@[i]]
                0 <= i < elems@.len() ==> elems@[i].0 == keys[i] && m.contains_key(elems@[i].0)
                    && m[elems@[i].0] == *elems@[i].1,
            stack@.len() == old(stack)@.len() + 2 * (elems@.len() - i),
            i < elems@.len() ==> stack@.len() <= EMIT_STACK_CAP,
            flushed(stack@) == elements_written(m, keys, i as nat, old(stack)@.len()).and(
                flushed(old(stack)@),
            ),
            stack_weight(stack@) == elements_weight(m, keys, i as nat) + stack_weight(old(stack)@),
        decreases i,
    {
        if stack.len() >= EMIT_STACK_CAP - 1 {
            return Err(
                DexEmitError::UnrepresentableIR {
                    why: "encoded_annotation emit work-stack exceeded cap (hand-built IR too deeply nested)",
                },
            );
        }
        let ghost before = stack@;
        i = i - 1;
        let elem: (u32, &'a EncodedValue) = elems[i];
        stack.push(EmitTask::Value(elem.1));
        let ghost middle = stack@;
        stack.push(EmitTask::Uleb128(elem.0));
        proof {
            assert(elems@[i as int].0 == keys[i as int]);
            lemma_push_task(before, middle.last());
            lemma_push_task(middle, stack@.last());
            assert(middle =~= before.push(middle.last()));
            assert(stack@ =~= middle.push(stack@.last()));
            let name = done(uleb(keys[i as int] as nat));
            let val = value_written(m[keys[i as int]], before.len());
            let rest = elements_written(m, keys, (i + 1) as nat, old(stack)@.len());
            let base = flushed(old(stack)@);
            and_is_associative(val, rest, base);
            and_is_associative(name, val.and(rest), base);
            and_is_associative(name, val, rest);
        }
    }
    Ok(())
}

/// Does one task: writes what can be written at once and leaves the rest on the
/// stack.
spec fn task_step(
    task: EmitTask<'_>,
    old_stack: Seq<EmitTask<'_>>,
    new_stack: Seq<EmitTask<'_>>,
    old_out: Seq<u8>,
    new_out: Seq<u8>,
    r: Result<(), DexEmitError>,
) -> bool {
    let w = task_written(task, old_stack.len());
    match r {
        Ok(_) => {
            &&& remains(old_out, w.and(flushed(old_stack)), new_out, flushed(new_stack))
            &&& stack_weight(new_stack) < task_weight(task) + stack_weight(old_stack)
        },
        Err(e) => w.fault == Some(e) && new_out == old_out + w.bytes,
    }
}

fn write_body<'a>(
    out: &mut Vec<u8>,
    stack: &mut Vec<EmitTask<'a>>,
    ann: &'a EncodedAnnotation,
) -> (r: Result<(), DexEmitError>)
    ensures
        task_step(
            EmitTask::AnnBody(ann),
            old(stack)@,
            final(stack)@,
            old(out)@,
            final(out)@,
            r,
        ),
{
    broadcast use vstd::std_specs::btree::group_btree_axioms;

    let elems = entries(&ann.elements);
    write_uleb128(out, ann.type_idx.0);
    if elems.len() > u32::MAX as usize {
        assert(out@ =~= old(out)@ + body_written(*ann, old(stack)@.len()).bytes);
        return Err(
            DexEmitError::SizeOverflow {
                layer: "encoded_annotation",
                context: "element count exceeds u32",
            },
        );
    }
    write_uleb128(out, elems.len() as u32);
    let ghost w = body_written(*ann, old(stack)@.len());
    match push_elements(stack, &elems, Ghost(ann.elements@)) {
        Ok(_) => {
            assert(old(out)@ + w.and(flushed(old(stack)@)).bytes =~= out@ + flushed(
                stack@,
            ).bytes);
            Ok(())
        },
        Err(e) => {
            assert(out@ =~= old(out)@ + w.bytes);
            Err(e)
        },
    }
}

fn write_array<'a>(
    out: &mut Vec<u8>,
    stack: &mut Vec<EmitTask<'a>>,
    v: &'a EncodedValue,
    items: &'a Vec<EncodedValue>,
) -> (r: Result<(), DexEmitError>)
    requires
        *v == EncodedValue::Array(*items),
    ensures
        task_step(EmitTask::Value(v), old(stack)@, final(stack)@, old(out)@, final(out)@, r),
{
    let ghost w = value_written(*v, old(stack)@.len());
    out.push(VT_ARRAY);
    if items.len() > u32::MAX as usize {
        assert(out@ =~= old(out)@ + w.bytes);
        return Err(
            DexEmitError::SizeOverflow { layer: "encoded_array", context: "length exceeds u32" },
        );
    }
    write_uleb128(out, items.len() as u32);
    match push_items(stack, items) {
        Ok(_) => {
            assert(old(out)@ + w.and(flushed(old(stack)@)).bytes =~= out@ + flushed(
                stack@,
            ).bytes);
            Ok(())
        },
        Err(e) => {
            assert(out@ =~= old(out)@ + w.bytes);
            Err(e)
        },
    }
}

fn do_task<'a>(out: &mut Vec<u8>, stack: &mut Vec<EmitTask<'a>>, task: EmitTask<'a>) -> (r:
    Result<(), DexEmitError>)
    ensures
        task_step(task, old(stack)@, final(stack)@, old(out)@, final(out)@, r),
{
    match task {
        EmitTask::Uleb128(v) => {
            write_uleb128(out, v);
            assert(old(out)@ + task_written(task, stack@.len()).and(flushed(stack@)).bytes
                =~= out@ + flushed(stack@).bytes);
            Ok(())
        },
        EmitTask::AnnBody(ann) => write_body(out, stack, ann),
        EmitTask::Value(v) => match v {
            EncodedValue::Array(items) => write_array(out, stack, v, items),
            EncodedValue::Annotation(ann) => {
                let ghost w = value_written(*v, stack@.len());
                out.push(VT_ANNOTATION);
                if stack.len() >= EMIT_STACK_CAP {
                    assert(out@ =~= old(out)@ + w.bytes);
                    return Err(
                        DexEmitError::UnrepresentableIR {
                            why: "encoded_annotation emit work-stack exceeded cap (hand-built IR too deeply nested)",
                        },
                    );
                }
                stack.push(EmitTask::AnnBody(ann));
                proof {
                    lemma_push_task(old(stack)@, EmitTask::AnnBody(ann));
                    assert(stack@ =~= old(stack)@.push(EmitTask::AnnBody(ann)));
                }
                assert(old(out)@ + w.and(flushed(old(stack)@)).bytes =~= out@ + flushed(
                    stack@,
                ).bytes);
                Ok(())
            },
            _ => {
                push_leaf(out, v);
                assert(old(out)@ + value_written(*v, stack@.len()).and(flushed(stack@)).bytes
                    =~= out@ + flushed(stack@).bytes);
                Ok(())
            },
        },
    }
}

/// Appends the encoding of `val`. Nested values are written from an explicit list
/// of tasks, so nesting costs no call depth; a list that grows past
/// [`EMIT_STACK_CAP`] is an error.
pub fn emit_encoded_value(out: &mut Vec<u8>, val: &EncodedValue) -> (r: Result<(), DexEmitError>)
    ensures
        value_written(*val, 0).appends(old(out)@, final(out)@, r),
{
    let mut stack: Vec<EmitTask<'_>> = Vec::new();
    stack.push(EmitTask::Value(val));
    let ghost whole = value_written(*val, 0);
    proof {
        lemma_push_task(Seq::empty(), EmitTask::Value(val));
        assert(stack@ =~= Seq::empty().push(EmitTask::Value(val)));
        assert(flushed(stack@) =~= whole);
    }
    while stack.len() > 0
        invariant
            whole == value_written(*val, 0),
            remains(old(out)@, whole, out@, flushed(stack@)),
        decreases stack_weight(stack@),
    {
        let ghost all = stack@;
        let task = match stack.pop() {
            Some(t) => t,
            None => return Ok(()),
        };
        assert(all.drop_last() =~= stack@);
        match do_task(out, &mut stack, task) {
            Ok(_) => {},
            Err(e) => return Err(e),
        }
    }
    Ok(())
}

} // verus!
