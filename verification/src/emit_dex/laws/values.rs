//! Encoded values read back, at whatever width they were written.
use vstd::arithmetic::div_mod::lemma_mod_breakdown;
use vstd::prelude::*;

use crate::annotation::{EncodedAnnotation, EncodedValue};
use crate::bytes::{le_low, twos64};
use crate::collections::{sorted_keys, sorted_keys_list};
use crate::emit_dex::encoded_value::{
    body_written, elements_written, items_written, leaf, num_of, number, signed_width,
    unsigned_width, value_written, VT_ANNOTATION, VT_ARRAY, VT_BOOLEAN, VT_DOUBLE, VT_FLOAT,
    VT_NULL,
};
use crate::emit_dex::laws::members::{next_number, number_then_rest};
use crate::emit_dex::widths::{
    array_written, at_width, body_deep, elements_deep, items_deep, value_deep, values_alone,
};
use crate::leb128::uleb;

verus! {

// Numbers

/// How many numbers `n` bytes tell apart.
pub open spec fn range(n: nat) -> nat
    decreases n,
{
    if n == 0 {
        1
    } else {
        256 * range((n - 1) as nat)
    }
}

/// The number that bytes stand for, lowest first.
pub open spec fn le_value(s: Seq<u8>) -> nat
    decreases s.len(),
{
    if s.len() == 0 {
        0
    } else {
        s[0] as nat + 256 * le_value(s.skip(1))
    }
}

proof fn lemma_range_pos(n: nat)
    ensures
        range(n) > 0,
    decreases n,
{
    if n > 0 {
        lemma_range_pos((n - 1) as nat);
    }
}

proof fn lemma_le_len(v: u64, n: nat)
    ensures
        le_low(v, n).len() == n,
    decreases n,
{
    if n > 0 {
        lemma_le_len(v / 256, (n - 1) as nat);
    }
}

/// The low bytes of a number stand for its remainder.
pub proof fn low_bytes_are_the_remainder(v: u64, n: nat)
    ensures
        le_low(v, n).len() == n,
        le_value(le_low(v, n)) == v as nat % range(n),
    decreases n,
{
    if n > 0 {
        let rest = le_low(v / 256, (n - 1) as nat);
        low_bytes_are_the_remainder(v / 256, (n - 1) as nat);
        lemma_range_pos((n - 1) as nat);
        assert(le_low(v, n).skip(1) =~= rest);
        lemma_mod_breakdown(v as int, 256, range((n - 1) as nat) as int);
    }
}

/// The signed number that an unsigned one of `n` bytes stands for.
pub open spec fn signed(x: nat, n: nat) -> int {
    if 2 * x >= range(n) {
        x - range(n)
    } else {
        x as int
    }
}

proof fn lemma_ranges()
    ensures
        range(1) == 0x100,
        range(2) == 0x1_0000,
        range(3) == 0x100_0000,
        range(4) == 0x1_0000_0000,
        range(5) == 0x100_0000_0000,
        range(6) == 0x1_0000_0000_0000,
        range(7) == 0x100_0000_0000_0000,
        range(8) == 0x1_0000_0000_0000_0000,
{
    reveal_with_fuel(range, 9);
}

proof fn lemma_complement(n: nat)
    requires
        1 <= n <= 8,
    ensures
        range(n) * range((8 - n) as nat) == 0x1_0000_0000_0000_0000,
{
    lemma_ranges();
    assert(range(0) == 1);
    if n == 1 {
        assert(range(1) * range(7) == 0x1_0000_0000_0000_0000);
    } else if n == 2 {
        assert(range(2) * range(6) == 0x1_0000_0000_0000_0000);
    } else if n == 3 {
        assert(range(3) * range(5) == 0x1_0000_0000_0000_0000);
    } else if n == 4 {
        assert(range(4) * range(4) == 0x1_0000_0000_0000_0000);
    } else if n == 5 {
        assert(range(5) * range(3) == 0x1_0000_0000_0000_0000);
    } else if n == 6 {
        assert(range(6) * range(2) == 0x1_0000_0000_0000_0000);
    } else if n == 7 {
        assert(range(7) * range(1) == 0x1_0000_0000_0000_0000);
    } else {
        assert(range(8) * range(0) == 0x1_0000_0000_0000_0000);
    }
}

proof fn lemma_wrapped(v: int, r: int, q: int)
    requires
        r > 1,
        q * r == 0x1_0000_0000_0000_0000,
        -r <= 2 * v < r,
    ensures
        (if v < 0 {
            v + 0x1_0000_0000_0000_0000
        } else {
            v
        }) % r == (if v < 0 {
            v + r
        } else {
            v
        }),
{
    if v < 0 {
        assert(r * (q - 1) + (v + r) == v + q * r) by (nonlinear_arith);
        vstd::arithmetic::div_mod::lemma_mod_multiples_vanish(q - 1, v + r, r);
        vstd::arithmetic::div_mod::lemma_small_mod((v + r) as nat, r as nat);
    } else {
        vstd::arithmetic::div_mod::lemma_small_mod(v as nat, r as nat);
    }
}

/// A signed number written in enough bytes reads back.
pub proof fn signed_numbers_read_back(v: i64, n: nat)
    requires
        signed_width(v as int) <= n <= 8,
    ensures
        signed(le_value(le_low(twos64(v as int), n)), n) == v,
{
    let raw = twos64(v as int);
    low_bytes_are_the_remainder(raw, n);
    assert(-(range(n) as int) <= 2 * v < range(n) && range(n) > 1) by {
        lemma_ranges();
    }
    lemma_complement(n);
    let q = range((8 - n) as nat) as int;
    assert(q * range(n) == range(n) * q) by (nonlinear_arith);
    lemma_wrapped(v as int, range(n) as int, q);
}

/// An unsigned number written in enough bytes reads back.
pub proof fn unsigned_numbers_read_back(v: u64, n: nat)
    requires
        unsigned_width(v as int) <= n <= 8,
    ensures
        le_value(le_low(v, n)) == v,
{
    lemma_ranges();
    low_bytes_are_the_remainder(v, n);
    assert(v < range(n));
    assert(v as nat % range(n) == v) by {
        vstd::arithmetic::div_mod::lemma_small_mod(v as nat, range(n));
    }
}

/// No fewer bytes than the least width hold a signed number.
pub proof fn signed_width_is_least(v: i64, n: nat)
    requires
        1 <= n < signed_width(v as int),
    ensures
        !(-(range(n) as int) <= 2 * v < range(n)),
{
    lemma_ranges();
}

/// No fewer bytes than the least width hold an unsigned number.
pub proof fn unsigned_width_is_least(v: u64, n: nat)
    requires
        1 <= n < unsigned_width(v as int),
    ensures
        v >= range(n),
{
    lemma_ranges();
}

// Values

/// What an encoded value stands for.
#[verifier::ext_equal]
pub enum Constant {
    Byte(int),
    Short(int),
    Char(nat),
    Int(int),
    Long(int),
    Float(nat),
    Double(nat),
    String(nat),
    Type(nat),
    Field(nat),
    Method(nat),
    Enum(nat),
    MethodType(nat),
    MethodHandle(nat),
    Array(Seq<Constant>),
    Annotation(nat, Seq<(nat, Constant)>),
    Null,
    Boolean(bool),
}

/// What `v` stands for.
pub open spec fn meaning(v: EncodedValue) -> Constant
    decreases v, 0nat,
{
    match v {
        EncodedValue::Byte(x) => Constant::Byte(x as int),
        EncodedValue::Short(x) => Constant::Short(x as int),
        EncodedValue::Char(x) => Constant::Char(x as nat),
        EncodedValue::Int(x) => Constant::Int(x as int),
        EncodedValue::Long(x) => Constant::Long(x as int),
        EncodedValue::Float(bits) => Constant::Float(bits as nat),
        EncodedValue::Double(bits) => Constant::Double(bits as nat),
        EncodedValue::String(x) => Constant::String(x.0 as nat),
        EncodedValue::Type(x) => Constant::Type(x.0 as nat),
        EncodedValue::Field(x) => Constant::Field(x.0 as nat),
        EncodedValue::Method(x) => Constant::Method(x.0 as nat),
        EncodedValue::Enum(x) => Constant::Enum(x.0 as nat),
        EncodedValue::MethodType(x) => Constant::MethodType(x.0 as nat),
        EncodedValue::MethodHandle(x) => Constant::MethodHandle(x.0 as nat),
        EncodedValue::Array(items) => Constant::Array(meanings(items@, 0)),
        EncodedValue::Annotation(ann) => {
            Constant::Annotation(ann.type_idx.0 as nat, body_meaning(ann))
        },
        EncodedValue::Null => Constant::Null,
        EncodedValue::Boolean(b) => Constant::Boolean(b),
    }
}

/// What the items from position `i` on stand for.
pub open spec fn meanings(items: Seq<EncodedValue>, i: nat) -> Seq<Constant>
    decreases items, items.len() - i,
{
    if i >= items.len() {
        Seq::empty()
    } else {
        seq![meaning(items[i as int])] + meanings(items, i + 1)
    }
}

/// What the elements of an annotation stand for, by ascending name index.
pub open spec fn body_meaning(ann: EncodedAnnotation) -> Seq<(nat, Constant)>
    decreases ann, 1nat,
{
    element_meanings(ann.elements@, sorted_keys(ann.elements@), 0)
}

/// What the elements from position `i` on stand for.
pub open spec fn element_meanings(m: Map<u32, EncodedValue>, keys: Seq<u32>, i: nat) -> Seq<
    (nat, Constant),
>
    decreases m, keys.len() - i,
{
    if i >= keys.len() || !m.contains_key(keys[i as int]) || !m.dom().finite() {
        Seq::empty()
    } else {
        seq![(keys[i as int] as nat, meaning(m[keys[i as int]]))] + element_meanings(m, keys, i + 1)
    }
}

/// The number of levels of a value.
pub open spec fn height(v: EncodedValue) -> nat
    decreases v, 0nat,
{
    match v {
        EncodedValue::Array(items) => 1 + items_height(items@, 0),
        EncodedValue::Annotation(ann) => 1 + body_height(ann),
        _ => 1,
    }
}

pub open spec fn items_height(items: Seq<EncodedValue>, i: nat) -> nat
    decreases items, items.len() - i,
{
    if i >= items.len() {
        0
    } else {
        higher(height(items[i as int]), items_height(items, i + 1))
    }
}

pub open spec fn body_height(ann: EncodedAnnotation) -> nat
    decreases ann, 1nat,
{
    elements_height(ann.elements@, sorted_keys(ann.elements@), 0)
}

pub open spec fn elements_height(m: Map<u32, EncodedValue>, keys: Seq<u32>, i: nat) -> nat
    decreases m, keys.len() - i,
{
    if i >= keys.len() || !m.contains_key(keys[i as int]) || !m.dom().finite() {
        0
    } else {
        higher(height(m[keys[i as int]]), elements_height(m, keys, i + 1))
    }
}

/// The greater of two heights.
pub open spec fn higher(a: nat, b: nat) -> nat {
    if a >= b {
        a
    } else {
        b
    }
}

/// The number of type `tag` in `body`.
pub open spec fn number_read(tag: u8, body: Seq<u8>) -> Option<Constant> {
    let x = le_value(body);
    let y = signed(x, body.len());
    if tag == 0x00 {
        Some(Constant::Byte(y))
    } else if tag == 0x02 {
        Some(Constant::Short(y))
    } else if tag == 0x03 {
        Some(Constant::Char(x))
    } else if tag == 0x04 {
        Some(Constant::Int(y))
    } else if tag == 0x06 {
        Some(Constant::Long(y))
    } else if tag == 0x10 && body.len() == 4 {
        Some(Constant::Float(x))
    } else if tag == 0x11 && body.len() == 8 {
        Some(Constant::Double(x))
    } else if tag == 0x17 {
        Some(Constant::String(x))
    } else if tag == 0x18 {
        Some(Constant::Type(x))
    } else if tag == 0x19 {
        Some(Constant::Field(x))
    } else if tag == 0x1a {
        Some(Constant::Method(x))
    } else if tag == 0x1b {
        Some(Constant::Enum(x))
    } else if tag == 0x15 {
        Some(Constant::MethodType(x))
    } else if tag == 0x16 {
        Some(Constant::MethodHandle(x))
    } else {
        None
    }
}

/// The value without other values in it that starts `s`, and what follows it.
pub open spec fn leaf_read(s: Seq<u8>) -> Option<(Constant, Seq<u8>)> {
    let tag = s[0] % 32;
    let size = s[0] as int / 32 + 1;
    if tag == 0x1e {
        Some((Constant::Null, s.skip(1)))
    } else if tag == 0x1f {
        Some((Constant::Boolean(size == 2), s.skip(1)))
    } else if s.len() < 1 + size {
        None
    } else {
        match number_read(tag, s.subrange(1, 1 + size)) {
            None => None,
            Some(c) => Some((c, s.skip(1 + size))),
        }
    }
}

/// The value that starts `s`, and what follows it, where it has at most `fuel`
/// levels.
pub open spec fn value_read(s: Seq<u8>, fuel: nat) -> Option<(Constant, Seq<u8>)>
    decreases fuel, 0nat,
{
    if fuel == 0 || s.len() == 0 {
        None
    } else if s[0] % 32 == 0x1c {
        match next_number(s.skip(1)) {
            None => None,
            Some((n, s)) => match items_read(s, n, (fuel - 1) as nat) {
                None => None,
                Some((items, s)) => Some((Constant::Array(items), s)),
            },
        }
    } else if s[0] % 32 == 0x1d {
        match next_number(s.skip(1)) {
            None => None,
            Some((ty, s)) => match next_number(s) {
                None => None,
                Some((n, s)) => match elements_read(s, n, (fuel - 1) as nat) {
                    None => None,
                    Some((elements, s)) => Some((Constant::Annotation(ty, elements), s)),
                },
            },
        }
    } else {
        leaf_read(s)
    }
}

/// The `n` values that start `s`, and what follows them.
pub open spec fn items_read(s: Seq<u8>, n: nat, fuel: nat) -> Option<(Seq<Constant>, Seq<u8>)>
    decreases fuel, n,
{
    if n == 0 {
        Some((Seq::empty(), s))
    } else {
        match value_read(s, fuel) {
            None => None,
            Some((first, s)) => match items_read(s, (n - 1) as nat, fuel) {
                None => None,
                Some((more, s)) => Some((seq![first] + more, s)),
            },
        }
    }
}

/// The `n` named values that start `s`, and what follows them.
pub open spec fn elements_read(s: Seq<u8>, n: nat, fuel: nat) -> Option<
    (Seq<(nat, Constant)>, Seq<u8>),
>
    decreases fuel, n,
{
    if n == 0 {
        Some((Seq::empty(), s))
    } else {
        match next_number(s) {
            None => None,
            Some((name, s)) => match value_read(s, fuel) {
                None => None,
                Some((first, s)) => match elements_read(s, (n - 1) as nat, fuel) {
                    None => None,
                    Some((more, s)) => Some((seq![(name, first)] + more, s)),
                },
            },
        }
    }
}

proof fn lemma_number_read(tag: u8, raw: u64, n: nat, rest: Seq<u8>)
    requires
        tag < 32,
        tag != VT_NULL,
        tag != VT_BOOLEAN,
        1 <= n <= 8,
    ensures
        ({
            let s = number(tag, raw, n) + rest;
            &&& s.len() > 0
            &&& s[0] % 32 == tag
            &&& leaf_read(s) == match number_read(tag, le_low(raw, n)) {
                None => None::<(Constant, Seq<u8>)>,
                Some(c) => Some((c, rest)),
            }
        }),
{
    let s = number(tag, raw, n) + rest;
    lemma_le_len(raw, n);
    assert(s[0] == tag + (n - 1) * 32);
    assert(s[0] as int / 32 + 1 == n);
    assert(s.subrange(1, (1 + n) as int) =~= le_low(raw, n));
    assert(s.skip((1 + n) as int) =~= rest);
}

proof fn lemma_at_width(v: EncodedValue, w: nat, rest: Seq<u8>)
    requires
        num_of(v) matches Some(n) && n.least <= w <= n.most,
    ensures
        ({
            let n = num_of(v)->Some_0;
            let s = number(n.tag, n.raw, w) + rest;
            &&& s.len() > 0
            &&& s[0] % 32 == n.tag
            &&& n.tag != VT_ARRAY
            &&& n.tag != VT_ANNOTATION
            &&& leaf_read(s) == Some((meaning(v), rest))
        }),
{
    let n = num_of(v)->Some_0;
    lemma_number_read(n.tag, n.raw, w, rest);
    lemma_le_len(n.raw, w);
    match v {
        EncodedValue::Short(x) => signed_numbers_read_back(x as i64, w),
        EncodedValue::Int(x) => signed_numbers_read_back(x as i64, w),
        EncodedValue::Long(x) => signed_numbers_read_back(x, w),
        _ => unsigned_numbers_read_back(n.raw, w),
    }
}

/// A value without other values in it reads back.
pub proof fn leaves_read_back(v: EncodedValue, rest: Seq<u8>, fuel: nat)
    requires
        !(v is Array),
        !(v is Annotation),
        fuel >= 1,
    ensures
        value_read(leaf(v) + rest, fuel) == Some((meaning(v), rest)),
{
    let s = leaf(v) + rest;
    match v {
        EncodedValue::Byte(b) => {
            assert(s.subrange(1, 2) =~= seq![crate::bytes::twos8(b as int)]);
            assert(s.skip(2) =~= rest);
            let body = seq![crate::bytes::twos8(b as int)];
            assert(body.skip(1) =~= Seq::empty());
            lemma_ranges();
            reveal_with_fuel(le_value, 2);
        },
        EncodedValue::Float(bits) => {
            lemma_number_read(VT_FLOAT, bits as u64, 4, rest);
            unsigned_numbers_read_back(bits as u64, 4);
            lemma_le_len(bits as u64, 4);
        },
        EncodedValue::Double(bits) => {
            lemma_number_read(VT_DOUBLE, bits, 8, rest);
            unsigned_numbers_read_back(bits, 8);
            lemma_le_len(bits, 8);
        },
        EncodedValue::Null => {
            assert(s.skip(1) =~= rest);
        },
        EncodedValue::Boolean(b) => {
            assert(s.skip(1) =~= rest);
        },
        _ => {
            let n = num_of(v)->Some_0;
            lemma_at_width(v, n.least, rest);
        },
    }
}

/// An integer or index reads back at any width at which it can be written.
pub proof fn wider_numbers_read_back(v: EncodedValue, width: u8, rest: Seq<u8>, fuel: nat)
    requires
        at_width(v, width) is Some,
        fuel >= 1,
    ensures
        value_read(at_width(v, width)->Some_0 + rest, fuel) == Some((meaning(v), rest)),
{
    lemma_at_width(v, width as nat, rest);
}

/// The elements of an annotation are finitely many, and its sorted names are theirs.
pub proof fn elements_are_finite(m: Map<u32, EncodedValue>)
    ensures
        m.dom().finite(),
        forall|i: int|
            0 <= i < sorted_keys(m).len() ==> m.contains_key(#[trigger] sorted_keys(m)[i]),
{
    let keys = sorted_keys(m);
    sorted_keys_list(m);
    vstd::seq_lib::seq_to_set_is_finite(keys);
    assert forall|i: int| 0 <= i < keys.len() implies m.contains_key(#[trigger] keys[i]) by {
        assert(keys.contains(keys[i]));
    }
}

proof fn lemma_array_head(n: nat, rest: Seq<u8>, fuel: nat)
    requires
        fuel >= 1,
    ensures
        value_read(seq![VT_ARRAY] + uleb(n) + rest, fuel) == match items_read(
            rest,
            n,
            (fuel - 1) as nat,
        ) {
            None => None::<(Constant, Seq<u8>)>,
            Some((items, s)) => Some((Constant::Array(items), s)),
        },
{
    let s = seq![VT_ARRAY] + uleb(n) + rest;
    assert(s.skip(1) =~= uleb(n) + rest);
    number_then_rest(n, rest);
}

proof fn lemma_annotation_head(ty: nat, n: nat, rest: Seq<u8>, fuel: nat)
    requires
        fuel >= 1,
    ensures
        value_read(seq![VT_ANNOTATION] + (uleb(ty) + uleb(n) + rest), fuel) == match elements_read(
            rest,
            n,
            (fuel - 1) as nat,
        ) {
            None => None::<(Constant, Seq<u8>)>,
            Some((elements, s)) => Some((Constant::Annotation(ty, elements), s)),
        },
{
    let s = seq![VT_ANNOTATION] + (uleb(ty) + uleb(n) + rest);
    assert(s.skip(1) =~= uleb(ty) + (uleb(n) + rest));
    number_then_rest(ty, uleb(n) + rest);
    number_then_rest(n, rest);
}

/// An encoded value reads back, whatever follows it.
pub proof fn values_read_back(v: EncodedValue, pending: nat, rest: Seq<u8>, fuel: nat)
    requires
        value_written(v, pending).fault is None,
        fuel >= height(v),
    ensures
        value_read(value_written(v, pending).bytes + rest, fuel) == Some((meaning(v), rest)),
    decreases v, 0nat,
{
    match v {
        EncodedValue::Array(items) => {
            let body = items_written(items@, 0, pending).bytes;
            lemma_items_read(items@, 0, pending, rest, (fuel - 1) as nat);
            lemma_array_head(items@.len(), body + rest, fuel);
            if items@.len() == 0 {
                assert(items_written(items@, 0, pending).bytes =~= Seq::empty());
            }
            assert(value_written(v, pending).bytes + rest =~= seq![VT_ARRAY] + uleb(items@.len())
                + (body + rest));
        },
        EncodedValue::Annotation(ann) => {
            let keys = sorted_keys(ann.elements@);
            let body = elements_written(ann.elements@, keys, 0, pending).bytes;
            elements_are_finite(ann.elements@);
            lemma_body_read(ann, pending, rest, (fuel - 1) as nat);
            lemma_annotation_head(ann.type_idx.0 as nat, keys.len(), body + rest, fuel);
            assert(value_written(v, pending).bytes + rest =~= seq![VT_ANNOTATION] + (uleb(
                ann.type_idx.0 as nat,
            ) + uleb(keys.len()) + (body + rest)));
        },
        _ => leaves_read_back(v, rest, fuel),
    }
}

proof fn lemma_items_read(items: Seq<EncodedValue>, i: nat, pending: nat, rest: Seq<u8>, fuel: nat)
    requires
        i <= items.len(),
        items_written(items, i, pending).fault is None,
        fuel >= items_height(items, i),
    ensures
        items_read(
            items_written(items, i, pending).bytes + rest,
            (items.len() - i) as nat,
            fuel,
        ) == Some((meanings(items, i), rest)),
    decreases items, items.len() - i,
{
    let s = items_written(items, i, pending).bytes + rest;
    if i == items.len() {
        assert(s =~= rest);
    } else {
        let waiting = (pending + (items.len() - 1 - i)) as nat;
        let first = value_written(items[i as int], waiting).bytes;
        let more = items_written(items, i + 1, pending).bytes + rest;
        values_read_back(items[i as int], waiting, more, fuel);
        lemma_items_read(items, i + 1, pending, rest, fuel);
        assert(s =~= first + more);
    }
}

proof fn lemma_body_read(ann: EncodedAnnotation, pending: nat, rest: Seq<u8>, fuel: nat)
    requires
        body_written(ann, pending).fault is None,
        fuel >= body_height(ann),
    ensures
        ({
            let keys = sorted_keys(ann.elements@);
            let w = elements_written(ann.elements@, keys, 0, pending);
            &&& keys.len() > 0 ==> w.fault is None
            &&& body_written(ann, pending).bytes == uleb(ann.type_idx.0 as nat) + uleb(keys.len())
                + w.bytes
            &&& elements_read(w.bytes + rest, keys.len(), fuel) == Some((body_meaning(ann), rest))
        }),
    decreases ann, 1nat,
{
    let keys = sorted_keys(ann.elements@);
    let w = elements_written(ann.elements@, keys, 0, pending);
    elements_are_finite(ann.elements@);
    assert(body_written(ann, pending).bytes =~= uleb(ann.type_idx.0 as nat) + uleb(keys.len())
        + w.bytes);
    lemma_elements_read(ann.elements@, keys, 0, pending, rest, fuel);
}

proof fn lemma_elements_read(
    m: Map<u32, EncodedValue>,
    keys: Seq<u32>,
    i: nat,
    pending: nat,
    rest: Seq<u8>,
    fuel: nat,
)
    requires
        i <= keys.len(),
        m.dom().finite(),
        forall|j: int| 0 <= j < keys.len() ==> m.contains_key(#[trigger] keys[j]),
        elements_written(m, keys, i, pending).fault is None,
        fuel >= elements_height(m, keys, i),
    ensures
        elements_read(
            elements_written(m, keys, i, pending).bytes + rest,
            (keys.len() - i) as nat,
            fuel,
        ) == Some((element_meanings(m, keys, i), rest)),
    decreases m, keys.len() - i,
{
    let s = elements_written(m, keys, i, pending).bytes + rest;
    if i == keys.len() {
        assert(s =~= rest);
    } else {
        let key = keys[i as int];
        let waiting = (pending + 2 * (keys.len() - 1 - i)) as nat;
        let first = value_written(m[key], waiting).bytes;
        let more = elements_written(m, keys, i + 1, pending).bytes + rest;
        values_read_back(m[key], waiting, more, fuel);
        lemma_elements_read(m, keys, i + 1, pending, rest, fuel);
        assert(s =~= uleb(key as nat) + (first + more));
        number_then_rest(key as nat, first + more);
    }
}

// Recorded widths

/// An encoded value at recorded widths reads back as the same value, whatever the
/// widths are.
pub proof fn recorded_widths_keep_the_value(
    v: EncodedValue,
    ws: Seq<u8>,
    k: nat,
    rest: Seq<u8>,
    fuel: nat,
)
    requires
        value_deep(v, ws, k).w.fault is None,
        fuel >= height(v),
    ensures
        value_read(value_deep(v, ws, k).w.bytes + rest, fuel) == Some((meaning(v), rest)),
    decreases v, 0nat,
{
    match v {
        EncodedValue::Array(items) => {
            let body = items_deep(items@, 0, ws, k).w.bytes;
            lemma_items_deep_read(items@, 0, ws, k, rest, (fuel - 1) as nat);
            lemma_array_head(items@.len(), body + rest, fuel);
            assert(value_deep(v, ws, k).w.bytes + rest =~= seq![VT_ARRAY] + uleb(items@.len()) + (
            body + rest));
        },
        EncodedValue::Annotation(ann) => {
            let keys = sorted_keys(ann.elements@);
            let body = elements_deep(ann.elements@, keys, 0, ws, k).w.bytes;
            recorded_widths_keep_the_annotation(ann, ws, k, rest, (fuel - 1) as nat);
            lemma_annotation_head(ann.type_idx.0 as nat, keys.len(), body + rest, fuel);
            assert(value_deep(v, ws, k).w.bytes + rest =~= seq![VT_ANNOTATION] + (uleb(
                ann.type_idx.0 as nat,
            ) + uleb(keys.len()) + (body + rest)));
        },
        _ => {
            leaves_read_back(v, rest, fuel);
            if k < ws.len() && at_width(v, ws[k as int]) is Some {
                wider_numbers_read_back(v, ws[k as int], rest, fuel);
            }
        },
    }
}

proof fn lemma_items_deep_read(
    items: Seq<EncodedValue>,
    i: nat,
    ws: Seq<u8>,
    k: nat,
    rest: Seq<u8>,
    fuel: nat,
)
    requires
        i <= items.len(),
        items_deep(items, i, ws, k).w.fault is None,
        fuel >= items_height(items, i),
    ensures
        items_read(
            items_deep(items, i, ws, k).w.bytes + rest,
            (items.len() - i) as nat,
            fuel,
        ) == Some((meanings(items, i), rest)),
    decreases items, items.len() - i,
{
    let s = items_deep(items, i, ws, k).w.bytes + rest;
    if i == items.len() {
        assert(s =~= rest);
    } else {
        let first = value_deep(items[i as int], ws, k);
        let more = items_deep(items, i + 1, ws, first.next).w.bytes + rest;
        recorded_widths_keep_the_value(items[i as int], ws, k, more, fuel);
        lemma_items_deep_read(items, i + 1, ws, first.next, rest, fuel);
        assert(s =~= first.w.bytes + more);
    }
}

/// The body of an annotation at recorded widths is its type, the number of its elements and
/// these, which read back as they are, whatever the widths are.
pub proof fn recorded_widths_keep_the_annotation(
    ann: EncodedAnnotation,
    ws: Seq<u8>,
    k: nat,
    rest: Seq<u8>,
    fuel: nat,
)
    requires
        body_deep(ann, ws, k).w.fault is None,
        fuel >= body_height(ann),
    ensures
        ({
            let keys = sorted_keys(ann.elements@);
            let w = elements_deep(ann.elements@, keys, 0, ws, k).w;
            &&& body_deep(ann, ws, k).w.bytes == uleb(ann.type_idx.0 as nat) + uleb(keys.len())
                + w.bytes
            &&& elements_read(w.bytes + rest, keys.len(), fuel) == Some((body_meaning(ann), rest))
        }),
    decreases ann, 1nat,
{
    let keys = sorted_keys(ann.elements@);
    elements_are_finite(ann.elements@);
    lemma_elements_deep_read(ann.elements@, keys, 0, ws, k, rest, fuel);
}

proof fn lemma_elements_deep_read(
    m: Map<u32, EncodedValue>,
    keys: Seq<u32>,
    i: nat,
    ws: Seq<u8>,
    k: nat,
    rest: Seq<u8>,
    fuel: nat,
)
    requires
        i <= keys.len(),
        m.dom().finite(),
        forall|j: int| 0 <= j < keys.len() ==> m.contains_key(#[trigger] keys[j]),
        elements_deep(m, keys, i, ws, k).w.fault is None,
        fuel >= elements_height(m, keys, i),
    ensures
        elements_read(
            elements_deep(m, keys, i, ws, k).w.bytes + rest,
            (keys.len() - i) as nat,
            fuel,
        ) == Some((element_meanings(m, keys, i), rest)),
    decreases m, keys.len() - i,
{
    let s = elements_deep(m, keys, i, ws, k).w.bytes + rest;
    if i == keys.len() {
        assert(s =~= rest);
    } else {
        let key = keys[i as int];
        let val = value_deep(m[key], ws, k);
        let more = elements_deep(m, keys, i + 1, ws, val.next).w.bytes + rest;
        recorded_widths_keep_the_value(m[key], ws, k, more, fuel);
        lemma_elements_deep_read(m, keys, i + 1, ws, val.next, rest, fuel);
        assert(s =~= uleb(key as nat) + (val.w.bytes + more));
        number_then_rest(key as nat, val.w.bytes + more);
    }
}

// Arrays that stand by themselves

/// The array of constants that starts `s`, and what follows it.
pub open spec fn array_read(s: Seq<u8>, fuel: nat) -> Option<(Seq<Constant>, Seq<u8>)> {
    match next_number(s) {
        None => None,
        Some((n, s)) => items_read(s, n, fuel),
    }
}

proof fn lemma_values_alone_read(values: Seq<EncodedValue>, i: nat, rest: Seq<u8>, fuel: nat)
    requires
        i <= values.len(),
        values_alone(values, i).fault is None,
        fuel >= items_height(values, i),
    ensures
        items_read(
            values_alone(values, i).bytes + rest,
            (values.len() - i) as nat,
            fuel,
        ) == Some((meanings(values, i), rest)),
    decreases values.len() - i,
{
    let s = values_alone(values, i).bytes + rest;
    if i == values.len() {
        assert(s =~= rest);
    } else {
        let first = value_written(values[i as int], 0).bytes;
        let more = values_alone(values, i + 1).bytes + rest;
        values_read_back(values[i as int], 0, more, fuel);
        lemma_values_alone_read(values, i + 1, rest, fuel);
        assert(s =~= first + more);
    }
}

/// An array of constants reads back with or without recorded widths: the widths
/// change the bytes and not the values.
pub proof fn arrays_read_back(
    values: Seq<EncodedValue>,
    widths: Option<Seq<u8>>,
    rest: Seq<u8>,
    fuel: nat,
)
    requires
        array_written(values, widths).fault is None,
        fuel >= items_height(values, 0),
    ensures
        array_read(array_written(values, widths).bytes + rest, fuel) == Some(
            (meanings(values, 0), rest),
        ),
{
    let body = match widths {
        None => values_alone(values, 0).bytes,
        Some(ws) => items_deep(values, 0, ws, 0).w.bytes,
    };
    assert(array_written(values, widths).bytes + rest =~= uleb(values.len()) + (body + rest));
    number_then_rest(values.len(), body + rest);
    match widths {
        None => lemma_values_alone_read(values, 0, rest, fuel),
        Some(ws) => lemma_items_deep_read(values, 0, ws, 0, rest, fuel),
    }
}

} // verus!
