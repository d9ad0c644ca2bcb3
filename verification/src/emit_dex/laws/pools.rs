//! What the pools owe their readers: every record reads back from its place.
use vstd::prelude::*;

use crate::bytes::{le16, le32, le32_reads_back, overlay, read_le16, read_le32, zeros};
use crate::dex_file::MethodHandleItem;
use crate::dex_string::DexString;
use crate::emit_dex::code_item::sat32;
use crate::emit_dex::laws::place::{
    apart, half_in, holding_is_transitive, holds_at, in_front, in_rest, overlay_apart,
    overlay_holds, word_in,
};
use crate::emit_dex::layout::lifted;
use crate::emit_dex::pools::{
    class_defs, class_defs_len, class_fields, class_item, field_ids, field_ids_len, field_item,
    handle_item, low32, method_handles, method_handles_len, method_ids, method_ids_len, method_item,
    pool_ordered, proto_ids, proto_ids_len, proto_item, string_data, string_ids, string_ids_len,
    string_item, string_or_none, string_pool_placed, strings_placed, type_ids, type_ids_len,
    type_or_none, StringPool, NO_INDEX,
};
use crate::ids::{
    ClassDefItem, FieldIdItem, MethodIdItem, ProtoIdItem, ProtoIdx, StringIdx, TypeIdx,
};
use crate::leb128::{uleb, uleb_read, uleb_reads_back};
use crate::mutf8::{lex_le, unit_order_is_total};

verus! {

// Strings

proof fn lemma_string_data_grows(strings: Seq<(u32, Seq<u8>)>, i: nat, n: nat)
    requires
        i < n <= strings.len(),
    ensures
        holds_at(
            string_data(strings, n),
            string_data(strings, i).len() as int,
            string_item(strings[i as int].0, strings[i as int].1),
        ),
    decreases n,
{
    let item = string_item(strings[i as int].0, strings[i as int].1);
    let at = string_data(strings, i).len() as int;
    if i + 1 < n {
        lemma_string_data_grows(strings, i, (n - 1) as nat);
        let before = string_data(strings, (n - 1) as nat);
        assert(string_data(strings, n).subrange(at, at + item.len()) =~= before.subrange(
            at,
            at + item.len(),
        ));
    } else {
        assert(string_data(strings, n).subrange(at, at + item.len()) =~= item);
    }
}

proof fn lemma_string_id(strings: Seq<(u32, Seq<u8>)>, i: int, n: nat)
    requires
        0 <= i < n <= strings.len(),
    ensures
        read_le32(string_ids(strings, n), 4 * i) == low32(string_data(strings, i as nat).len()),
    decreases n,
{
    let before = string_ids(strings, (n - 1) as nat);
    string_ids_len(strings, n);
    string_ids_len(strings, (n - 1) as nat);
    if i < n - 1 {
        lemma_string_id(strings, i, (n - 1) as nat);
        assert(string_ids(strings, n)[4 * i] == before[4 * i]);
        assert(string_ids(strings, n)[4 * i + 1] == before[4 * i + 1]);
        assert(string_ids(strings, n)[4 * i + 2] == before[4 * i + 2]);
        assert(string_ids(strings, n)[4 * i + 3] == before[4 * i + 3]);
    } else {
        let v = low32(string_data(strings, i as nat).len());
        le32_reads_back(before, v, Seq::empty());
        assert(before + le32(v) + Seq::<u8>::empty() =~= string_ids(strings, n));
    }
}

/// The place that the string pool gives for a string is where its data stands.
pub proof fn string_ids_point_at_the_data(strings: Seq<(u32, Seq<u8>)>, i: int)
    requires
        0 <= i < strings.len(),
        string_data(strings, strings.len()).len() <= u32::MAX,
    ensures
        holds_at(
            string_data(strings, strings.len()),
            read_le32(string_ids(strings, strings.len()), 4 * i),
            string_item(strings[i].0, strings[i].1),
        ),
{
    lemma_string_data_grows(strings, i as nat, strings.len());
    lemma_string_id(strings, i, strings.len());
}

/// The bytes from `at` up to the first zero byte.
pub open spec fn up_to_zero(data: Seq<u8>, at: int) -> Seq<u8>
    decreases data.len() - at,
{
    if at < 0 || at >= data.len() || data[at] == 0 {
        Seq::empty()
    } else {
        seq![data[at]] + up_to_zero(data, at + 1)
    }
}

/// The string at `at`: the declared length, and the bytes up to the zero byte.
pub open spec fn string_read(data: Seq<u8>, at: int) -> Option<(nat, Seq<u8>)> {
    match uleb_read(data.skip(at)) {
        Some((declared, n)) => Some((declared, up_to_zero(data, at + n))),
        None => None,
    }
}

proof fn lemma_up_to_zero(data: Seq<u8>, at: int, bytes: Seq<u8>)
    requires
        0 <= at,
        at + bytes.len() < data.len(),
        data.subrange(at, at + bytes.len()) == bytes,
        data[at + bytes.len()] == 0,
        forall|k: int| 0 <= k < bytes.len() ==> bytes[k] != 0,
    ensures
        up_to_zero(data, at) == bytes,
    decreases bytes.len(),
{
    let n = bytes.len() as int;
    if n == 0 {
        assert(bytes =~= Seq::empty());
    } else {
        assert(data.subrange(at, at + n)[0] == data[at]);
        let rest = bytes.skip(1);
        assert(data.subrange(at + 1, at + 1 + rest.len()) =~= rest) by {
            assert forall|k: int| 0 <= k < rest.len() implies data[at + 1 + k] == rest[k] by {
                assert(data.subrange(at, at + n)[k + 1] == bytes[k + 1]);
            }
        }
        lemma_up_to_zero(data, at + 1, rest);
        assert(seq![data[at]] + rest =~= bytes);
    }
}

/// Where the data of a string without zero bytes stands, reading gives back the
/// declared length and the bytes.
pub proof fn string_reads_back(file: Seq<u8>, at: int, declared: u32, bytes: Seq<u8>)
    requires
        holds_at(file, at, string_item(declared, bytes)),
        forall|k: int| 0 <= k < bytes.len() ==> bytes[k] != 0,
    ensures
        string_read(file, at) == Some((declared as nat, bytes)),
{
    let item = string_item(declared, bytes);
    let n = uleb(declared as nat).len() as int;
    let rest = bytes + seq![0u8] + file.skip(at + item.len());
    assert(file.skip(at) =~= uleb(declared as nat) + rest) by {
        assert forall|k: int| 0 <= k < file.len() - at implies file.skip(at)[k] == (uleb(
            declared as nat,
        ) + rest)[k] by {
            if k < item.len() {
                assert(file.subrange(at, at + item.len())[k] == item[k]);
            }
        }
    }
    uleb_reads_back(declared as nat, rest);
    assert(file.subrange(at + n, at + n + bytes.len()) =~= bytes) by {
        assert forall|k: int| 0 <= k < bytes.len() implies file[at + n + k] == bytes[k] by {
            assert(file.subrange(at, at + item.len())[n + k] == item[n + k]);
        }
    }
    assert(file.subrange(at, at + item.len())[n + bytes.len()] == item[n + bytes.len()]);
    lemma_up_to_zero(file, at + n, bytes);
}

/// A lifted pool has four bytes for each number.
pub proof fn lifted_len(ids: Seq<u8>, base: u32, n: nat)
    ensures
        lifted(ids, base, n).len() == 4 * n,
    decreases n,
{
    if n > 0 {
        lifted_len(ids, base, (n - 1) as nat);
    }
}

/// Lifting a pool adds the base to each of its numbers, up to the greatest one that
/// fits.
pub proof fn lifting_adds_the_base(ids: Seq<u8>, base: u32, n: nat, i: int)
    requires
        0 <= i < n,
        4 * n <= ids.len(),
    ensures
        read_le32(lifted(ids, base, n), 4 * i) == sat32(base + read_le32(ids, 4 * i)),
    decreases n,
{
    let before = lifted(ids, base, (n - 1) as nat);
    lifted_len(ids, base, n);
    lifted_len(ids, base, (n - 1) as nat);
    if i < n - 1 {
        lifting_adds_the_base(ids, base, (n - 1) as nat, i);
        assert(lifted(ids, base, n)[4 * i] == before[4 * i]);
        assert(lifted(ids, base, n)[4 * i + 1] == before[4 * i + 1]);
        assert(lifted(ids, base, n)[4 * i + 2] == before[4 * i + 2]);
        assert(lifted(ids, base, n)[4 * i + 3] == before[4 * i + 3]);
    } else {
        let v = sat32(base + read_le32(ids, 4 * i));
        le32_reads_back(before, v, Seq::empty());
        assert(before + le32(v) + Seq::<u8>::empty() =~= lifted(ids, base, n));
    }
}

// Records
/// The type entry at `at`.
pub open spec fn type_read(file: Seq<u8>, at: int) -> StringIdx {
    StringIdx(read_le32(file, at) as u32)
}

proof fn lemma_type_at(idxs: Seq<StringIdx>, n: nat, i: int)
    requires
        0 <= i < n <= idxs.len(),
    ensures
        holds_at(type_ids(idxs, n), 4 * i, le32(idxs[i].0)),
    decreases n,
{
    let before = type_ids(idxs, (n - 1) as nat);
    let item = le32(idxs[i].0);
    type_ids_len(idxs, (n - 1) as nat);
    assert(item.len() == 4);
    if i < n - 1 {
        lemma_type_at(idxs, (n - 1) as nat, i);
        assert(type_ids(idxs, n).subrange(4 * i, 4 * i + item.len()) =~= before.subrange(
            4 * i,
            4 * i + item.len(),
        ));
    } else {
        assert(type_ids(idxs, n).subrange(4 * i, 4 * i + item.len()) =~= item);
    }
}

/// Wherever the type pool stands, every entry reads back.
pub proof fn types_read_back(file: Seq<u8>, at: int, idxs: Seq<StringIdx>, i: int)
    requires
        holds_at(file, at, type_ids(idxs, idxs.len())),
        0 <= i < idxs.len(),
    ensures
        type_read(file, at + 4 * i) == idxs[i],
{
    lemma_type_at(idxs, idxs.len(), i);
    holding_is_transitive(file, at, type_ids(idxs, idxs.len()), 4 * i, le32(idxs[i].0));
    assert(le32(idxs[i].0).subrange(0, 4) =~= le32(idxs[i].0));
    word_in(file, at + 4 * i, le32(idxs[i].0), 0, idxs[i].0);
}

/// The prototype at `at`.
pub open spec fn proto_read(file: Seq<u8>, at: int) -> ProtoIdItem {
    ProtoIdItem {
        shorty_idx: StringIdx(read_le32(file, at) as u32),
        return_type_idx: TypeIdx(read_le32(file, at + 4) as u32),
        parameters_off: read_le32(file, at + 8) as u32,
    }
}

proof fn lemma_proto_at(protos: Seq<ProtoIdItem>, n: nat, i: int)
    requires
        0 <= i < n <= protos.len(),
    ensures
        holds_at(proto_ids(protos, n), 12 * i, proto_item(protos[i])),
    decreases n,
{
    let before = proto_ids(protos, (n - 1) as nat);
    let item = proto_item(protos[i]);
    proto_ids_len(protos, (n - 1) as nat);
    assert(item.len() == 12);
    if i < n - 1 {
        lemma_proto_at(protos, (n - 1) as nat, i);
        assert(proto_ids(protos, n).subrange(12 * i, 12 * i + item.len()) =~= before.subrange(
            12 * i,
            12 * i + item.len(),
        ));
    } else {
        assert(proto_ids(protos, n).subrange(12 * i, 12 * i + item.len()) =~= item);
    }
}

/// Wherever the prototype pool stands, every prototype reads back.
pub proof fn protos_read_back(file: Seq<u8>, at: int, protos: Seq<ProtoIdItem>, i: int)
    requires
        holds_at(file, at, proto_ids(protos, protos.len())),
        0 <= i < protos.len(),
    ensures
        proto_read(file, at + 12 * i) == protos[i],
{
    let p = protos[i];
    let item = proto_item(p);
    let from = at + 12 * i;
    lemma_proto_at(protos, protos.len(), i);
    holding_is_transitive(file, at, proto_ids(protos, protos.len()), 12 * i, item);
    assert(item.subrange(0, 4) =~= le32(p.shorty_idx.0));
    assert(item.subrange(4, 8) =~= le32(p.return_type_idx.0));
    assert(item.subrange(8, 12) =~= le32(p.parameters_off));
    word_in(file, from, item, 0, p.shorty_idx.0);
    word_in(file, from, item, 4, p.return_type_idx.0);
    word_in(file, from, item, 8, p.parameters_off);
}

/// The field reference at `at`.
pub open spec fn field_read(file: Seq<u8>, at: int) -> FieldIdItem {
    FieldIdItem {
        class_idx: TypeIdx(read_le16(file, at) as u32),
        type_idx: TypeIdx(read_le16(file, at + 2) as u32),
        name_idx: StringIdx(read_le32(file, at + 4) as u32),
    }
}

proof fn lemma_field_at(fields: Seq<FieldIdItem>, k: nat, i: int)
    requires
        k <= i < fields.len(),
        field_ids(fields, k).fault is None,
    ensures
        field_item(fields[i]).fault is None,
        holds_at(field_ids(fields, k).bytes, 8 * (i - k), field_item(fields[i]).bytes),
    decreases fields.len() - k,
{
    let first = field_item(fields[k as int]).bytes;
    let rest = field_ids(fields, k + 1).bytes;
    field_ids_len(fields, k);
    field_ids_len(fields, k + 1);
    assert(first.len() == 8);
    if k < i {
        lemma_field_at(fields, k + 1, i);
        in_rest(first, rest, 8 * (i - k - 1), field_item(fields[i]).bytes);
    } else {
        in_front(first, rest);
    }
}

/// Wherever the field pool stands, every field reference reads back.
pub proof fn fields_read_back(file: Seq<u8>, at: int, fields: Seq<FieldIdItem>, i: int)
    requires
        field_ids(fields, 0).fault is None,
        holds_at(file, at, field_ids(fields, 0).bytes),
        0 <= i < fields.len(),
    ensures
        field_read(file, at + 8 * i) == fields[i],
{
    let f = fields[i];
    let item = field_item(f).bytes;
    let from = at + 8 * i;
    lemma_field_at(fields, 0, i);
    holding_is_transitive(file, at, field_ids(fields, 0).bytes, 8 * i, item);
    assert(item.subrange(0, 2) =~= le16(f.class_idx.0 as u16));
    assert(item.subrange(2, 4) =~= le16(f.type_idx.0 as u16));
    assert(item.subrange(4, 8) =~= le32(f.name_idx.0));
    half_in(file, from, item, 0, f.class_idx.0 as u16);
    half_in(file, from, item, 2, f.type_idx.0 as u16);
    word_in(file, from, item, 4, f.name_idx.0);
}

/// The method reference at `at`.
pub open spec fn method_read(file: Seq<u8>, at: int) -> MethodIdItem {
    MethodIdItem {
        class_idx: TypeIdx(read_le16(file, at) as u32),
        proto_idx: ProtoIdx(read_le16(file, at + 2) as u32),
        name_idx: StringIdx(read_le32(file, at + 4) as u32),
    }
}

proof fn lemma_method_at(methods: Seq<MethodIdItem>, k: nat, i: int)
    requires
        k <= i < methods.len(),
        method_ids(methods, k).fault is None,
    ensures
        method_item(methods[i]).fault is None,
        holds_at(method_ids(methods, k).bytes, 8 * (i - k), method_item(methods[i]).bytes),
    decreases methods.len() - k,
{
    let first = method_item(methods[k as int]).bytes;
    let rest = method_ids(methods, k + 1).bytes;
    method_ids_len(methods, k);
    method_ids_len(methods, k + 1);
    assert(first.len() == 8);
    if k < i {
        lemma_method_at(methods, k + 1, i);
        in_rest(first, rest, 8 * (i - k - 1), method_item(methods[i]).bytes);
    } else {
        in_front(first, rest);
    }
}

/// Wherever the method pool stands, every method reference reads back.
pub proof fn methods_read_back(file: Seq<u8>, at: int, methods: Seq<MethodIdItem>, i: int)
    requires
        method_ids(methods, 0).fault is None,
        holds_at(file, at, method_ids(methods, 0).bytes),
        0 <= i < methods.len(),
    ensures
        method_read(file, at + 8 * i) == methods[i],
{
    let m = methods[i];
    let item = method_item(m).bytes;
    let from = at + 8 * i;
    lemma_method_at(methods, 0, i);
    holding_is_transitive(file, at, method_ids(methods, 0).bytes, 8 * i, item);
    assert(item.subrange(0, 2) =~= le16(m.class_idx.0 as u16));
    assert(item.subrange(2, 4) =~= le16(m.proto_idx.0 as u16));
    assert(item.subrange(4, 8) =~= le32(m.name_idx.0));
    half_in(file, from, item, 0, m.class_idx.0 as u16);
    half_in(file, from, item, 2, m.proto_idx.0 as u16);
    word_in(file, from, item, 4, m.name_idx.0);
}

/// The class definition at `at`.
pub open spec fn class_read(file: Seq<u8>, at: int) -> ClassDefItem {
    let superclass = read_le32(file, at + 8) as u32;
    let source_file = read_le32(file, at + 16) as u32;
    ClassDefItem {
        class_idx: TypeIdx(read_le32(file, at) as u32),
        access_flags: read_le32(file, at + 4) as u32,
        superclass_idx: if superclass == NO_INDEX {
            None
        } else {
            Some(TypeIdx(superclass))
        },
        interfaces_off: read_le32(file, at + 12) as u32,
        source_file_idx: if source_file == NO_INDEX {
            None
        } else {
            Some(StringIdx(source_file))
        },
        annotations_off: read_le32(file, at + 20) as u32,
        class_data_off: read_le32(file, at + 24) as u32,
        static_values_off: read_le32(file, at + 28) as u32,
    }
}

proof fn lemma_class_at(classes: Seq<ClassDefItem>, k: nat, i: int)
    requires
        k <= i < classes.len(),
        class_defs(classes, k).fault is None,
    ensures
        class_item(classes[i]).fault is None,
        holds_at(class_defs(classes, k).bytes, 32 * (i - k), class_item(classes[i]).bytes),
    decreases classes.len() - k,
{
    let first = class_item(classes[k as int]).bytes;
    let rest = class_defs(classes, k + 1).bytes;
    class_defs_len(classes, k);
    class_defs_len(classes, k + 1);
    assert(first.len() == 32);
    if k < i {
        lemma_class_at(classes, k + 1, i);
        in_rest(first, rest, 32 * (i - k - 1), class_item(classes[i]).bytes);
    } else {
        in_front(first, rest);
    }
}

/// Wherever the class pool stands, every class definition reads back, the absent
/// superclass and the absent source file included.
pub proof fn classes_read_back(file: Seq<u8>, at: int, classes: Seq<ClassDefItem>, i: int)
    requires
        class_defs(classes, 0).fault is None,
        holds_at(file, at, class_defs(classes, 0).bytes),
        0 <= i < classes.len(),
    ensures
        class_read(file, at + 32 * i) == classes[i],
{
    let c = classes[i];
    let item = class_fields(c);
    let from = at + 32 * i;
    lemma_class_at(classes, 0, i);
    holding_is_transitive(file, at, class_defs(classes, 0).bytes, 32 * i, item);
    assert(item.subrange(0, 4) =~= le32(c.class_idx.0));
    word_in(file, from, item, 0, c.class_idx.0);
    assert(item.subrange(4, 8) =~= le32(c.access_flags));
    word_in(file, from, item, 4, c.access_flags);
    assert(item.subrange(8, 12) =~= le32(type_or_none(c.superclass_idx)));
    word_in(file, from, item, 8, type_or_none(c.superclass_idx));
    assert(item.subrange(12, 16) =~= le32(c.interfaces_off));
    word_in(file, from, item, 12, c.interfaces_off);
    assert(item.subrange(16, 20) =~= le32(string_or_none(c.source_file_idx)));
    word_in(file, from, item, 16, string_or_none(c.source_file_idx));
    assert(item.subrange(20, 24) =~= le32(c.annotations_off));
    word_in(file, from, item, 20, c.annotations_off);
    assert(item.subrange(24, 28) =~= le32(c.class_data_off));
    word_in(file, from, item, 24, c.class_data_off);
    assert(item.subrange(28, 32) =~= le32(c.static_values_off));
    word_in(file, from, item, 28, c.static_values_off);
}

/// The method handle at `at`.
pub open spec fn handle_read(file: Seq<u8>, at: int) -> MethodHandleItem {
    MethodHandleItem {
        kind: read_le16(file, at) as u16,
        field_or_method_id: read_le16(file, at + 4) as u16,
    }
}

proof fn lemma_handle_at(handles: Seq<MethodHandleItem>, n: nat, i: int)
    requires
        0 <= i < n <= handles.len(),
    ensures
        holds_at(method_handles(handles, n), 8 * i, handle_item(handles[i])),
    decreases n,
{
    let before = method_handles(handles, (n - 1) as nat);
    let item = handle_item(handles[i]);
    method_handles_len(handles, (n - 1) as nat);
    assert(item.len() == 8);
    if i < n - 1 {
        lemma_handle_at(handles, (n - 1) as nat, i);
        assert(method_handles(handles, n).subrange(8 * i, 8 * i + item.len()) =~= before.subrange(
            8 * i,
            8 * i + item.len(),
        ));
    } else {
        assert(method_handles(handles, n).subrange(8 * i, 8 * i + item.len()) =~= item);
    }
}

/// Wherever the method-handle pool stands, every method handle reads back.
pub proof fn handles_read_back(file: Seq<u8>, at: int, handles: Seq<MethodHandleItem>, i: int)
    requires
        holds_at(file, at, method_handles(handles, handles.len())),
        0 <= i < handles.len(),
    ensures
        handle_read(file, at + 8 * i) == handles[i],
{
    let h = handles[i];
    let item = handle_item(h);
    let from = at + 8 * i;
    lemma_handle_at(handles, handles.len(), i);
    holding_is_transitive(file, at, method_handles(handles, handles.len()), 8 * i, item);
    assert(item.subrange(0, 2) =~= le16(h.kind));
    assert(item.subrange(4, 6) =~= le16(h.field_or_method_id));
    half_in(file, from, item, 0, h.kind);
    half_in(file, from, item, 4, h.field_or_method_id);
}

// Strings put back where they were found
/// No string from position `from` on is put where the one at `i` is.
pub open spec fn keeps_clear(
    strings: Seq<(u32, Seq<u8>)>,
    offs: Seq<u32>,
    i: int,
    from: int,
) -> bool {
    forall|j: int|
        #![trigger offs[j]]
        from <= j < strings.len() ==> apart(
            offs[j] as int,
            string_item(strings[j].0, strings[j].1).len(),
            offs[i] as int,
            string_item(strings[i].0, strings[i].1).len(),
        )
}

proof fn lemma_strings_placed(
    strings: Seq<(u32, Seq<u8>)>,
    offs: Seq<u32>,
    base: u32,
    acc: StringPool,
    k: nat,
    i: int,
)
    requires
        k <= strings.len() == offs.len(),
        0 <= i < strings.len(),
        acc.ids.len() == 4 * k,
        keeps_clear(strings, offs, i, i + 1),
        i < k ==> holds_at(
            acc.data,
            offs[i] - base,
            string_item(strings[i].0, strings[i].1),
        ) && read_le32(acc.ids, 4 * i) == offs[i],
        strings_placed(strings, offs, base, acc, k) is Ok,
    ensures
        ({
            let p = strings_placed(strings, offs, base, acc, k)->Ok_0;
            &&& holds_at(p.data, offs[i] - base, string_item(strings[i].0, strings[i].1))
            &&& read_le32(p.ids, 4 * i) == offs[i]
        }),
    decreases strings.len() - k,
{
    if k < strings.len() {
        let off = offs[k as int];
        let item = string_item(strings[k as int].0, strings[k as int].1);
        let now = StringPool {
            ids: acc.ids + le32(off),
            data: overlay(acc.data, off - base, item),
        };
        if i < k {
            overlay_apart(
                acc.data,
                off - base,
                item,
                offs[i] - base,
                string_item(strings[i].0, strings[i].1),
            );
            assert(now.ids[4 * i] == acc.ids[4 * i]);
            assert(now.ids[4 * i + 1] == acc.ids[4 * i + 1]);
            assert(now.ids[4 * i + 2] == acc.ids[4 * i + 2]);
            assert(now.ids[4 * i + 3] == acc.ids[4 * i + 3]);
        } else if i == k {
            overlay_holds(acc.data, off - base, item);
            le32_reads_back(acc.ids, off, Seq::empty());
            assert(acc.ids + le32(off) + Seq::<u8>::empty() =~= now.ids);
        }
        lemma_strings_placed(strings, offs, base, now, k + 1, i);
    }
}

/// A string put back stands at the offset at which it was found, which is also the
/// place that the pool gives for it, unless a later string is put over it.
pub proof fn placed_strings_stand(
    strings: Seq<(u32, Seq<u8>)>,
    offs: Seq<u32>,
    base: u32,
    size: u32,
    i: int,
)
    requires
        string_pool_placed(strings, offs, base, size) is Ok,
        0 <= i < strings.len(),
        keeps_clear(strings, offs, i, i + 1),
    ensures
        ({
            let p = string_pool_placed(strings, offs, base, size)->Ok_0;
            &&& holds_at(p.data, offs[i] - base, string_item(strings[i].0, strings[i].1))
            &&& read_le32(p.ids, 4 * i) == offs[i]
        }),
{
    lemma_strings_placed(
        strings,
        offs,
        base,
        StringPool { ids: Seq::empty(), data: zeros(size as nat) },
        0,
        i,
    );
}

// The order of strings

/// In a pool in which no string comes before its predecessor, no string comes before
/// any string in front of it.
pub proof fn ordered_pools_are_sorted(strings: Seq<DexString>, i: int, j: int)
    requires
        pool_ordered(strings, strings.len() as int),
        0 <= i <= j < strings.len(),
    ensures
        lex_le(strings[i].sort_units(), strings[j].sort_units(), 0),
    decreases j - i,
{
    let a = strings[i].sort_units();
    let c = strings[j].sort_units();
    if i == j {
        unit_order_is_total(a, a, a);
    } else {
        let b = strings[j - 1].sort_units();
        ordered_pools_are_sorted(strings, i, j - 1);
        assert(strings[j] == strings[j]);
        unit_order_is_total(a, b, c);
    }
}

} // verus!
