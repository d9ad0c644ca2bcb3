//! What can be serialized: an item is refused only where a field of the format has no room
//! for it, or where what it refers to is not there.
use vstd::prelude::*;

use crate::annotation::{EncodedAnnotation, EncodedValue};
use crate::collections::{sorted_keys, sorted_keys_list};
use crate::decode::{CatchHandler, EncodedField, EncodedMethod, PayloadData, TryItem};
use crate::emit_dex::class_data::{class_data, field_list, method_list};
use crate::emit_dex::code_item::{container, handler_start, handlers_fault};
use crate::emit_dex::encoded_value::{body_written, elements_written, items_written, value_written};
use crate::emit_dex::error::DexEmitError;
use crate::emit_dex::in_place::{behind, in_place, put_back};
use crate::emit_dex::laws::values::elements_are_finite;
use crate::emit_dex::layout::{pool_layout, PoolSizes};
use crate::emit_dex::map_list::{map_list, MapItem};
use crate::emit_dex::payload::{payload_written, targets_written};
use crate::emit_dex::pools::{
    class_defs, field_ids, method_ids, string_item, string_pool_placed, strings_placed, type_items,
    type_list, StringPool,
};
use crate::emit_dex::sections::{all_resolved, laid_out, padded, resolved, section, Section};
use crate::emit_dex::widths::{annotation_written, elements_alone};
use crate::ids::{ClassDefItem, FieldIdItem, MethodIdItem, TypeIdx};

verus! {

// Pools

proof fn lemma_type_items(idxs: Seq<TypeIdx>, i: nat)
    ensures
        type_items(idxs, i).fault is None <==> forall|k: int|
            i <= k < idxs.len() ==> (#[trigger] idxs[k]).0 <= 0xFFFF,
    decreases idxs.len() - i,
{
    if i < idxs.len() {
        lemma_type_items(idxs, i + 1);
        if idxs[i as int].0 <= 0xFFFF && type_items(idxs, i + 1).fault is None {
            assert forall|k: int| i <= k < idxs.len() implies (#[trigger] idxs[k]).0 <= 0xFFFF by {
                if k > i {
                    assert(i + 1 <= k);
                }
            }
        }
    }
}

/// A type list can be serialized where each of its types has an index of sixteen bits.
pub proof fn type_lists_are_accepted(idxs: Seq<TypeIdx>)
    ensures
        type_list(idxs).result() is Ok <==> forall|k: int|
            0 <= k < idxs.len() ==> (#[trigger] idxs[k]).0 <= 0xFFFF,
{
    lemma_type_items(idxs, 0);
}

proof fn lemma_field_ids(fields: Seq<FieldIdItem>, i: nat)
    ensures
        field_ids(fields, i).fault is None <==> forall|k: int|
            i <= k < fields.len() ==> (#[trigger] fields[k]).class_idx.0 <= 0xFFFF
                && fields[k].type_idx.0 <= 0xFFFF,
    decreases fields.len() - i,
{
    if i < fields.len() {
        lemma_field_ids(fields, i + 1);
        let f = fields[i as int];
        if f.class_idx.0 <= 0xFFFF && f.type_idx.0 <= 0xFFFF && field_ids(fields, i + 1).fault
            is None {
            assert forall|k: int| i <= k < fields.len() implies (
            #[trigger] fields[k]).class_idx.0 <= 0xFFFF && fields[k].type_idx.0 <= 0xFFFF by {
                if k > i {
                    assert(i + 1 <= k);
                }
            }
        }
    }
}

/// Fields can be serialized where their classes and types have indexes of sixteen bits.
pub proof fn fields_are_accepted(fields: Seq<FieldIdItem>)
    ensures
        field_ids(fields, 0).result() is Ok <==> forall|k: int|
            0 <= k < fields.len() ==> (#[trigger] fields[k]).class_idx.0 <= 0xFFFF
                && fields[k].type_idx.0 <= 0xFFFF,
{
    lemma_field_ids(fields, 0);
}

proof fn lemma_method_ids(methods: Seq<MethodIdItem>, i: nat)
    ensures
        method_ids(methods, i).fault is None <==> forall|k: int|
            i <= k < methods.len() ==> (#[trigger] methods[k]).class_idx.0 <= 0xFFFF
                && methods[k].proto_idx.0 <= 0xFFFF,
    decreases methods.len() - i,
{
    if i < methods.len() {
        lemma_method_ids(methods, i + 1);
        let m = methods[i as int];
        if m.class_idx.0 <= 0xFFFF && m.proto_idx.0 <= 0xFFFF && method_ids(methods, i + 1).fault
            is None {
            assert forall|k: int| i <= k < methods.len() implies (
            #[trigger] methods[k]).class_idx.0 <= 0xFFFF && methods[k].proto_idx.0 <= 0xFFFF by {
                if k > i {
                    assert(i + 1 <= k);
                }
            }
        }
    }
}

/// Methods can be serialized where their classes and prototypes have indexes of sixteen bits.
pub proof fn methods_are_accepted(methods: Seq<MethodIdItem>)
    ensures
        method_ids(methods, 0).result() is Ok <==> forall|k: int|
            0 <= k < methods.len() ==> (#[trigger] methods[k]).class_idx.0 <= 0xFFFF
                && methods[k].proto_idx.0 <= 0xFFFF,
{
    lemma_method_ids(methods, 0);
}

/// None of the indexes of the class is the one that stands for none.
pub open spec fn tells_none_apart(c: ClassDefItem) -> bool {
    &&& c.class_idx.0 != 0xFFFF_FFFF
    &&& c.superclass_idx matches Some(t) ==> t.0 != 0xFFFF_FFFF
    &&& c.source_file_idx matches Some(s) ==> s.0 != 0xFFFF_FFFF
}

proof fn lemma_class_defs(classes: Seq<ClassDefItem>, i: nat)
    ensures
        class_defs(classes, i).fault is None <==> forall|k: int|
            i <= k < classes.len() ==> tells_none_apart(#[trigger] classes[k]),
    decreases classes.len() - i,
{
    if i < classes.len() {
        lemma_class_defs(classes, i + 1);
        let c = classes[i as int];
        if tells_none_apart(c) && class_defs(classes, i + 1).fault is None {
            assert forall|k: int| i <= k < classes.len() implies tells_none_apart(
                #[trigger] classes[k],
            ) by {
                if k > i {
                    assert(i + 1 <= k);
                }
            }
        }
    }
}

/// Classes can be serialized where none of their indexes is the one that stands for none.
pub proof fn classes_are_accepted(classes: Seq<ClassDefItem>)
    ensures
        class_defs(classes, 0).result() is Ok <==> forall|k: int|
            0 <= k < classes.len() ==> tells_none_apart(#[trigger] classes[k]),
{
    lemma_class_defs(classes, 0);
}

/// The id pools have places where none of them is longer than 32 bits can say. Each starts
/// where the one before it ends, the first behind the header; one that is empty is at 0.
pub proof fn pools_are_placed_one_after_another(s: PoolSizes, in_place: bool)
    requires
        0 <= s.strings,
        0 <= s.types,
        0 <= s.protos,
        0 <= s.fields,
        0 <= s.methods,
        0 <= s.classes,
        0 <= s.call_sites,
        0 <= s.handles,
    ensures
        pool_layout(s, in_place) is Ok <==> s.strings <= u32::MAX && s.types <= u32::MAX && s.protos
            <= u32::MAX && s.fields <= u32::MAX && s.methods <= u32::MAX && s.classes <= u32::MAX
            && s.call_sites <= u32::MAX && s.handles <= u32::MAX,
        112 + s.strings + s.types + s.protos + s.fields + s.methods + s.classes + s.call_sites
            + s.handles <= u32::MAX ==> {
            let p = pool_layout(s, in_place)->Ok_0;
            &&& p.string_ids_off == if s.strings > 0 { 112int } else { 0 }
            &&& p.type_ids_off == if s.types > 0 { 112 + s.strings } else { 0 }
            &&& p.proto_ids_off == if s.protos > 0 { 112 + s.strings + s.types } else { 0 }
            &&& p.field_ids_off == if s.fields > 0 { 112 + s.strings + s.types + s.protos } else { 0
            }
            &&& p.method_ids_off == if s.methods > 0 {
                112 + s.strings + s.types + s.protos + s.fields
            } else {
                0
            }
            &&& p.class_defs_off == if s.classes > 0 {
                112 + s.strings + s.types + s.protos + s.fields + s.methods
            } else {
                0
            }
            &&& p.call_site_ids_off == if s.call_sites > 0 {
                112 + s.strings + s.types + s.protos + s.fields + s.methods + s.classes
            } else {
                0
            }
            &&& p.method_handles_off == if s.handles > 0 {
                112 + s.strings + s.types + s.protos + s.fields + s.methods + s.classes
                    + s.call_sites
            } else {
                0
            }
            &&& p.data_off == 112 + s.strings + s.types + s.protos + s.fields + s.methods
                + s.classes + s.call_sites + s.handles
        },
{
}

proof fn lemma_strings_placed(
    strings: Seq<(u32, Seq<u8>)>,
    offs: Seq<u32>,
    base: u32,
    acc: StringPool,
    i: nat,
)
    requires
        strings.len() == offs.len(),
    ensures
        strings_placed(strings, offs, base, acc, i) is Ok <==> forall|k: int|
            i <= k < strings.len() ==> base <= #[trigger] offs[k] && offs[k] - base + string_item(
                strings[k].0,
                strings[k].1,
            ).len() <= acc.data.len(),
    decreases strings.len() - i,
{
    if i < strings.len() {
        let off = offs[i as int];
        let item = string_item(strings[i as int].0, strings[i as int].1);
        if off >= base && off - base + item.len() <= acc.data.len() {
            let next = StringPool {
                ids: acc.ids + crate::bytes::le32(off),
                data: crate::bytes::overlay(acc.data, off - base, item),
            };
            lemma_strings_placed(strings, offs, base, next, i + 1);
            if strings_placed(strings, offs, base, next, i + 1) is Ok {
                assert forall|k: int| i <= k < strings.len() implies base <= #[trigger] offs[k]
                    && offs[k] - base + string_item(strings[k].0, strings[k].1).len()
                    <= acc.data.len() by {
                    if k > i {
                        assert(i + 1 <= k);
                    }
                }
            }
        }
    }
}

/// Strings can go back to where they were found where each has a place that is in their
/// section, with room for the string up to its end.
pub proof fn strings_that_have_room_go_back(
    strings: Seq<(u32, Seq<u8>)>,
    offs: Seq<u32>,
    base: u32,
    size: u32,
)
    ensures
        string_pool_placed(strings, offs, base, size) is Ok <==> strings.len() == offs.len()
            && forall|k: int|
            0 <= k < strings.len() ==> base <= #[trigger] offs[k] && offs[k] - base + string_item(
                strings[k].0,
                strings[k].1,
            ).len() <= size,
{
    if strings.len() == offs.len() {
        lemma_strings_placed(
            strings,
            offs,
            base,
            StringPool { ids: Seq::empty(), data: crate::bytes::zeros(size as nat) },
            0,
        );
    }
}

// Class members

/// The indexes ascend.
pub open spec fn fields_ascend(fields: Seq<EncodedField>) -> bool {
    forall|j: int, k: int|
        0 <= j < k < fields.len() ==> (#[trigger] fields[j]).field_idx.0 < (
        #[trigger] fields[k]).field_idx.0
}

/// The indexes ascend.
pub open spec fn methods_ascend(methods: Seq<EncodedMethod>) -> bool {
    forall|j: int, k: int|
        0 <= j < k < methods.len() ==> (#[trigger] methods[j]).method_idx.0 < (
        #[trigger] methods[k]).method_idx.0
}

spec fn fields_step_from(fields: Seq<EncodedField>, i: nat) -> bool {
    forall|k: int|
        #![trigger fields[k]]
        i <= k < fields.len() && 0 < k ==> fields[k - 1].field_idx.0 < fields[k].field_idx.0
}

spec fn methods_step_from(methods: Seq<EncodedMethod>, i: nat) -> bool {
    forall|k: int|
        #![trigger methods[k]]
        i <= k < methods.len() && 0 < k ==> methods[k - 1].method_idx.0 < methods[k].method_idx.0
}

proof fn lemma_field_list(fields: Seq<EncodedField>, i: nat)
    ensures
        field_list(fields, i).fault is None <==> fields_step_from(fields, i),
    decreases fields.len() - i,
{
    if i < fields.len() {
        lemma_field_list(fields, i + 1);
        let here = i == 0 || fields[i - 1].field_idx.0 < fields[i as int].field_idx.0;
        if here && fields_step_from(fields, i + 1) {
            assert forall|k: int|
                #![trigger fields[k]]
                i <= k < fields.len() && 0 < k implies fields[k - 1].field_idx.0
                < fields[k].field_idx.0 by {
                if k > i {
                    assert(i + 1 <= k);
                }
            }
        }
    }
}

proof fn lemma_fields_ascend(fields: Seq<EncodedField>, j: int, k: int)
    requires
        fields_step_from(fields, 0),
        0 <= j < k < fields.len(),
    ensures
        fields[j].field_idx.0 < fields[k].field_idx.0,
    decreases k - j,
{
    assert(fields[k - 1].field_idx.0 < fields[k].field_idx.0);
    if j < k - 1 {
        lemma_fields_ascend(fields, j, k - 1);
    }
}

proof fn lemma_method_list(methods: Seq<EncodedMethod>, i: nat)
    ensures
        method_list(methods, i).fault is None <==> methods_step_from(methods, i),
    decreases methods.len() - i,
{
    if i < methods.len() {
        lemma_method_list(methods, i + 1);
        let here = i == 0 || methods[i - 1].method_idx.0 < methods[i as int].method_idx.0;
        if here && methods_step_from(methods, i + 1) {
            assert forall|k: int|
                #![trigger methods[k]]
                i <= k < methods.len() && 0 < k implies methods[k - 1].method_idx.0
                < methods[k].method_idx.0 by {
                if k > i {
                    assert(i + 1 <= k);
                }
            }
        }
    }
}

proof fn lemma_methods_ascend(methods: Seq<EncodedMethod>, j: int, k: int)
    requires
        methods_step_from(methods, 0),
        0 <= j < k < methods.len(),
    ensures
        methods[j].method_idx.0 < methods[k].method_idx.0,
    decreases k - j,
{
    assert(methods[k - 1].method_idx.0 < methods[k].method_idx.0);
    if j < k - 1 {
        lemma_methods_ascend(methods, j, k - 1);
    }
}

proof fn lemma_fields_step(fields: Seq<EncodedField>)
    ensures
        field_list(fields, 0).fault is None <==> fields_ascend(fields),
{
    lemma_field_list(fields, 0);
    if fields_step_from(fields, 0) {
        assert forall|j: int, k: int| 0 <= j < k < fields.len() implies (
        #[trigger] fields[j]).field_idx.0 < (#[trigger] fields[k]).field_idx.0 by {
            lemma_fields_ascend(fields, j, k);
        }
    }
}

proof fn lemma_methods_step(methods: Seq<EncodedMethod>)
    ensures
        method_list(methods, 0).fault is None <==> methods_ascend(methods),
{
    lemma_method_list(methods, 0);
    if methods_step_from(methods, 0) {
        assert forall|j: int, k: int| 0 <= j < k < methods.len() implies (
        #[trigger] methods[j]).method_idx.0 < (#[trigger] methods[k]).method_idx.0 by {
            lemma_methods_ascend(methods, j, k);
        }
    }
}

/// The members of a class can be serialized where each of the four lists ascends by index and
/// has a length of 32 bits.
pub proof fn class_members_are_accepted(
    static_fields: Seq<EncodedField>,
    instance_fields: Seq<EncodedField>,
    direct_methods: Seq<EncodedMethod>,
    virtual_methods: Seq<EncodedMethod>,
)
    ensures
        class_data(static_fields, instance_fields, direct_methods, virtual_methods).result() is Ok
            <==> fields_ascend(static_fields) && fields_ascend(instance_fields) && methods_ascend(
            direct_methods,
        ) && methods_ascend(virtual_methods) && static_fields.len() <= u32::MAX
            && instance_fields.len() <= u32::MAX && direct_methods.len() <= u32::MAX
            && virtual_methods.len() <= u32::MAX,
{
    lemma_fields_step(static_fields);
    lemma_fields_step(instance_fields);
    lemma_methods_step(direct_methods);
    lemma_methods_step(virtual_methods);
}

// Method bodies

/// The target is no further from `pc` than 32 bits can say.
pub open spec fn in_reach(target: u32, pc: u32) -> bool {
    -0x8000_0000 <= target - pc <= 0x7FFF_FFFF
}

proof fn lemma_targets(targets: Seq<u32>, pc: u32, i: nat)
    ensures
        targets_written(targets, pc, i).fault is None <==> forall|k: int|
            i <= k < targets.len() ==> in_reach(#[trigger] targets[k], pc),
    decreases targets.len() - i,
{
    if i < targets.len() {
        lemma_targets(targets, pc, i + 1);
        if in_reach(targets[i as int], pc) && targets_written(targets, pc, i + 1).fault is None {
            assert forall|k: int| i <= k < targets.len() implies in_reach(
                #[trigger] targets[k],
                pc,
            ) by {
                if k > i {
                    assert(i + 1 <= k);
                }
            }
        }
    }
}

/// The data block can be expressed: a switch has at most 65535 targets, all in reach, with
/// ascending keys where it has keys of its own; array elements have one of four widths and
/// are whole.
pub open spec fn expressible(payload: PayloadData, pc: u32) -> bool {
    match payload {
        PayloadData::PackedSwitch { first_key, targets } => targets@.len() <= 0xFFFF && forall|
            k: int,
        |
            0 <= k < targets@.len() ==> in_reach(#[trigger] targets@[k], pc),
        PayloadData::SparseSwitch { keys, targets } => {
            &&& keys@.len() == targets@.len()
            &&& keys@.len() <= 0xFFFF
            &&& forall|j: int, k: int| 0 <= j < k < keys@.len() ==> keys@[j] < keys@[k]
            &&& forall|k: int| 0 <= k < targets@.len() ==> in_reach(#[trigger] targets@[k], pc)
        },
        PayloadData::FillArrayData { element_width, data } => {
            &&& element_width == 1 || element_width == 2 || element_width == 4 || element_width
                == 8
            &&& data@.len() % element_width as nat == 0
            &&& data@.len() / element_width as nat <= u32::MAX
        },
    }
}

/// A data block can be serialized where it can be expressed.
pub proof fn payloads_are_accepted(payload: PayloadData, pc: u32)
    ensures
        payload_written(payload, pc).result() is Ok <==> expressible(payload, pc),
{
    match payload {
        PayloadData::PackedSwitch { first_key, targets } => {
            lemma_targets(targets@, pc, 0);
        },
        PayloadData::SparseSwitch { keys, targets } => {
            lemma_targets(targets@, pc, 0);
        },
        PayloadData::FillArrayData { element_width, data } => {},
    }
}

/// The handler catches something, and not more than can be counted.
pub open spec fn catches_something(h: CatchHandler) -> bool {
    &&& h.catches@.len() <= 0x7FFF_FFFF
    &&& h.catches@.len() > 0 || h.catch_all_addr is Some
}

proof fn lemma_handlers(handlers: Seq<CatchHandler>, i: nat)
    ensures
        handlers_fault(handlers, i) is None <==> forall|k: int|
            i <= k < handlers.len() ==> catches_something(#[trigger] handlers[k]),
    decreases handlers.len() - i,
{
    if i < handlers.len() {
        lemma_handlers(handlers, i + 1);
        if catches_something(handlers[i as int]) && handlers_fault(handlers, i + 1) is None {
            assert forall|k: int| i <= k < handlers.len() implies catches_something(
                #[trigger] handlers[k],
            ) by {
                if k > i {
                    assert(i + 1 <= k);
                }
            }
        }
    }
}

/// A method body can be put around an instruction stream of whole code units where there are
/// at most 65535 try blocks, each of which has a handler that sixteen bits can reach, where
/// every handler catches something, and where there is no handler without a try block.
pub proof fn method_bodies_are_accepted(
    registers_size: u16,
    ins_size: u16,
    outs_size: u16,
    debug_info_off: u32,
    insns: Seq<u8>,
    tries: Seq<TryItem>,
    handlers: Seq<CatchHandler>,
)
    ensures
        container(
            registers_size,
            ins_size,
            outs_size,
            debug_info_off,
            insns,
            tries,
            handlers,
        ) is Ok <==> {
            &&& insns.len() % 2 == 0
            &&& insns.len() / 2 <= u32::MAX
            &&& tries.len() <= 0xFFFF
            &&& handlers.len() > 0 ==> tries.len() > 0
            &&& handlers.len() <= u32::MAX
            &&& forall|k: int|
                0 <= k < handlers.len() ==> catches_something(#[trigger] handlers[k])
            &&& forall|k: int|
                0 <= k < tries.len() ==> (#[trigger] tries[k]).handler_idx < handlers.len()
                    && handler_start(handlers, tries[k].handler_idx as nat) <= 0xFFFF
        },
{
    lemma_handlers(handlers, 0);
}

// Sections

proof fn lemma_laid_out(
    keys: Seq<u32>,
    items: Seq<Result<Seq<u8>, DexEmitError>>,
    align: nat,
    over: DexEmitError,
    i: nat,
    acc: Section,
)
    requires
        items.len() == keys.len(),
    ensures
        laid_out(keys, items, align, over, i, acc) is Ok ==> forall|k: int|
            i <= k < items.len() ==> #[trigger] items[k] is Ok,
        (forall|k: int| i <= k < items.len() ==> #[trigger] items[k] is Ok) && acc.blob.len()
            + room_for(items, i) <= u32::MAX ==> laid_out(keys, items, align, over, i, acc) is Ok,
    decreases keys.len() - i,
{
    if i < keys.len() {
        let blob = padded(acc.blob, align);
        assert(blob.len() <= acc.blob.len() + 3);
        if blob.len() <= u32::MAX && items[i as int] is Ok {
            let next = Section {
                blob: blob + items[i as int]->Ok_0,
                remap: acc.remap.insert(keys[i as int], blob.len() as u32),
            };
            lemma_laid_out(keys, items, align, over, i + 1, next);
            if laid_out(keys, items, align, over, i + 1, next) is Ok {
                assert forall|k: int| i <= k < items.len() implies #[trigger] items[k] is Ok by {
                    if k > i {
                        assert(i + 1 <= k);
                    }
                }
            }
        }
    }
}

/// The room that the items from position `i` on take at most, with what aligns them.
pub open spec fn room_for(items: Seq<Result<Seq<u8>, DexEmitError>>, i: nat) -> nat
    decreases items.len() - i,
{
    if i >= items.len() {
        0
    } else {
        (match items[i as int] {
            Ok(part) => part.len(),
            Err(_) => 0,
        }) + 3 + room_for(items, i + 1)
    }
}

/// A section can be laid out where each of its items can be serialized and 32 bits can say
/// how long they are together; where an item cannot, neither can the section.
pub proof fn sections_are_accepted(
    keys: Seq<u32>,
    items: Seq<Result<Seq<u8>, DexEmitError>>,
    align: nat,
    over: DexEmitError,
)
    requires
        items.len() == keys.len(),
    ensures
        section(keys, items, align, over) is Ok ==> forall|k: int|
            0 <= k < items.len() ==> #[trigger] items[k] is Ok,
        (forall|k: int| 0 <= k < items.len() ==> #[trigger] items[k] is Ok) && room_for(items, 0)
            <= u32::MAX ==> section(keys, items, align, over) is Ok,
{
    lemma_laid_out(keys, items, align, over, 0, crate::emit_dex::sections::nothing());
}

proof fn lemma_put_back(
    keys: Seq<u32>,
    items: Seq<Result<Seq<u8>, DexEmitError>>,
    base: u32,
    overrun: &'static str,
    i: nat,
    acc: Section,
)
    requires
        items.len() == keys.len(),
    ensures
        put_back(keys, items, base, overrun, i, acc) is Ok <==> forall|k: int|
            i <= k < items.len() ==> #[trigger] items[k] is Ok && has_room(
                keys[k],
                base,
                items[k]->Ok_0.len(),
                acc.blob.len(),
            ),
    decreases keys.len() - i,
{
    if i < keys.len() {
        let k = i as int;
        let local = behind(keys[k], base);
        if items[k] is Ok && local + items[k]->Ok_0.len() <= acc.blob.len() {
            let next = Section {
                blob: crate::bytes::overlay(acc.blob, local as int, items[k]->Ok_0),
                remap: acc.remap.insert(keys[k], local),
            };
            lemma_put_back(keys, items, base, overrun, i + 1, next);
            assert(has_room(keys[k], base, items[k]->Ok_0.len(), acc.blob.len()));
            if put_back(keys, items, base, overrun, i + 1, next) is Ok {
                assert forall|k: int| i <= k < items.len() implies #[trigger] items[k] is Ok
                    && has_room(keys[k], base, items[k]->Ok_0.len(), acc.blob.len()) by {
                    if k > i {
                        assert(i + 1 <= k);
                    }
                }
            }
        }
    }
}

/// An item of `len` bytes that was found at `off` ends within a section of `size` bytes at
/// `base`.
pub open spec fn has_room(off: u32, base: u32, len: nat, size: nat) -> bool {
    if off >= base {
        off - base + len <= size
    } else {
        len <= size
    }
}

/// Items can go back to where they were found where each can be serialized and ends within
/// the section.
pub proof fn items_that_have_room_go_back(
    keys: Seq<u32>,
    items: Seq<Result<Seq<u8>, DexEmitError>>,
    base: u32,
    size: u32,
    overrun: &'static str,
)
    requires
        items.len() == keys.len(),
    ensures
        in_place(keys, items, base, size, overrun) is Ok <==> forall|k: int|
            0 <= k < items.len() ==> #[trigger] items[k] is Ok && has_room(
                keys[k],
                base,
                items[k]->Ok_0.len(),
                size as nat,
            ),
{
    lemma_put_back(
        keys,
        items,
        base,
        overrun,
        0,
        Section { blob: crate::bytes::zeros(size as nat), remap: Map::empty() },
    );
}

// References

/// What `off` refers to has a place that 32 bits can say; 0 refers to nothing.
pub open spec fn leads_somewhere(off: u32, base: u32, remap: Map<u32, u32>) -> bool {
    off != 0 ==> remap.contains_key(off) && base + remap[off] <= u32::MAX
}

/// A reference can be followed where it leads somewhere, and becomes the place that it leads
/// to; a reference to nothing stays one.
pub proof fn references_are_followed(
    off: u32,
    base: u32,
    remap: Map<u32, u32>,
    missing: &'static str,
    section: &'static str,
    context: &'static str,
)
    ensures
        resolved(off, base, remap, missing, section, context) is Ok <==> leads_somewhere(
            off,
            base,
            remap,
        ),
        resolved(off, base, remap, missing, section, context) matches Ok(now) ==> (off == 0 && now
            == 0) || (off != 0 && now == base + remap[off]),
        resolved(off, base, remap, missing, section, context) matches Err(e)
            ==> if remap.contains_key(off) {
            e is OffsetOverflow
        } else {
            e is UnrepresentableIR
        },
{
}

proof fn lemma_all_resolved(
    offs: Seq<u32>,
    base: u32,
    remap: Map<u32, u32>,
    missing: &'static str,
    section: &'static str,
    context: &'static str,
    i: nat,
    acc: Seq<u32>,
)
    ensures
        all_resolved(offs, base, remap, missing, section, context, i, acc) is Ok <==> forall|
            k: int,
        |
            i <= k < offs.len() ==> leads_somewhere(#[trigger] offs[k], base, remap),
    decreases offs.len() - i,
{
    if i < offs.len() {
        match resolved(offs[i as int], base, remap, missing, section, context) {
            Err(_) => {
                assert(!leads_somewhere(offs[i as int], base, remap));
            },
            Ok(now) => {
                lemma_all_resolved(
                    offs,
                    base,
                    remap,
                    missing,
                    section,
                    context,
                    i + 1,
                    acc.push(now),
                );
                if all_resolved(
                    offs,
                    base,
                    remap,
                    missing,
                    section,
                    context,
                    i + 1,
                    acc.push(now),
                ) is Ok {
                    assert forall|k: int| i <= k < offs.len() implies leads_somewhere(
                        #[trigger] offs[k],
                        base,
                        remap,
                    ) by {
                        if k > i {
                            assert(i + 1 <= k);
                        }
                    }
                }
            },
        }
    }
}

/// A list of references can be followed where each of them can.
pub proof fn reference_lists_are_followed(
    offs: Seq<u32>,
    base: u32,
    remap: Map<u32, u32>,
    missing: &'static str,
    section: &'static str,
    context: &'static str,
)
    ensures
        all_resolved(offs, base, remap, missing, section, context, 0, Seq::empty()) is Ok
            <==> forall|k: int|
            0 <= k < offs.len() ==> leads_somewhere(#[trigger] offs[k], base, remap),
{
    lemma_all_resolved(offs, base, remap, missing, section, context, 0, Seq::empty());
}

/// A map list can be serialized where 32 bits can count its entries and, unless any order is
/// permitted, each starts behind the one before it.
pub proof fn map_lists_are_accepted(items: Seq<MapItem>, permit_unsorted: bool)
    ensures
        map_list(items, permit_unsorted) is Ok <==> items.len() <= u32::MAX && (permit_unsorted
            || forall|j: int, k: int|
            0 <= j < k < items.len() ==> (#[trigger] items[j]).offset < (
            #[trigger] items[k]).offset),
{
}

// Values

proof fn lemma_items(items: Seq<EncodedValue>, i: nat, pending: nat)
    ensures
        items_written(items, i, pending).fault is None <==> forall|k: int|
            i <= k < items.len() ==> value_written(
                #[trigger] items[k],
                (pending + (items.len() - 1 - k)) as nat,
            ).fault is None,
    decreases items.len() - i,
{
    if i < items.len() {
        lemma_items(items, i + 1, pending);
        if value_written(
            items[i as int],
            (pending + (items.len() - 1 - i)) as nat,
        ).fault is None && items_written(items, i + 1, pending).fault is None {
            assert forall|k: int| i <= k < items.len() implies value_written(
                #[trigger] items[k],
                (pending + (items.len() - 1 - k)) as nat,
            ).fault is None by {
                if k > i {
                    assert(i + 1 <= k);
                }
            }
        }
    }
}

/// A value that holds no other values can always be serialized. An array can where each of
/// its items can while those behind it wait, and no more than 65536 wait at a time.
pub proof fn values_are_accepted(v: EncodedValue, pending: nat)
    ensures
        !(v is Array) && !(v is Annotation) ==> value_written(v, pending).result() is Ok,
        v matches EncodedValue::Array(items) ==> (value_written(v, pending).result() is Ok <==> {
            &&& items@.len() <= u32::MAX
            &&& items@.len() > 0 ==> pending + items@.len() <= 65536
            &&& forall|k: int|
                0 <= k < items@.len() ==> value_written(
                    #[trigger] items@[k],
                    (pending + (items@.len() - 1 - k)) as nat,
                ).result() is Ok
        }),
{
    if let EncodedValue::Array(items) = v {
        lemma_items(items@, 0, pending);
        assert forall|k: int| 0 <= k < items@.len() implies (value_written(
            #[trigger] items@[k],
            (pending + (items@.len() - 1 - k)) as nat,
        ).result() is Ok <==> value_written(
            items@[k],
            (pending + (items@.len() - 1 - k)) as nat,
        ).fault is None) by {}
    }
}

proof fn lemma_elements(m: Map<u32, EncodedValue>, keys: Seq<u32>, i: nat, pending: nat)
    requires
        m.dom().finite(),
        forall|j: int| 0 <= j < keys.len() ==> m.contains_key(#[trigger] keys[j]),
    ensures
        elements_written(m, keys, i, pending).fault is None <==> forall|k: int|
            i <= k < keys.len() ==> value_written(
                m[#[trigger] keys[k]],
                (pending + 2 * (keys.len() - 1 - k)) as nat,
            ).fault is None,
    decreases keys.len() - i,
{
    if i < keys.len() {
        lemma_elements(m, keys, i + 1, pending);
        let waiting = (pending + 2 * (keys.len() - 1 - i)) as nat;
        if value_written(m[keys[i as int]], waiting).fault is None && elements_written(
            m,
            keys,
            i + 1,
            pending,
        ).fault is None {
            assert forall|k: int| i <= k < keys.len() implies value_written(
                m[#[trigger] keys[k]],
                (pending + 2 * (keys.len() - 1 - k)) as nat,
            ).fault is None by {
                if k > i {
                    assert(i + 1 <= k);
                }
            }
        }
    }
}

/// An annotation within a value can be serialized where the value of each of its elements can
/// while the names and values behind it wait, and no more than 65536 wait at a time.
pub proof fn nested_annotations_are_accepted(ann: EncodedAnnotation, pending: nat)
    ensures
        ({
            let m = ann.elements@;
            let keys = sorted_keys(m);
            value_written(EncodedValue::Annotation(ann), pending).result() is Ok <==> {
                &&& pending < 65536
                &&& keys.len() <= u32::MAX
                &&& keys.len() > 0 ==> pending + 2 * keys.len() <= 65536
                &&& forall|k: int|
                    0 <= k < keys.len() ==> value_written(
                        m[#[trigger] keys[k]],
                        (pending + 2 * (keys.len() - 1 - k)) as nat,
                    ).fault is None
            }
        }),
{
    let m = ann.elements@;
    let keys = sorted_keys(m);
    sorted_keys_list(m);
    elements_are_finite(m);
    assert forall|j: int| 0 <= j < keys.len() implies m.contains_key(#[trigger] keys[j]) by {
        assert(keys.contains(keys[j]));
    }
    lemma_elements(m, keys, 0, pending);
    assert(value_written(EncodedValue::Annotation(ann), pending).fault == if pending >= 65536 {
        value_written(EncodedValue::Annotation(ann), pending).fault
    } else {
        body_written(ann, pending).fault
    });
}

proof fn lemma_alone(m: Map<u32, EncodedValue>, keys: Seq<u32>, i: nat)
    ensures
        elements_alone(m, keys, i).fault is None <==> forall|k: int|
            i <= k < keys.len() ==> value_written(m[#[trigger] keys[k]], 0).fault is None,
    decreases keys.len() - i,
{
    if i < keys.len() {
        lemma_alone(m, keys, i + 1);
        if value_written(m[keys[i as int]], 0).fault is None && elements_alone(
            m,
            keys,
            i + 1,
        ).fault is None {
            assert forall|k: int| i <= k < keys.len() implies value_written(
                m[#[trigger] keys[k]],
                0,
            ).fault is None by {
                if k > i {
                    assert(i + 1 <= k);
                }
            }
        }
    }
}

/// An annotation can be serialized where the value of each of its elements can, and 32 bits
/// can count them.
pub proof fn annotations_are_accepted(ann: EncodedAnnotation)
    ensures
        annotation_written(ann).result() is Ok <==> {
            &&& sorted_keys(ann.elements@).len() <= u32::MAX
            &&& forall|x: u32| #[trigger]
                ann.elements@.contains_key(x) ==> value_written(ann.elements@[x], 0).result()
                    is Ok
        },
{
    let m = ann.elements@;
    let keys = sorted_keys(m);
    lemma_alone(m, keys, 0);
    sorted_keys_list(m);
    if elements_alone(m, keys, 0).fault is None {
        assert forall|x: u32| #[trigger] m.contains_key(x) implies value_written(m[x], 0).result()
            is Ok by {
            assert(keys.contains(x));
            let k = choose|k: int| 0 <= k < keys.len() && keys[k] == x;
            assert(value_written(m[keys[k]], 0).fault is None);
        }
    } else {
        let k = choose|k: int|
            0 <= k < keys.len() && value_written(m[#[trigger] keys[k]], 0).fault is Some;
        assert(keys.contains(keys[k]));
        assert(m.contains_key(keys[k]));
    }
}

} // verus!
