//! What the links between the parts of a file need.
use vstd::prelude::*;

use crate::annotation::AnnotationDirectoryItem;
use crate::collections::{sorted_keys, sorted_keys_list};
use crate::decode::{CodeItem, Instruction, PayloadData};
use crate::dex_file::DexFile;
use crate::dex_string::DexString;
use crate::emit_dex::code_item::{
    insn_stream, placed_payload, stream_insns, stream_payloads, stream_put, switch_for,
};
use crate::emit_dex::directory::{
    directory_part, field_offs, method_offs, param_offs, part_labels, DirectoryPart, Moved,
};
use crate::emit_dex::instruction::{insn_units, unit_bytes, units_as};
use crate::emit_dex::laws::accepted::{
    classes_are_accepted, expressible, leads_somewhere, payloads_are_accepted,
    reference_lists_are_followed, tells_none_apart,
};
use crate::emit_dex::laws::instructions::unit_bytes_len;
use crate::emit_dex::laws::placed::{listed_at, section_starts_are_listed};
use crate::emit_dex::layout::{
    class_moved, classes_moved, debug_linked, linked_classes, linked_protos, ordered_types,
    proto_moved, protos_moved, string_index, type_indexes, Link, Links,
};
use crate::emit_dex::map_list::section_start;
use crate::emit_dex::payload::payload_written;
use crate::emit_dex::preserve::{bases, Leaves};
use crate::ids::{ClassDefItem, ProtoIdItem, StringIdx};
use crate::opcodes::InsnFormat;

verus! {

// Types

/// The string at `k` reads `text`, and none behind it does.
pub open spec fn reads_last(strings: Seq<DexString>, k: int, text: Seq<char>) -> bool {
    &&& 0 <= k < strings.len()
    &&& strings[k].text() == text
    &&& forall|j: int| k < j < strings.len() ==> (#[trigger] strings[j]).text() != text
}

/// Some string reads `text`.
pub open spec fn is_read(strings: Seq<DexString>, text: Seq<char>) -> bool {
    exists|k: int| 0 <= k < strings.len() && (#[trigger] strings[k]).text() == text
}

proof fn lemma_string_index(strings: Seq<DexString>, n: nat, text: Seq<char>)
    requires
        n <= strings.len() <= u32::MAX,
        forall|j: int| n <= j < strings.len() ==> (#[trigger] strings[j]).text() != text,
    ensures
        match string_index(strings, n, text) {
            Some(idx) => reads_last(strings, idx.0 as int, text) && is_read(strings, text),
            None => !is_read(strings, text),
        },
    decreases n,
{
    if n > 0 {
        if strings[n - 1].text() != text {
            lemma_string_index(strings, (n - 1) as nat, text);
        }
    }
}

proof fn lemma_type_indexes(
    strings: Seq<DexString>,
    descriptors: Seq<String>,
    i: nat,
    acc: Seq<StringIdx>,
)
    requires
        strings.len() <= u32::MAX,
        i == acc.len(),
        i <= descriptors.len(),
        forall|k: int|
            0 <= k < i ==> reads_last(strings, (#[trigger] acc[k]).0 as int, descriptors[k]@),
    ensures
        type_indexes(strings, descriptors, i, acc) is Ok <==> forall|k: int|
            i <= k < descriptors.len() ==> is_read(strings, #[trigger] descriptors[k]@),
        type_indexes(strings, descriptors, i, acc) matches Ok(s) ==> s.len() == descriptors.len()
            && forall|k: int|
            0 <= k < s.len() ==> reads_last(strings, (#[trigger] s[k]).0 as int, descriptors[k]@),
    decreases descriptors.len() - i,
{
    if i < descriptors.len() {
        let text = descriptors[i as int]@;
        lemma_string_index(strings, strings.len(), text);
        match string_index(strings, strings.len(), text) {
            None => {},
            Some(idx) => {
                lemma_type_indexes(strings, descriptors, i + 1, acc.push(idx));
                if type_indexes(strings, descriptors, i + 1, acc.push(idx)) is Ok {
                    assert forall|k: int| i <= k < descriptors.len() implies is_read(
                        strings,
                        #[trigger] descriptors[k]@,
                    ) by {
                        if k > i {
                            assert(i + 1 <= k);
                        }
                    }
                }
            },
        }
    }
}

/// The types have string indexes where each descriptor is among the strings; the index is
/// that of the last string that reads so.
pub proof fn types_are_found_among_the_strings(
    strings: Seq<DexString>,
    descriptors: Seq<String>,
)
    requires
        strings.len() <= u32::MAX,
    ensures
        type_indexes(strings, descriptors, 0, Seq::empty()) is Ok <==> forall|k: int|
            0 <= k < descriptors.len() ==> is_read(strings, #[trigger] descriptors[k]@),
        type_indexes(strings, descriptors, 0, Seq::empty()) matches Ok(s) ==> s.len()
            == descriptors.len() && forall|k: int|
            0 <= k < s.len() ==> reads_last(strings, (#[trigger] s[k]).0 as int, descriptors[k]@),
{
    lemma_type_indexes(strings, descriptors, 0, Seq::empty());
}

/// The type pool can be serialized where its string indexes do not descend.
pub proof fn types_in_order_are_accepted(idxs: Seq<StringIdx>)
    ensures
        ordered_types(idxs) is Ok <==> forall|i: int, j: int|
            0 <= i < j < idxs.len() ==> (#[trigger] idxs[i]).0 <= (#[trigger] idxs[j]).0,
{
    if forall|i: int, j: int|
        0 <= i < j < idxs.len() ==> (#[trigger] idxs[i]).0 <= (#[trigger] idxs[j]).0 {
        assert(crate::emit_dex::ordering::non_decreasing(idxs));
    }
    if ordered_types(idxs) is Ok {
        assert forall|i: int, j: int| 0 <= i < j < idxs.len() implies (#[trigger] idxs[i]).0 <= (
        #[trigger] idxs[j]).0 by {
            use_rank(idxs[i]);
            use_rank(idxs[j]);
        }
    }
}

proof fn use_rank(x: StringIdx)
    ensures
        crate::emit_dex::ordering::SortKey::rank(x) == x.0,
{
}

// Pools

proof fn lemma_protos_moved(
    protos: Seq<ProtoIdItem>,
    lists: Link,
    i: nat,
    acc: Seq<ProtoIdItem>,
)
    ensures
        protos_moved(protos, lists, i, acc) is Ok <==> forall|k: int|
            i <= k < protos.len() ==> leads_somewhere(
                (#[trigger] protos[k]).parameters_off,
                lists.base,
                lists.remap,
            ),
    decreases protos.len() - i,
{
    if i < protos.len() {
        match proto_moved(protos[i as int], lists) {
            Err(_) => {
                assert(!leads_somewhere(
                    protos[i as int].parameters_off,
                    lists.base,
                    lists.remap,
                ));
            },
            Ok(p) => {
                lemma_protos_moved(protos, lists, i + 1, acc.push(p));
                if protos_moved(protos, lists, i + 1, acc.push(p)) is Ok {
                    assert forall|k: int| i <= k < protos.len() implies leads_somewhere(
                        (#[trigger] protos[k]).parameters_off,
                        lists.base,
                        lists.remap,
                    ) by {
                        if k > i {
                            assert(i + 1 <= k);
                        }
                    }
                }
            },
        }
    }
}

/// Prototypes can be serialized where the parameter list of each has a place.
pub proof fn protos_are_linked(protos: Seq<ProtoIdItem>, lists: Link)
    ensures
        linked_protos(protos, lists) is Ok <==> forall|k: int|
            0 <= k < protos.len() ==> leads_somewhere(
                (#[trigger] protos[k]).parameters_off,
                lists.base,
                lists.remap,
            ),
{
    reveal(linked_protos);
    lemma_protos_moved(protos, lists, 0, Seq::empty());
}

/// What a class refers to has places.
pub open spec fn class_leads_somewhere(c: ClassDefItem, to: Links) -> bool {
    &&& leads_somewhere(c.interfaces_off, to.lists.base, to.lists.remap)
    &&& leads_somewhere(c.class_data_off, to.classes.base, to.classes.remap)
    &&& leads_somewhere(c.annotations_off, to.directories.base, to.directories.remap)
    &&& leads_somewhere(c.static_values_off, to.arrays.base, to.arrays.remap)
}

proof fn lemma_classes_moved(
    classes: Seq<ClassDefItem>,
    to: Links,
    i: nat,
    acc: Seq<ClassDefItem>,
)
    requires
        i == acc.len(),
        i <= classes.len(),
        forall|k: int|
            0 <= k < i ==> tells_none_apart(#[trigger] acc[k]) == tells_none_apart(classes[k]),
    ensures
        classes_moved(classes, to, i, acc) is Ok <==> forall|k: int|
            i <= k < classes.len() ==> class_leads_somewhere(#[trigger] classes[k], to),
        classes_moved(classes, to, i, acc) matches Ok(s) ==> s.len() == classes.len() && forall|
            k: int,
        |
            0 <= k < s.len() ==> tells_none_apart(#[trigger] s[k]) == tells_none_apart(classes[k]),
    decreases classes.len() - i,
{
    if i < classes.len() {
        let c = classes[i as int];
        match class_moved(c, to) {
            Err(_) => {
                assert(!class_leads_somewhere(c, to));
            },
            Ok(m) => {
                assert(class_leads_somewhere(c, to));
                lemma_classes_moved(classes, to, i + 1, acc.push(m));
                if classes_moved(classes, to, i + 1, acc.push(m)) is Ok {
                    assert forall|k: int| i <= k < classes.len() implies class_leads_somewhere(
                        #[trigger] classes[k],
                        to,
                    ) by {
                        if k > i {
                            assert(i + 1 <= k);
                        }
                    }
                }
            },
        }
    }
}

/// Classes can be serialized where everything that they refer to has a place, and none of
/// their indexes is the one that stands for none.
pub proof fn classes_are_linked(classes: Seq<ClassDefItem>, to: Links)
    ensures
        linked_classes(classes, to) is Ok <==> forall|k: int|
            0 <= k < classes.len() ==> class_leads_somewhere(#[trigger] classes[k], to)
                && tells_none_apart(classes[k]),
{
    reveal(linked_classes);
    lemma_classes_moved(classes, to, 0, Seq::empty());
    match classes_moved(classes, to, 0, Seq::empty()) {
        Err(_) => {},
        Ok(s) => {
            classes_are_accepted(s);
            if linked_classes(classes, to) is Ok {
                assert forall|k: int| 0 <= k < classes.len() implies class_leads_somewhere(
                    #[trigger] classes[k],
                    to,
                ) && tells_none_apart(classes[k]) by {
                    assert(tells_none_apart(s[k]));
                }
            } else {
                let k = choose|k: int| 0 <= k < s.len() && !tells_none_apart(#[trigger] s[k]);
                assert(!tells_none_apart(classes[k]));
            }
        },
    }
}

// Annotations

/// An annotation directory can be serialized where everything that it refers to has a place,
/// and 32 bits can count its fields, methods and parameters.
pub proof fn directories_are_linked(dir: AnnotationDirectoryItem, to: Moved, in_place: bool)
    ensures
        directory_part(dir, to, in_place) is Ok <==> {
            &&& dir.fields@.len() <= u32::MAX
            &&& dir.methods@.len() <= u32::MAX
            &&& dir.parameters@.len() <= u32::MAX
            &&& leads_somewhere(dir.class_annotations_off, to.set_base, to.set_remap)
            &&& forall|k: int|
                0 <= k < dir.fields@.len() ==> leads_somewhere(
                    (#[trigger] dir.fields@[k]).annotations_off,
                    to.set_base,
                    to.set_remap,
                )
            &&& forall|k: int|
                0 <= k < dir.methods@.len() ==> leads_somewhere(
                    (#[trigger] dir.methods@[k]).annotations_off,
                    to.set_base,
                    to.set_remap,
                )
            &&& forall|k: int|
                0 <= k < dir.parameters@.len() ==> leads_somewhere(
                    (#[trigger] dir.parameters@[k]).annotations_off,
                    to.list_base,
                    to.list_remap,
                )
        },
{
    let f = part_labels(DirectoryPart::Field, in_place);
    let m = part_labels(DirectoryPart::Method, in_place);
    let p = part_labels(DirectoryPart::Parameter, in_place);
    reference_lists_are_followed(
        field_offs(dir),
        to.set_base,
        to.set_remap,
        f.missing,
        f.section,
        f.context,
    );
    reference_lists_are_followed(
        method_offs(dir),
        to.set_base,
        to.set_remap,
        m.missing,
        m.section,
        m.context,
    );
    reference_lists_are_followed(
        param_offs(dir),
        to.list_base,
        to.list_remap,
        p.missing,
        p.section,
        p.context,
    );
    assert forall|k: int| 0 <= k < field_offs(dir).len() implies #[trigger] field_offs(dir)[k]
        == dir.fields@[k].annotations_off by {}
    assert forall|k: int| 0 <= k < method_offs(dir).len() implies #[trigger] method_offs(dir)[k]
        == dir.methods@[k].annotations_off by {}
    assert forall|k: int| 0 <= k < param_offs(dir).len() implies #[trigger] param_offs(dir)[k]
        == dir.parameters@[k].annotations_off by {}
    if directory_part(dir, to, in_place) is Ok {
        assert forall|k: int| 0 <= k < dir.fields@.len() implies leads_somewhere(
            (#[trigger] dir.fields@[k]).annotations_off,
            to.set_base,
            to.set_remap,
        ) by {
            assert(field_offs(dir)[k] == dir.fields@[k].annotations_off);
        }
        assert forall|k: int| 0 <= k < dir.methods@.len() implies leads_somewhere(
            (#[trigger] dir.methods@[k]).annotations_off,
            to.set_base,
            to.set_remap,
        ) by {
            assert(method_offs(dir)[k] == dir.methods@[k].annotations_off);
        }
        assert forall|k: int| 0 <= k < dir.parameters@.len() implies leads_somewhere(
            (#[trigger] dir.parameters@[k]).annotations_off,
            to.list_base,
            to.list_remap,
        ) by {
            assert(param_offs(dir)[k] == dir.parameters@[k].annotations_off);
        }
    }
}

// Method bodies

proof fn lemma_debug_linked(
    remap: Map<u32, u32>,
    items: Map<u32, CodeItem>,
    debug: Map<u32, u32>,
    base: u32,
    blob: Seq<u8>,
    i: nat,
)
    ensures
        debug_linked(remap, items, debug, base, blob, i) is Ok <==> forall|k: int|
            i <= k < sorted_keys(remap).len() && items.contains_key(
                #[trigger] sorted_keys(remap)[k],
            ) ==> remap[sorted_keys(remap)[k]] + 12 <= blob.len(),
    decreases sorted_keys(remap).len() - i,
{
    let keys = sorted_keys(remap);
    if i < keys.len() {
        let key = keys[i as int];
        if !items.contains_key(key) {
            lemma_debug_linked(remap, items, debug, base, blob, i + 1);
            if debug_linked(remap, items, debug, base, blob, i + 1) is Ok {
                assert forall|k: int|
                    i <= k < keys.len() && items.contains_key(#[trigger] keys[k]) implies remap[keys[k]]
                    + 12 <= blob.len() by {
                    if k > i {
                        assert(i + 1 <= k);
                    }
                }
            }
        } else if remap[key] + 12 <= blob.len() {
            let place = crate::emit_dex::layout::debug_place(
                items[key].debug_info_off,
                debug,
                base,
            );
            let next = crate::bytes::overlay(blob, remap[key] + 8, crate::bytes::le32(place));
            lemma_debug_linked(remap, items, debug, base, next, i + 1);
            if debug_linked(remap, items, debug, base, next, i + 1) is Ok {
                assert forall|k: int|
                    i <= k < keys.len() && items.contains_key(#[trigger] keys[k]) implies remap[keys[k]]
                    + 12 <= blob.len() by {
                    if k > i {
                        assert(i + 1 <= k);
                    }
                }
            }
        }
    }
}

/// Debug info can be linked where the head of every method body is in the section.
pub proof fn debug_info_is_linked(
    remap: Map<u32, u32>,
    items: Map<u32, CodeItem>,
    debug: Map<u32, u32>,
    base: u32,
    blob: Seq<u8>,
)
    ensures
        debug_linked(remap, items, debug, base, blob, 0) is Ok <==> forall|key: u32|
            remap.contains_key(key) && items.contains_key(key) ==> #[trigger] remap[key] + 12
                <= blob.len(),
{
    let keys = sorted_keys(remap);
    lemma_debug_linked(remap, items, debug, base, blob, 0);
    sorted_keys_list(remap);
    if debug_linked(remap, items, debug, base, blob, 0) is Ok {
        assert forall|key: u32| remap.contains_key(key) && items.contains_key(key) implies
            #[trigger] remap[key] + 12 <= blob.len() by {
            assert(keys.contains(key));
            let k = choose|k: int| 0 <= k < keys.len() && keys[k] == key;
            assert(items.contains_key(keys[k]));
        }
    } else {
        let k = choose|k: int|
            0 <= k < keys.len() && items.contains_key(#[trigger] keys[k]) && remap[keys[k]] + 12
                > blob.len();
        assert(keys.contains(keys[k]));
        assert(remap.contains_key(keys[k]));
    }
}

/// The first switch whose data block is at `pc` is the instruction at `k`.
pub open spec fn first_switch(insns: Seq<Instruction>, pc: u32, k: int) -> bool {
    &&& 0 <= k < insns.len()
    &&& insns[k].op is PackedSwitch || insns[k].op is SparseSwitch
    &&& insns[k].target == Some(pc)
    &&& forall|j: int|
        0 <= j < k ==> !(((#[trigger] insns[j]).op is PackedSwitch || insns[j].op is SparseSwitch)
            && insns[j].target == Some(pc))
}

proof fn lemma_switch_for(insns: Seq<Instruction>, pc: u32, i: nat)
    requires
        i <= insns.len(),
        forall|j: int|
            0 <= j < i ==> !(((#[trigger] insns[j]).op is PackedSwitch || insns[j].op
                is SparseSwitch) && insns[j].target == Some(pc)),
    ensures
        match switch_for(insns, pc, i) {
            Some(at) => exists|k: int| #[trigger] first_switch(insns, pc, k) && insns[k].addr == at,
            None => forall|k: int| !#[trigger] first_switch(insns, pc, k),
        },
    decreases insns.len() - i,
{
    if i < insns.len() {
        let x = insns[i as int];
        if (x.op == crate::opcodes::Opcode::PackedSwitch || x.op
            == crate::opcodes::Opcode::SparseSwitch) && x.target == Some(pc) {
            assert(first_switch(insns, pc, i as int));
        } else {
            lemma_switch_for(insns, pc, i + 1);
        }
    }
}

/// The data block at `pc` can be expressed; one of a switch, as seen from the first
/// instruction that it belongs to.
pub open spec fn belongs(insns: Seq<Instruction>, pc: u32, p: PayloadData) -> bool {
    if p is FillArrayData {
        expressible(p, 0)
    } else {
        exists|k: int| #[trigger] first_switch(insns, pc, k) && expressible(p, insns[k].addr)
    }
}

/// A data block can be placed where it can be expressed, and one of a switch where there is
/// a switch that it belongs to. Its targets are measured from that switch.
pub proof fn payloads_are_linked(insns: Seq<Instruction>, pc: u32, p: PayloadData)
    ensures
        placed_payload(insns, pc, p) is Ok <==> belongs(insns, pc, p),
        forall|k: int| #[trigger]
            first_switch(insns, pc, k) && !(p is FillArrayData) ==> placed_payload(insns, pc, p)
                == payload_written(p, insns[k].addr).result(),
{
    lemma_switch_for(insns, pc, 0);
    payloads_are_accepted(p, 0);
    match switch_for(insns, pc, 0) {
        Some(at) => {
            payloads_are_accepted(p, at);
            let k = choose|k: int| #[trigger] first_switch(insns, pc, k) && insns[k].addr == at;
            assert forall|j: int| #[trigger] first_switch(insns, pc, j) implies j == k by {
                if j < k {
                    assert(insns[j].target == Some(pc));
                }
                if k < j {
                    assert(insns[k].target == Some(pc));
                }
            }
        },
        None => {},
    }
}

/// The instruction has code units, and they end within `size` units.
pub open spec fn insn_stays_within(insn: Instruction, size: u32) -> bool {
    insn_units(insn) matches Ok(units) && insn.addr + units.len() <= size
}

/// The data block at `pc` can be placed, and ends within `size` units.
pub open spec fn payload_stays_within(
    insns: Seq<Instruction>,
    pc: u32,
    p: PayloadData,
    size: u32,
) -> bool {
    placed_payload(insns, pc, p) matches Ok(part) && 2 * pc + part.len() <= 2 * size
}

proof fn lemma_put(stream: Seq<u8>, at: u32, part: Seq<u8>, a: &'static str, b: &'static str)
    requires
        part.len() > 0,
        stream.len() <= usize::MAX,
    ensures
        stream_put(stream, at, part, a, b) is Ok <==> 2 * at + part.len() <= stream.len(),
        stream_put(stream, at, part, a, b) matches Ok(next) ==> next.len() == stream.len(),
{
}

#[verifier::rlimit(60)]
proof fn lemma_units_as(fmt: InsnFormat, op: int, insn: Instruction)
    ensures
        units_as(fmt, op, insn) matches Ok(units) ==> units.len() > 0,
{
}

proof fn lemma_units(insn: Instruction)
    ensures
        insn_units(insn) matches Ok(units) ==> units.len() > 0,
{
    lemma_units_as(insn.op.layout(), insn.op.byte() as int, insn);
}

proof fn lemma_stream_insns(insns: Seq<Instruction>, i: nat, stream: Seq<u8>, size: u32)
    requires
        stream.len() == 2 * size,
        2 * size <= usize::MAX,
    ensures
        stream_insns(insns, i, stream) is Ok <==> forall|k: int|
            i <= k < insns.len() ==> insn_stays_within(#[trigger] insns[k], size),
        stream_insns(insns, i, stream) matches Ok(s) ==> s.len() == stream.len(),
    decreases insns.len() - i,
{
    if i < insns.len() {
        let insn = insns[i as int];
        match insn_units(insn) {
            Err(_) => {
                assert(!insn_stays_within(insn, size));
            },
            Ok(units) => {
                let part = unit_bytes(units);
                let a = "instruction end offset overflowed usize";
                let b = "instruction would write past declared insns_size";
                unit_bytes_len(units);
                lemma_units(insn);
                lemma_put(stream, insn.addr, part, a, b);
                match stream_put(stream, insn.addr, part, a, b) {
                    Err(_) => {
                        assert(!insn_stays_within(insn, size));
                    },
                    Ok(next) => {
                        lemma_stream_insns(insns, i + 1, next, size);
                        if stream_insns(insns, i + 1, next) is Ok {
                            assert forall|k: int| i <= k < insns.len() implies insn_stays_within(
                                #[trigger] insns[k],
                                size,
                            ) by {
                                if k > i {
                                    assert(i + 1 <= k);
                                }
                            }
                        }
                    },
                }
            },
        }
    }
}

proof fn lemma_payload_not_empty(p: PayloadData, pc: u32)
    ensures
        payload_written(p, pc).result() matches Ok(part) ==> part.len() > 0,
{
}

proof fn lemma_stream_payloads(
    insns: Seq<Instruction>,
    m: Map<u32, PayloadData>,
    keys: Seq<u32>,
    i: nat,
    stream: Seq<u8>,
    size: u32,
)
    requires
        stream.len() == 2 * size,
        2 * size <= usize::MAX,
    ensures
        stream_payloads(insns, m, keys, i, stream) is Ok <==> forall|k: int|
            i <= k < keys.len() ==> payload_stays_within(
                insns,
                #[trigger] keys[k],
                m[keys[k]],
                size,
            ),
    decreases keys.len() - i,
{
    if i < keys.len() {
        let key = keys[i as int];
        match placed_payload(insns, key, m[key]) {
            Err(_) => {
                assert(!payload_stays_within(insns, key, m[key], size));
            },
            Ok(part) => {
                let a = "payload end offset overflowed usize";
                let b = "payload would write past declared insns_size";
                lemma_payload_not_empty(m[key], 0);
                match switch_for(insns, key, 0) {
                    Some(at) => lemma_payload_not_empty(m[key], at),
                    None => {},
                }
                lemma_put(stream, key, part, a, b);
                match stream_put(stream, key, part, a, b) {
                    Err(_) => {
                        assert(!payload_stays_within(insns, key, m[key], size));
                    },
                    Ok(next) => {
                        lemma_stream_payloads(insns, m, keys, i + 1, next, size);
                        if stream_payloads(insns, m, keys, i + 1, next) is Ok {
                            assert forall|k: int| i <= k < keys.len() implies payload_stays_within(
                                insns,
                                #[trigger] keys[k],
                                m[keys[k]],
                                size,
                            ) by {
                                if k > i {
                                    assert(i + 1 <= k);
                                }
                            }
                        }
                    },
                }
            },
        }
    }
}

/// An instruction stream can be put together where every instruction has code units, every
/// data block can be placed, and all of them end within the stream.
pub proof fn streams_are_accepted(
    insns: Seq<Instruction>,
    payloads: Map<u32, PayloadData>,
    size: u32,
)
    requires
        2 * size <= usize::MAX,
    ensures
        insn_stream(insns, payloads, size) is Ok <==> {
            &&& forall|k: int|
                0 <= k < insns.len() ==> insn_stays_within(#[trigger] insns[k], size)
            &&& forall|pc: u32| #[trigger]
                payloads.contains_key(pc) ==> payload_stays_within(
                    insns,
                    pc,
                    payloads[pc],
                    size,
                )
        },
{
    let keys = sorted_keys(payloads);
    let blank = crate::bytes::zeros(crate::emit_dex::code_item::byte_span(size));
    sorted_keys_list(payloads);
    lemma_stream_insns(insns, 0, blank, size);
    match stream_insns(insns, 0, blank) {
        Err(_) => {},
        Ok(stream) => {
            lemma_stream_payloads(insns, payloads, keys, 0, stream, size);
            if insn_stream(insns, payloads, size) is Ok {
                assert forall|pc: u32| #[trigger]
                    payloads.contains_key(pc) implies payload_stays_within(
                    insns,
                    pc,
                    payloads[pc],
                    size,
                ) by {
                    assert(keys.contains(pc));
                    let k = choose|k: int| 0 <= k < keys.len() && keys[k] == pc;
                    assert(payload_stays_within(insns, keys[k], payloads[keys[k]], size));
                }
            } else {
                let k = choose|k: int|
                    0 <= k < keys.len() && !payload_stays_within(
                        insns,
                        #[trigger] keys[k],
                        payloads[keys[k]],
                        size,
                    );
                assert(keys.contains(keys[k]));
                assert(payloads.contains_key(keys[k]));
            }
        },
    }
}

// A layout that is kept

/// The map list of the file read has the section of a kind, and not over the header.
pub open spec fn has_place(dex: DexFile, code: u16) -> bool {
    exists|off: u32| off != 0 && #[trigger] listed_at(dex, code, off)
}

/// The sections have places where the map list of the file read has a place for each that is
/// not empty.
pub proof fn listed_sections_have_places(
    dex: DexFile,
    l: Leaves,
    strings_used: bool,
    map_off: u32,
)
    ensures
        bases(dex, l, strings_used, map_off) is Ok <==> {
            &&& l.lists.blob.len() > 0 ==> has_place(dex, 0x1001)
            &&& l.code.blob.len() > 0 ==> has_place(dex, 0x2001)
            &&& l.debug.blob.len() > 0 ==> has_place(dex, 0x2003)
            &&& l.items.blob.len() > 0 ==> has_place(dex, 0x2004)
            &&& l.arrays.blob.len() > 0 ==> has_place(dex, 0x2005)
            &&& dex.class_datas@.len() > 0 ==> has_place(dex, 0x2000)
            &&& dex.annotation_sets@.len() > 0 ==> has_place(dex, 0x1003)
            &&& dex.annotation_set_ref_lists@.len() > 0 ==> has_place(dex, 0x1002)
            &&& dex.annotations@.len() > 0 ==> has_place(dex, 0x2006)
        },
{
    reveal(bases);
    lemma_has_place(dex, 0x1001);
    lemma_has_place(dex, 0x1002);
    lemma_has_place(dex, 0x1003);
    lemma_has_place(dex, 0x2000);
    lemma_has_place(dex, 0x2001);
    lemma_has_place(dex, 0x2003);
    lemma_has_place(dex, 0x2004);
    lemma_has_place(dex, 0x2005);
    lemma_has_place(dex, 0x2006);
}

proof fn lemma_has_place(dex: DexFile, code: u16)
    ensures
        has_place(dex, code) <==> (section_start(dex.map_entries@, code, 0) matches Some(off)
            && off != 0),
{
    section_starts_are_listed(dex, code);
    match section_start(dex.map_entries@, code, 0) {
        Some(off) => {
            assert(listed_at(dex, code, off));
        },
        None => {},
    }
}

} // verus!
