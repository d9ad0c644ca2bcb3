//! How a refusal tells what is wrong: something that the format cannot express, a number of
//! items that does not fit its field, or a place or a distance that does not.
use vstd::prelude::*;

use crate::decode::{CatchHandler, EncodedField, EncodedMethod, Instruction, PayloadData, TryItem};
use crate::emit_dex::class_data::{class_data, field_list, method_list};
use crate::emit_dex::code_item::{container, handlers_fault};
use crate::emit_dex::instruction::{insn_units, units_as};
use crate::emit_dex::laws::accepted::catches_something;
use crate::emit_dex::laws::operands::{dst_within, src_within};
use crate::emit_dex::map_list::{map_list, MapItem};
use crate::emit_dex::payload::{payload_written, targets_written};
use crate::emit_dex::pools::{class_defs, field_ids, method_ids, type_items, type_list};
use crate::ids::{ClassDefItem, FieldIdItem, MethodIdItem, TypeIdx};
use crate::opcodes::InsnFormat;

verus! {

/// There is a target, and the registers of a jump fit its format.
pub open spec fn jumps_somewhere(fmt: InsnFormat, insn: Instruction) -> bool {
    insn.target is Some && match fmt {
        InsnFormat::F10t | InsnFormat::F20t | InsnFormat::F30t => true,
        InsnFormat::F21t | InsnFormat::F31t => dst_within(insn, 0xFF),
        InsnFormat::F22t => src_within(insn, 2, 0xF),
        _ => false,
    }
}

/// An instruction is refused for its distance where that alone does not fit, and as something
/// that the format cannot express otherwise.
#[verifier::rlimit(60)]
pub proof fn instructions_are_refused_for_distance_or_operands(
    fmt: InsnFormat,
    op: int,
    insn: Instruction,
)
    ensures
        units_as(fmt, op, insn) matches Err(e) ==> if jumps_somewhere(fmt, insn) {
            e is OffsetOverflow
        } else {
            e is UnrepresentableIR
        },
{
    let regs = insn.src.regs@;
    let n = insn.src.count as int;
    assert(regs.len() == 5);
    assert(insn.src.held().len() == (if n <= 5 { n } else { 5 }));
    assert forall|i: int| 0 <= i < insn.src.held().len() implies #[trigger] insn.src.held()[i]
        == regs[i] by {}
    if src_within(insn, 2, 0xF) {
        assert(regs[0] <= 0xF && regs[1] <= 0xF);
    }
}

/// As its format is, so is the refusal of an instruction.
pub proof fn refused_instructions(insn: Instruction)
    ensures
        insn_units(insn) matches Err(e) ==> if jumps_somewhere(insn.op.layout(), insn) {
            e is OffsetOverflow
        } else {
            e is UnrepresentableIR
        },
{
    instructions_are_refused_for_distance_or_operands(
        insn.op.layout(),
        insn.op.byte() as int,
        insn,
    );
}

proof fn lemma_targets(targets: Seq<u32>, pc: u32, i: nat)
    ensures
        targets_written(targets, pc, i).fault matches Some(e) ==> e is OffsetOverflow,
    decreases targets.len() - i,
{
    if i < targets.len() {
        lemma_targets(targets, pc, i + 1);
    }
}

/// A data block is refused for its size where it has too many entries, as something that the
/// format cannot express where its keys or elements are wrong, and for a distance otherwise.
pub proof fn refused_payloads(payload: PayloadData, pc: u32)
    ensures
        payload_written(payload, pc).result() matches Err(e) ==> match payload {
            PayloadData::PackedSwitch { targets, .. } => if targets@.len() > 0xFFFF {
                e is SizeOverflow
            } else {
                e is OffsetOverflow
            },
            PayloadData::SparseSwitch { keys, targets } => {
                let ascend = forall|j: int, k: int|
                    0 <= j < k < keys@.len() ==> keys@[j] < keys@[k];
                if !ascend || keys@.len() != targets@.len() {
                    e is UnrepresentableIR
                } else if keys@.len() > 0xFFFF {
                    e is SizeOverflow
                } else {
                    e is OffsetOverflow
                }
            },
            PayloadData::FillArrayData { element_width, data } => {
                let whole = (element_width == 1 || element_width == 2 || element_width == 4
                    || element_width == 8) && data@.len() % element_width as nat == 0;
                if whole {
                    e is SizeOverflow
                } else {
                    e is UnrepresentableIR
                }
            },
        },
{
    match payload {
        PayloadData::PackedSwitch { targets, .. } => lemma_targets(targets@, pc, 0),
        PayloadData::SparseSwitch { keys, targets } => {
            lemma_targets(targets@, pc, 0);
        },
        _ => {},
    }
}

proof fn lemma_lists(types: Seq<TypeIdx>, i: nat)
    ensures
        type_items(types, i).fault matches Some(e) ==> e is UnrepresentableIR,
    decreases types.len() - i,
{
    if i < types.len() {
        lemma_lists(types, i + 1);
    }
}

proof fn lemma_fields(fields: Seq<FieldIdItem>, i: nat)
    ensures
        field_ids(fields, i).fault matches Some(e) ==> e is UnrepresentableIR,
    decreases fields.len() - i,
{
    if i < fields.len() {
        lemma_fields(fields, i + 1);
    }
}

proof fn lemma_methods(methods: Seq<MethodIdItem>, i: nat)
    ensures
        method_ids(methods, i).fault matches Some(e) ==> e is UnrepresentableIR,
    decreases methods.len() - i,
{
    if i < methods.len() {
        lemma_methods(methods, i + 1);
    }
}

proof fn lemma_classes(classes: Seq<ClassDefItem>, i: nat)
    ensures
        class_defs(classes, i).fault matches Some(e) ==> e is UnrepresentableIR,
    decreases classes.len() - i,
{
    if i < classes.len() {
        lemma_classes(classes, i + 1);
    }
}

/// Type lists, fields, methods and classes are refused as something that the format cannot
/// express.
pub proof fn refused_pools(
    types: Seq<TypeIdx>,
    fields: Seq<FieldIdItem>,
    methods: Seq<MethodIdItem>,
    classes: Seq<ClassDefItem>,
)
    ensures
        type_list(types).result() matches Err(e) ==> e is UnrepresentableIR,
        field_ids(fields, 0).result() matches Err(e) ==> e is UnrepresentableIR,
        method_ids(methods, 0).result() matches Err(e) ==> e is UnrepresentableIR,
        class_defs(classes, 0).result() matches Err(e) ==> e is UnrepresentableIR,
{
    lemma_lists(types, 0);
    lemma_fields(fields, 0);
    lemma_methods(methods, 0);
    lemma_classes(classes, 0);
}

proof fn lemma_field_list(fields: Seq<EncodedField>, i: nat)
    ensures
        field_list(fields, i).fault matches Some(e) ==> e is UnrepresentableIR,
    decreases fields.len() - i,
{
    if i < fields.len() {
        lemma_field_list(fields, i + 1);
    }
}

proof fn lemma_method_list(methods: Seq<EncodedMethod>, i: nat)
    ensures
        method_list(methods, i).fault matches Some(e) ==> e is UnrepresentableIR,
    decreases methods.len() - i,
{
    if i < methods.len() {
        lemma_method_list(methods, i + 1);
    }
}

/// The members of a class are refused for their number where 32 bits cannot say it, and as
/// something that the format cannot express where they are out of order.
pub proof fn refused_class_members(
    static_fields: Seq<EncodedField>,
    instance_fields: Seq<EncodedField>,
    direct_methods: Seq<EncodedMethod>,
    virtual_methods: Seq<EncodedMethod>,
)
    ensures
        class_data(static_fields, instance_fields, direct_methods, virtual_methods).result()
            matches Err(e) ==> if static_fields.len() > u32::MAX || instance_fields.len() > u32::MAX
            || direct_methods.len() > u32::MAX || virtual_methods.len() > u32::MAX {
            e is SizeOverflow
        } else {
            e is UnrepresentableIR
        },
{
    lemma_field_list(static_fields, 0);
    lemma_field_list(instance_fields, 0);
    lemma_method_list(direct_methods, 0);
    lemma_method_list(virtual_methods, 0);
}

/// A map list is refused for its number of entries where 32 bits cannot say it, and as something
/// that the format cannot express where it is out of order.
pub proof fn refused_map_lists(items: Seq<MapItem>, permit_unsorted: bool)
    ensures
        map_list(items, permit_unsorted) matches Err(e) ==> if items.len() > u32::MAX {
            e is SizeOverflow
        } else {
            e is UnrepresentableIR
        },
{
}

proof fn lemma_handlers(handlers: Seq<CatchHandler>, i: nat)
    ensures
        handlers_fault(handlers, i) matches Some(e) ==> e is SizeOverflow || e
            is UnrepresentableIR,
        (forall|k: int|
            0 <= k < handlers.len() ==> (#[trigger] handlers[k]).catches@.len() <= 0x7FFF_FFFF) ==> (
        handlers_fault(handlers, i) matches Some(e) ==> e is UnrepresentableIR),
    decreases handlers.len() - i,
{
    if i < handlers.len() {
        lemma_handlers(handlers, i + 1);
        let h = handlers[i as int];
    }
}

/// A method body is refused for its size where it has too many try blocks or handlers, for the
/// place of a handler where sixteen bits cannot say it, and as something that the format cannot
/// express otherwise.
pub proof fn refused_method_bodies(
    registers_size: u16,
    ins_size: u16,
    outs_size: u16,
    debug_info_off: u32,
    insns: Seq<u8>,
    tries: Seq<TryItem>,
    handlers: Seq<CatchHandler>,
)
    requires
        insns.len() / 2 <= u32::MAX,
        handlers.len() <= u32::MAX,
        forall|k: int|
            0 <= k < handlers.len() ==> (#[trigger] handlers[k]).catches@.len() <= 0x7FFF_FFFF,
    ensures
        container(
            registers_size,
            ins_size,
            outs_size,
            debug_info_off,
            insns,
            tries,
            handlers,
        ) matches Err(e) ==> {
            let sound = insns.len() % 2 == 0 && (handlers.len() > 0 ==> tries.len() > 0) && (forall|
                k: int,
            |
                0 <= k < tries.len() ==> (#[trigger] tries[k]).handler_idx < handlers.len()) && (
            forall|k: int|
                0 <= k < handlers.len() ==> catches_something(#[trigger] handlers[k]));
            &&& insns.len() % 2 == 0 && tries.len() > 0xFFFF ==> e is SizeOverflow
            &&& tries.len() <= 0xFFFF && !sound ==> e is UnrepresentableIR
            &&& tries.len() <= 0xFFFF && sound ==> e is OffsetOverflow
        },
{
    lemma_handlers(handlers, 0);
    lemma_sound_handlers(handlers, 0);
}

proof fn lemma_sound_handlers(handlers: Seq<CatchHandler>, i: nat)
    ensures
        handlers_fault(handlers, i) is None <==> forall|k: int|
            i <= k < handlers.len() ==> catches_something(#[trigger] handlers[k]),
    decreases handlers.len() - i,
{
    if i < handlers.len() {
        lemma_sound_handlers(handlers, i + 1);
        if catches_something(handlers[i as int]) && handlers_fault(handlers, i + 1) is None {
            assert forall|k: int| i <= k < handlers.len() implies catches_something(
                #[trigger] handlers[k],
            ) by {
                if k > i {
                    assert(i + 1 <= k);
                }
            }
        }
    }
}

} // verus!
