//! The parts of a file: exact values, edges, and errors.
use std::collections::BTreeMap;

use droidsaw_dex::annotation::{EncodedAnnotation, EncodedValue};
use droidsaw_dex::decode::{
    CatchHandler, ClassData, CodeItem, EncodedField, EncodedMethod, Instruction, PayloadData, PoolIndex,
    RegList, TryItem, TypedCatch,
};
use droidsaw_dex::dex_file::{MapEntry, ParseFailureKind, PoolKind};
use droidsaw_dex::dex_string::DexString;
use droidsaw_dex::emit_dex::code_item::{assemble_insn_stream, compute_insns_size, emit_code_item};
use droidsaw_dex::emit_dex::layout::{align_up_u32, lift_string_ids};
use droidsaw_dex::emit_dex::map_list::{
    data_section_order_diverges_from_emit, map_list_order_diverged, reorder_map_items_to_input,
    sort_by_offset,
};
use droidsaw_dex::emit_dex::{
    emit_class_data_item, emit_class_data_section, emit_class_def_pool, emit_code_item_container,
    emit_code_item_section,
    emit_encoded_annotation_with_widths, emit_encoded_array, emit_encoded_array_with_widths,
    emit_encoded_value, emit_field_pool, emit_instruction, emit_map_list, emit_method_pool,
    emit_payload, emit_string_pool, emit_string_pool_preserve_layout, emit_type_list_section,
    finalize_checksums, map_type, verify_utf16_sorted, DexEmitError, MapItem, NonDecreasing,
    OrderingViolation, StrictlyAscending,
};
use droidsaw_dex::ids::{
    ClassDefItem, FieldIdItem, FieldIdx, MethodIdItem, MethodIdx, ProtoIdx, StringIdx, TypeIdx,
};
use droidsaw_dex::leb128::{write_sleb128, write_uleb128};
use droidsaw_dex::mutf8::{encode_mutf8_into, push_cesu8_units, utf16_unit_count};
use droidsaw_dex::opcodes::{format_size, insn_format, Opcode};

fn insn(addr: u32, op: Opcode) -> Instruction {
    Instruction {
        addr,
        op,
        size: format_size(insn_format(op)),
        dst: None,
        src: RegList::empty(),
        literal: 0,
        target: None,
        pool_idx: None,
    }
}

fn units(i: &Instruction) -> Vec<u16> {
    let mut out = Vec::new();
    emit_instruction(&mut out, i).expect("emits");
    out.chunks(2).map(|c| u16::from_le_bytes([c[0], c[1]])).collect()
}

fn refusal(i: &Instruction) -> DexEmitError {
    let mut out = Vec::new();
    let e = emit_instruction(&mut out, i).expect_err("refused");
    assert!(out.is_empty());
    e
}

fn value_bytes(v: &EncodedValue) -> Vec<u8> {
    let mut out = Vec::new();
    emit_encoded_value(&mut out, v).expect("emits");
    out
}

fn body(instructions: Vec<Instruction>, payloads: BTreeMap<u32, PayloadData>) -> CodeItem {
    CodeItem {
        registers_size: 4,
        ins_size: 1,
        outs_size: 2,
        debug_info_off: 99,
        instructions,
        tries: Vec::new(),
        catch_handlers: Vec::new(),
        payloads,
        invariant_violations: Vec::new(),
    }
}

// Checksums

#[test]
fn digest_of_a_known_text() {
    let mut file = vec![0u8; 32];
    file.extend_from_slice(b"abc");
    finalize_checksums(&mut file).expect("long enough");
    assert_eq!(
        file[12..32],
        [
            0xA9, 0x99, 0x3E, 0x36, 0x47, 0x06, 0x81, 0x6A, 0xBA, 0x3E, 0x25, 0x71, 0x78, 0x50,
            0xC2, 0x6C, 0x9C, 0xD0, 0xD8, 0x9D
        ]
    );
    assert_eq!(&file[32..], b"abc");
    assert_eq!(file[..8], [0; 8]);
}

#[test]
fn checksum_follows_the_formula() {
    let mut file = vec![0u8; 40];
    file[39] = 200;
    finalize_checksums(&mut file).expect("long enough");
    let (mut a, mut b) = (1u32, 0u32);
    for x in &file[12..] {
        a = (a + u32::from(*x)) % 65521;
        b = (b + a) % 65521;
    }
    assert_eq!(file[8..12], (b * 65536 + a).to_le_bytes());
}

#[test]
fn finalizing_twice_is_finalizing_once() {
    let mut file: Vec<u8> = (0..100).collect();
    finalize_checksums(&mut file).expect("long enough");
    let once = file.clone();
    finalize_checksums(&mut file).expect("long enough");
    assert_eq!(file, once);
}

#[test]
fn a_file_without_room_for_checksums_is_refused() {
    let mut file = vec![5u8; 31];
    assert!(matches!(finalize_checksums(&mut file), Err(DexEmitError::OffsetOverflow { .. })));
    assert_eq!(file, vec![5u8; 31]);
}

// Numbers and strings

#[test]
fn signed_numbers_stop_at_the_sign() {
    let cases: [(i32, &[u8]); 7] = [
        (0, &[0]),
        (63, &[0x3F]),
        (64, &[0xC0, 0x00]),
        (-1, &[0x7F]),
        (-64, &[0x40]),
        (-65, &[0xBF, 0x7F]),
        (i32::MIN, &[0x80, 0x80, 0x80, 0x80, 0x78]),
    ];
    for (v, bytes) in cases {
        let mut out = Vec::new();
        write_sleb128(&mut out, v);
        assert_eq!(out, bytes);
    }
    let mut out = Vec::new();
    write_uleb128(&mut out, 300);
    assert_eq!(out, [0xAC, 0x02]);
}

#[test]
fn units_of_an_encoding_are_those_of_the_text() {
    for text in ["", "a", "\0", "é", "中", "😀x", "a\0é中😀"] {
        let mut bytes = Vec::new();
        encode_mutf8_into(&mut bytes, text);
        assert!(!bytes.contains(&0));
        let mut found = Vec::new();
        push_cesu8_units(&mut found, &bytes);
        let expected: Vec<u16> = text.encode_utf16().collect();
        assert_eq!(found, expected);
        assert_eq!(utf16_unit_count(text) as usize, expected.len());
    }
}

#[test]
fn malformed_sequences_stand_for_their_lead_bytes() {
    let cases: [(&[u8], &[u16]); 6] = [
        (&[0xC3], &[0xC3]),
        (&[0xC3, 0x41], &[0xC3, 0x41]),
        (&[0xE4, 0xB8], &[0xE4, 0xB8]),
        (&[0xE4, 0xB8, 0x41], &[0xE4, 0xB8, 0x41]),
        (&[0xF0, 0x9F], &[0xF0, 0x9F]),
        (&[0x80, 0xC3, 0xA9], &[0x80, 0xE9]),
    ];
    for (bytes, expected) in cases {
        let mut found = Vec::new();
        push_cesu8_units(&mut found, bytes);
        assert_eq!(found, expected);
    }
}

fn malformed(raw: &[u8]) -> DexString {
    DexString::MalformedMutf8 {
        lossy: "\u{FFFD}".to_string(),
        raw_bytes: raw.to_vec(),
        declared_chars: 1,
    }
}

#[test]
fn malformed_strings_are_ordered_by_their_bytes() {
    let a = DexString::from_decoded_str("a");
    let z = DexString::from_decoded_str("\u{E000}");
    let half = malformed(&[0xED, 0xA0, 0x80]);
    assert_eq!(verify_utf16_sorted(&[a.clone(), half.clone(), z.clone()]), Ok(()));
    assert_eq!(verify_utf16_sorted(&[a, z, half]), Err(OrderingViolation { index: 2 }));
}

#[test]
fn the_first_misplaced_string_is_named() {
    let s = |t: &str| DexString::from_decoded_str(t);
    assert_eq!(verify_utf16_sorted(&[]), Ok(()));
    assert_eq!(verify_utf16_sorted(&[s("a"), s("a"), s("ab")]), Ok(()));
    assert_eq!(
        verify_utf16_sorted(&[s("b"), s("a"), s("c"), s("b")]),
        Err(OrderingViolation { index: 1 })
    );
    let supplementary = s("😀");
    assert_eq!(verify_utf16_sorted(&[supplementary, s("\u{FFFD}")]), Ok(()));
}

#[test]
fn string_ids_lead_to_the_data() {
    let pool: [(u32, &[u8]); 3] = [(1, b"x"), (300, b""), (2, b"yz")];
    let (ids, data) = emit_string_pool(&pool);
    assert_eq!(ids, [0, 0, 0, 0, 3, 0, 0, 0, 6, 0, 0, 0]);
    assert_eq!(data, [1, b'x', 0, 0xAC, 0x02, 0, 2, b'y', b'z', 0]);
    assert_eq!(lift_string_ids(&ids, 0x100), [0, 1, 0, 0, 3, 1, 0, 0, 6, 1, 0, 0]);
    assert_eq!(lift_string_ids(&[2, 0, 0, 0], u32::MAX), [0xFF; 4]);
}

#[test]
fn strings_go_back_where_they_were() {
    let pool: [(u32, &[u8]); 2] = [(1, b"x"), (1, b"y")];
    let (ids, data) = emit_string_pool_preserve_layout(&pool, &[105, 100], 100, 9).expect("fits");
    assert_eq!(ids, [105, 0, 0, 0, 100, 0, 0, 0]);
    assert_eq!(data, [1, b'y', 0, 0, 0, 1, b'x', 0, 0]);
    for (offs, base, size) in [(vec![105], 100, 9), (vec![99, 100], 100, 9), (vec![107, 100], 100, 9)]
    {
        assert!(matches!(
            emit_string_pool_preserve_layout(&pool, &offs, base, size),
            Err(DexEmitError::UnrepresentableIR { .. })
        ));
    }
}

// Orderings

#[test]
fn ordered_lists_can_be_walked() {
    let list = NonDecreasing::from_sorted(vec![3u32, 1, 2, 1]);
    let mut seen = Vec::new();
    for x in &list {
        seen.push(*x);
    }
    assert_eq!(seen, [1, 1, 2, 3]);
    let keys = StrictlyAscending::from_verified(vec![-5i32, 0, 7]).expect("ascends");
    assert_eq!((&keys).into_iter().copied().collect::<Vec<i32>>(), [-5, 0, 7]);
    assert_eq!(keys.into_inner(), [-5, 0, 7]);
    assert_eq!(StrictlyAscending::from_verified(vec![1i32, 1]), Err(OrderingViolation { index: 1 }));
    assert_eq!(
        OrderingViolation { index: 3 }.message(),
        "non-decreasing invariant violated at index 3"
    );
}

// Values

#[test]
fn least_widths_of_numbers() {
    assert_eq!(value_bytes(&EncodedValue::Int(-1)), [0x04, 0xFF]);
    assert_eq!(value_bytes(&EncodedValue::Int(128)), [0x24, 0x80, 0x00]);
    assert_eq!(value_bytes(&EncodedValue::Short(-129)), [0x22, 0x7F, 0xFF]);
    assert_eq!(value_bytes(&EncodedValue::Char(0xFFFF)), [0x23, 0xFF, 0xFF]);
    assert_eq!(value_bytes(&EncodedValue::Long(i64::MIN)), [0xE6, 0, 0, 0, 0, 0, 0, 0, 0x80]);
    assert_eq!(value_bytes(&EncodedValue::String(StringIdx(0x1_0000))), [0x57, 0, 0, 1]);
    assert_eq!(value_bytes(&EncodedValue::Boolean(true)), [0x3F]);
    assert_eq!(value_bytes(&EncodedValue::Null), [0x1E]);
    assert_eq!(value_bytes(&EncodedValue::Byte(-2)), [0x00, 0xFE]);
    assert_eq!(value_bytes(&EncodedValue::Float(0x3F80_0000)), [0x70, 0, 0, 0x80, 0x3F]);
}

#[test]
fn nested_values_are_written_in_order() {
    let mut elements = BTreeMap::new();
    elements.insert(9, EncodedValue::Int(1));
    elements.insert(2, EncodedValue::Array(vec![EncodedValue::Null, EncodedValue::Byte(7)]));
    let v = EncodedValue::Annotation(EncodedAnnotation { type_idx: TypeIdx(5), elements });
    assert_eq!(
        value_bytes(&v),
        [0x1D, 5, 2, 2, 0x1C, 2, 0x1E, 0x00, 7, 9, 0x04, 1]
    );
}

#[test]
fn too_many_pending_values_are_refused() {
    let wide = EncodedValue::Array((0..65_537).map(|_| EncodedValue::Null).collect());
    let mut out = Vec::new();
    assert!(matches!(
        emit_encoded_value(&mut out, &wide),
        Err(DexEmitError::UnrepresentableIR {
            why: "encoded_array emit work-stack exceeded cap (hand-built IR too deeply nested)"
        })
    ));
    let full = EncodedValue::Array((0..65_536).map(|_| EncodedValue::Null).collect());
    assert_eq!(value_bytes(&full).len(), 1 + 3 + 65_536);
}

#[test]
fn recorded_widths_are_consumed_in_order() {
    let values = vec![
        EncodedValue::Array(vec![EncodedValue::Int(1), EncodedValue::Null]),
        EncodedValue::Boolean(false),
        EncodedValue::Int(2),
        EncodedValue::Long(3),
    ];
    let b = emit_encoded_array_with_widths(&values, Some(&[2, 9, 8])).expect("emits");
    assert_eq!(
        b,
        [4, 0x1C, 2, 0x24, 1, 0, 0x1E, 0x1F, 0x04, 2, 0xE6, 3, 0, 0, 0, 0, 0, 0, 0]
    );
    assert_eq!(
        emit_encoded_array(&values).expect("emits"),
        [4, 0x1C, 2, 0x04, 1, 0x1E, 0x1F, 0x04, 2, 0x06, 3]
    );
}

#[test]
fn widths_reach_into_annotations() {
    let mut elements = BTreeMap::new();
    elements.insert(4, EncodedValue::Int(1));
    let ann = EncodedAnnotation { type_idx: TypeIdx(1), elements };
    let mut out = Vec::new();
    emit_encoded_annotation_with_widths(&mut out, &ann, &[3]).expect("emits");
    assert_eq!(out, [1, 1, 4, 0x44, 1, 0, 0]);
}

// Pools

#[test]
fn sixteen_bit_pools_refuse_larger_indices() {
    let f = |class, ty| FieldIdItem {
        class_idx: TypeIdx(class),
        type_idx: TypeIdx(ty),
        name_idx: StringIdx(0x12345),
    };
    assert_eq!(
        emit_field_pool(&[f(0xFFFF, 1)]).expect("fits"),
        [0xFF, 0xFF, 1, 0, 0x45, 0x23, 1, 0]
    );
    assert!(emit_field_pool(&[f(0x1_0000, 1)]).is_err());
    assert!(emit_field_pool(&[f(1, 0x1_0000)]).is_err());
    let m = |class, proto| MethodIdItem {
        class_idx: TypeIdx(class),
        proto_idx: ProtoIdx(proto),
        name_idx: StringIdx(0),
    };
    assert!(emit_method_pool(&[m(1, 2)]).is_ok());
    assert!(emit_method_pool(&[m(0x1_0000, 2)]).is_err());
    assert!(emit_method_pool(&[m(1, 0x1_0000)]).is_err());
}

#[test]
fn absent_indices_cannot_be_taken() {
    let c = ClassDefItem {
        class_idx: TypeIdx(0),
        access_flags: 0,
        superclass_idx: None,
        interfaces_off: 0,
        source_file_idx: None,
        annotations_off: 0,
        class_data_off: 0,
        static_values_off: 0,
    };
    assert!(emit_class_def_pool(&[c]).is_ok());
    let taken = [
        ClassDefItem { class_idx: TypeIdx(u32::MAX), ..c },
        ClassDefItem { superclass_idx: Some(TypeIdx(u32::MAX)), ..c },
        ClassDefItem { source_file_idx: Some(StringIdx(u32::MAX)), ..c },
    ];
    for bad in taken {
        assert!(matches!(
            emit_class_def_pool(&[bad]),
            Err(DexEmitError::UnrepresentableIR { .. })
        ));
    }
}

#[test]
fn type_lists_are_aligned_in_their_section() {
    let mut lists = BTreeMap::new();
    lists.insert(10, vec![TypeIdx(1)]);
    lists.insert(20, vec![TypeIdx(2), TypeIdx(3)]);
    lists.insert(30, vec![TypeIdx(4)]);
    let (blob, remap) = emit_type_list_section(&lists).expect("emits");
    assert_eq!(remap.into_iter().collect::<Vec<_>>(), [(10, 0), (20, 8), (30, 16)]);
    assert_eq!(
        blob,
        [1, 0, 0, 0, 1, 0, 0, 0, 2, 0, 0, 0, 2, 0, 3, 0, 1, 0, 0, 0, 4, 0]
    );
}

#[test]
fn members_are_written_as_distances() {
    let f = |i, a| EncodedField { field_idx: FieldIdx(i), access_flags: a };
    let m = |i, a, c| EncodedMethod { method_idx: MethodIdx(i), access_flags: a, code_off: c };
    assert_eq!(
        emit_class_data_item(&[f(3, 1), f(5, 2)], &[f(0, 4)], &[m(7, 8, 300)], &[m(7, 1, 0)])
            .expect("emits"),
        [2, 1, 1, 1, 3, 1, 2, 2, 0, 4, 7, 8, 0xAC, 0x02, 7, 1, 0]
    );
    assert!(emit_class_data_item(&[f(5, 1), f(5, 2)], &[], &[], &[]).is_err());
    assert!(emit_class_data_item(&[], &[], &[m(5, 1, 0), m(4, 1, 0)], &[]).is_err());
}

// Instructions

#[test]
fn operands_go_where_the_format_has_them() {
    let mut i = insn(0, Opcode::Move);
    i.dst = Some(0xA);
    i.src = RegList::one(0xB);
    assert_eq!(units(&i), [0xBA01]);

    let mut i = insn(0, Opcode::Const4);
    i.dst = Some(3);
    i.literal = -8;
    assert_eq!(units(&i), [0x8312]);

    let mut i = insn(10, Opcode::Goto);
    i.target = Some(7);
    assert_eq!(units(&i), [0xFD28]);

    let mut i = insn(10, Opcode::IfEq);
    i.src = RegList::two(1, 2);
    i.target = Some(0);
    assert_eq!(units(&i), [0x2132, 0xFFF6]);

    let mut i = insn(0, Opcode::ConstWideHigh16);
    i.dst = Some(4);
    i.literal = i64::MIN;
    assert_eq!(units(&i), [0x0419, 0x8000]);

    let mut i = insn(0, Opcode::ConstWide);
    i.dst = Some(1);
    i.literal = 0x0102_0304_0506_0708;
    assert_eq!(units(&i), [0x0118, 0x0708, 0x0506, 0x0304, 0x0102]);

    let mut i = insn(0, Opcode::InvokeStatic);
    i.src = RegList { regs: [1, 2, 3, 4, 5], count: 5 };
    i.pool_idx = Some(PoolIndex::Method(MethodIdx(0xABCD)));
    assert_eq!(units(&i), [0x5571, 0xABCD, 0x4321]);
}

#[test]
fn operands_that_do_not_fit_are_refused() {
    let unrepresentable = |i: &Instruction| matches!(refusal(i), DexEmitError::UnrepresentableIR { .. });
    let mut i = insn(0, Opcode::Move);
    assert!(unrepresentable(&i));
    i.dst = Some(16);
    i.src = RegList::one(0);
    assert!(unrepresentable(&i));
    i.dst = Some(0);
    i.src = RegList::one(16);
    assert!(unrepresentable(&i));
    let mut i = insn(0, Opcode::Const4);
    i.dst = Some(0);
    i.literal = 8;
    assert!(unrepresentable(&i));
    let mut i = insn(0, Opcode::ConstHigh16);
    i.dst = Some(0);
    i.literal = 1;
    assert!(unrepresentable(&i));
    let mut i = insn(0, Opcode::ConstString);
    i.dst = Some(0);
    i.pool_idx = Some(PoolIndex::String(StringIdx(0x1_0000)));
    assert!(unrepresentable(&i));
    let mut i = insn(0, Opcode::Goto);
    assert!(unrepresentable(&i));
    i.target = Some(128);
    assert!(matches!(refusal(&i), DexEmitError::OffsetOverflow { .. }));
    i.target = Some(127);
    assert_eq!(units(&i), [0x7F28]);
    let mut i = insn(0, Opcode::InvokePolymorphic);
    i.pool_idx = Some(PoolIndex::Method(MethodIdx(1)));
    assert!(unrepresentable(&i));
}

#[test]
fn instructions_and_payloads_stand_at_their_addresses() {
    let mut switch = insn(0, Opcode::PackedSwitch);
    switch.dst = Some(0);
    switch.target = Some(4);
    let mut payloads = BTreeMap::new();
    payloads.insert(4, PayloadData::PackedSwitch { first_key: -1, targets: vec![3] });
    let code = vec![switch, insn(3, Opcode::ReturnVoid)];
    let size = compute_insns_size(&code, &payloads).expect("counts");
    assert_eq!(size, 10);
    let stream = assemble_insn_stream(&code, &payloads, size).expect("fits");
    let words: Vec<u16> = stream.chunks(2).map(|c| u16::from_le_bytes([c[0], c[1]])).collect();
    assert_eq!(words, [0x002B, 4, 0, 0x000E, 0x0100, 1, 0xFFFF, 0xFFFF, 3, 0]);
    assert!(matches!(
        assemble_insn_stream(&code, &payloads, 9),
        Err(DexEmitError::OffsetOverflow { .. })
    ));
    assert!(matches!(
        assemble_insn_stream(&code[1..], &payloads, 10),
        Err(DexEmitError::UnrepresentableIR {
            why: "switch payload in code_item has no matching switch instruction"
        })
    ));
}

#[test]
fn payloads_are_whole_units() {
    let mut out = Vec::new();
    let data = PayloadData::FillArrayData { element_width: 1, data: vec![1, 2, 3] };
    emit_payload(&mut out, &data, 0).expect("emits");
    assert_eq!(out, [0, 3, 1, 0, 3, 0, 0, 0, 1, 2, 3, 0]);
    let refused = [
        PayloadData::FillArrayData { element_width: 3, data: vec![1, 2, 3] },
        PayloadData::FillArrayData { element_width: 2, data: vec![1, 2, 3] },
        PayloadData::SparseSwitch { keys: vec![2, 1], targets: vec![0, 0] },
        PayloadData::SparseSwitch { keys: vec![1, 2], targets: vec![0] },
    ];
    for p in refused {
        let mut out = Vec::new();
        assert!(emit_payload(&mut out, &p, 0).is_err());
    }
    let mut out = Vec::new();
    let sparse = PayloadData::SparseSwitch { keys: vec![-1, 5], targets: vec![10, 2] };
    emit_payload(&mut out, &sparse, 4).expect("emits");
    assert_eq!(
        out,
        [0, 2, 2, 0, 0xFF, 0xFF, 0xFF, 0xFF, 5, 0, 0, 0, 6, 0, 0, 0, 0xFE, 0xFF, 0xFF, 0xFF]
    );
}

#[test]
fn tries_lead_to_their_handlers() {
    let handler = |addr| CatchHandler {
        catches: vec![TypedCatch { exception_type: TypeIdx(200), handler_addr: addr }],
        catch_all_addr: None,
    };
    let all = CatchHandler { catches: Vec::new(), catch_all_addr: Some(9) };
    let t = |start, idx| TryItem { start_addr: start, insn_count: 1, handler_idx: idx };
    let b = emit_code_item_container(
        1,
        2,
        3,
        0x44,
        &[0, 0],
        &[t(0, 1), t(5, 0)],
        &[handler(7), all],
    )
    .expect("emits");
    assert_eq!(b[..16], [1, 0, 2, 0, 3, 0, 2, 0, 0x44, 0, 0, 0, 1, 0, 0, 0]);
    assert_eq!(b[16..20], [0, 0, 0, 0]);
    assert_eq!(b[20..28], [0, 0, 0, 0, 1, 0, 5, 0]);
    assert_eq!(b[28..36], [5, 0, 0, 0, 1, 0, 1, 0]);
    assert_eq!(b[36..], [2, 1, 0xC8, 0x01, 7, 0, 9]);
}

#[test]
fn impossible_bodies_are_refused() {
    let empty = CatchHandler { catches: Vec::new(), catch_all_addr: None };
    let all = CatchHandler { catches: Vec::new(), catch_all_addr: Some(0) };
    let t = TryItem { start_addr: 0, insn_count: 1, handler_idx: 0 };
    let make = |insns: &[u8], tries: &[TryItem], handlers: &[CatchHandler]| {
        emit_code_item_container(0, 0, 0, 0, insns, tries, handlers)
    };
    assert!(make(&[0], &[], &[]).is_err());
    assert!(make(&[], &[], &[all.clone()]).is_err());
    assert!(make(&[], &[t], &[]).is_err());
    assert!(make(&[], &[t], &[empty]).is_err());
    assert!(make(&[], &[t], &[all]).is_ok());
}

#[test]
fn bodies_leave_the_debug_offset_open() {
    let b = emit_code_item(&body(vec![insn(0, Opcode::ReturnVoid)], BTreeMap::new())).expect("emits");
    assert_eq!(b, [4, 0, 1, 0, 2, 0, 0, 0, 0, 0, 0, 0, 1, 0, 0, 0, 0x0E, 0]);
    let mut items = BTreeMap::new();
    items.insert(5, body(vec![insn(0, Opcode::ReturnVoid)], BTreeMap::new()));
    items.insert(9, body(vec![insn(0, Opcode::Nop)], BTreeMap::new()));
    let (blob, remap) = emit_code_item_section(&items).expect("emits");
    assert_eq!(remap[&5], 0);
    assert_eq!(remap[&9], 20);
    assert_eq!(blob[..18], b[..]);
    assert_eq!(blob.len(), 38);
}

// Map list

#[test]
fn map_entries_read_back() {
    let items = [
        MapItem { type_code: 0, size: 1, offset: 0 },
        MapItem { type_code: 0x1000, size: 1, offset: 0x0102 },
    ];
    let b = emit_map_list(&items, false).expect("ascends");
    assert_eq!(
        b,
        [
            2, 0, 0, 0, 0, 0, 0, 0, 1, 0, 0, 0, 0, 0, 0, 0, 0, 0x10, 0, 0, 1, 0, 0, 0, 2, 1, 0, 0
        ]
    );
    let back = [items[1], items[0]];
    assert!(emit_map_list(&back, false).is_err());
    assert_eq!(emit_map_list(&back, true).expect("permitted").len(), 28);
    assert!(emit_map_list(&[items[0], items[0]], false).is_err());
}

#[test]
fn sorting_by_offset_is_stable() {
    let m = |type_code, offset| MapItem { type_code, size: 1, offset };
    let sorted = sort_by_offset(&[m(1, 5), m(2, 0), m(3, 5), m(4, 1)]);
    assert_eq!(sorted, [m(2, 0), m(4, 1), m(1, 5), m(3, 5)]);
}

#[test]
fn reordering_keeps_every_entry() {
    let m = |type_code| MapItem { type_code, size: 1, offset: 0 };
    let e = |type_code| MapEntry { type_code, size: 1, offset: 0 };
    let out = reorder_map_items_to_input(vec![m(1), m(2), m(3), m(4)], &[e(3), e(9), e(1), e(3)]);
    assert_eq!(out, [m(3), m(1), m(2), m(4)]);
}

#[test]
fn reordering_ends_the_difference() {
    let m = |type_code| MapItem { type_code, size: 1, offset: 0 };
    let e = |type_code| MapEntry { type_code, size: 1, offset: 0 };
    let items = vec![m(5), m(1), m(2), m(3)];
    let order = [e(3), e(9), e(1), e(2)];
    assert!(map_list_order_diverged(&items, &order));
    let out = reorder_map_items_to_input(items, &order);
    assert_eq!(out, [m(3), m(1), m(2), m(5)]);
    assert!(!map_list_order_diverged(&out, &order));
}

fn members(idx: u32, code_off: u32) -> ClassData {
    ClassData {
        static_fields: vec![],
        instance_fields: vec![EncodedField { field_idx: FieldIdx(2), access_flags: 1 }],
        direct_methods: vec![
            EncodedMethod { method_idx: MethodIdx(4), access_flags: 1, code_off: 0 },
            EncodedMethod { method_idx: MethodIdx(idx), access_flags: 1, code_off },
        ],
        virtual_methods: vec![],
    }
}

#[test]
fn class_members_get_the_places_of_their_bodies() {
    let places = BTreeMap::from([(0x500, 0x20)]);
    let items = BTreeMap::from([(0x900, members(6, 0x500)), (0x800, members(5, 0))]);
    let (blob, remap) = emit_class_data_section(&items, &places, 0x70).expect("emits");
    assert_eq!(remap, BTreeMap::from([(0x800, 0), (0x900, 12)]));
    assert_eq!(
        blob,
        [
            [0, 1, 2, 0, 2, 1, 4, 1, 0, 1, 1, 0].as_slice(),
            [0, 1, 2, 0, 2, 1, 4, 1, 0, 2, 1, 0x90, 0x01].as_slice(),
        ]
        .concat()
    );
}

#[test]
fn class_members_are_refused() {
    let places = BTreeMap::from([(0x500, 0x20)]);
    let one = |cd| BTreeMap::from([(0x900, cd)]);
    assert!(matches!(
        emit_class_data_section(&one(members(6, 0x501)), &places, 0),
        Err(DexEmitError::UnrepresentableIR { .. })
    ));
    assert!(matches!(
        emit_class_data_section(&one(members(4, 0x500)), &places, 0),
        Err(DexEmitError::UnrepresentableIR { .. })
    ));
    assert!(matches!(
        emit_class_data_section(&one(members(6, 0x500)), &places, u32::MAX - 0x1F),
        Err(DexEmitError::OffsetOverflow { .. })
    ));
    assert!(emit_class_data_section(&one(members(6, 0x500)), &places, u32::MAX - 0x20).is_ok());
}

#[test]
fn order_of_data_sections_is_compared() {
    let e = |type_code, offset| MapEntry { type_code, size: 1, offset };
    assert!(!data_section_order_diverges_from_emit(&[]));
    assert!(!data_section_order_diverges_from_emit(&[
        e(map_type::CODE_ITEM, 20),
        e(map_type::STRING_DATA_ITEM, 10),
    ]));
    assert!(data_section_order_diverges_from_emit(&[
        e(map_type::STRING_DATA_ITEM, 20),
        e(map_type::CODE_ITEM, 10),
    ]));
}

#[test]
fn alignment_rounds_up() {
    assert_eq!(align_up_u32(0, 4), Some(0));
    assert_eq!(align_up_u32(1, 4), Some(4));
    assert_eq!(align_up_u32(4, 4), Some(4));
    assert_eq!(align_up_u32(u32::MAX - 3, 4), Some(u32::MAX - 3));
    assert_eq!(align_up_u32(u32::MAX - 2, 4), None);
}

// Messages

#[test]
fn errors_say_what_is_wrong() {
    let cases = [
        (
            DexEmitError::SizeOverflow { layer: "map_list", context: "too many" },
            "emit: size overflow in map_list: too many",
        ),
        (
            DexEmitError::OffsetOverflow { section: "header", context: "too far" },
            "emit: offset overflow in section header: too far",
        ),
        (DexEmitError::UnrepresentableIR { why: "x" }, "emit: unrepresentable IR: x"),
        (DexEmitError::InvariantViolated { why: "x" }, "emit: internal invariant violated: x"),
        (DexEmitError::NotImplemented, "emit: not yet implemented (staged impl)"),
        (
            DexEmitError::PartialIR {
                count: 12,
                first_kind: ParseFailureKind::OutOfOrder { pool: PoolKind::TypeIds },
                first_offset: 0xBEEF,
            },
            "emit: input IR has 12 parse error(s); first = OutOfOrder { pool: TypeIds } at offset 0xbeef; set EmitConfig::permit_partial_ir = true to proceed",
        ),
    ];
    for (e, text) in cases {
        assert_eq!(e.message(), text);
    }
}
