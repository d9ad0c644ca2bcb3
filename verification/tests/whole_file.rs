//! Whole files: every offset leads somewhere, and a kept layout is kept to the byte.
use std::collections::BTreeMap;

use droidsaw_dex::annotation::{
    AnnotationDirectoryItem, AnnotationItem, EncodedAnnotation, EncodedValue, FieldAnnotation,
    MethodAnnotation, ParameterAnnotation,
};
use droidsaw_dex::decode::{
    ClassData, CodeItem, EncodedField, EncodedMethod, Instruction, RegList,
};
use droidsaw_dex::dex_file::{
    DexFile, MapEntry, MethodHandleItem, ParseFailure, ParseFailureKind, SectionRegion,
};
use droidsaw_dex::dex_string::DexString;
use droidsaw_dex::emit_dex::{
    emit_dex, emit_dex_collect, emit_dex_with_config, map_type, verify_utf16_sorted,
    AlignmentSection, CanonicalTransform, DexEmitError, EmitConfig,
};
use droidsaw_dex::emit_dex::preserve::emit_dex_inner_preserve_layout;
use droidsaw_dex::emit_dex::widths::count_encoded_value_width_divergences;
use droidsaw_dex::header::DexHeader;
use droidsaw_dex::ids::{
    ClassDefItem, FieldIdItem, FieldIdx, MethodIdItem, MethodIdx, ProtoIdItem, ProtoIdx, StringIdx,
    TypeIdx,
};
use droidsaw_dex::opcodes::Opcode;
use sha1::Digest;

fn u16_at(b: &[u8], at: u32) -> u16 {
    let i = at as usize;
    u16::from_le_bytes([b[i], b[i + 1]])
}

fn u32_at(b: &[u8], at: u32) -> u32 {
    let i = at as usize;
    u32::from_le_bytes([b[i], b[i + 1], b[i + 2], b[i + 3]])
}

/// Where the items of the sample file are found.
#[derive(Clone, Copy)]
struct Offsets {
    params: u32,
    interfaces: u32,
    code: u32,
    debug: u32,
    members: u32,
    note: u32,
    set: u32,
    set_list: u32,
    directory: u32,
    statics: u32,
    call_site: u32,
}

const SCATTERED: Offsets = Offsets {
    params: 0x1000,
    interfaces: 0x1008,
    code: 0x2000,
    debug: 0x2800,
    members: 0x3000,
    note: 0x4000,
    set: 0x4100,
    set_list: 0x4200,
    directory: 0x5000,
    statics: 0x6000,
    call_site: 0x6100,
};

fn header() -> DexHeader {
    DexHeader {
        magic: *b"dex\n038\0",
        checksum: 0,
        signature: [0; 20],
        file_size: 0,
        header_size: 112,
        endian_tag: 0x1234_5678,
        link_size: 0,
        link_off: 0,
        map_off: 0,
        string_ids_size: 0,
        string_ids_off: 0,
        type_ids_size: 0,
        type_ids_off: 0,
        proto_ids_size: 0,
        proto_ids_off: 0,
        field_ids_size: 0,
        field_ids_off: 0,
        method_ids_size: 0,
        method_ids_off: 0,
        class_defs_size: 0,
        class_defs_off: 0,
        data_size: 0,
        data_off: 0,
    }
}

fn one<V>(key: u32, value: V) -> BTreeMap<u32, V> {
    let mut m = BTreeMap::new();
    m.insert(key, value);
    m
}

fn insn(addr: u32, op: Opcode, size: u8) -> Instruction {
    Instruction {
        addr,
        op,
        size,
        dst: None,
        src: RegList::empty(),
        literal: 0,
        target: None,
        pool_idx: None,
    }
}

fn body(debug_info_off: u32) -> CodeItem {
    let mut load = insn(0, Opcode::Const4, 1);
    load.dst = Some(0);
    load.literal = 1;
    CodeItem {
        registers_size: 3,
        ins_size: 2,
        outs_size: 0,
        debug_info_off,
        instructions: vec![load, insn(1, Opcode::ReturnVoid, 1)],
        tries: Vec::new(),
        catch_handlers: Vec::new(),
        payloads: BTreeMap::new(),
        invariant_violations: Vec::new(),
    }
}

const TEXTS: [&str; 9] =
    ["I", "LFoo;", "LNote;", "Ljava/lang/Object;", "V", "VI", "bar", "main", "value"];

fn sample(o: Offsets) -> DexFile {
    let mut type_lists = one(o.params, vec![TypeIdx(0)]);
    type_lists.insert(o.interfaces, vec![TypeIdx(3)]);
    let mut encoded_arrays = one(o.statics, vec![EncodedValue::Int(300)]);
    encoded_arrays.insert(o.call_site, vec![EncodedValue::Null]);
    DexFile {
        header: header(),
        strings: TEXTS.iter().map(|s| DexString::from_decoded_str(s)).collect(),
        string_data_offs: Vec::new(),
        type_descriptors: TEXTS[..5].iter().map(|s| s.to_string()).collect(),
        protos: vec![ProtoIdItem {
            shorty_idx: StringIdx(5),
            return_type_idx: TypeIdx(4),
            parameters_off: o.params,
        }],
        fields: vec![FieldIdItem {
            class_idx: TypeIdx(1),
            type_idx: TypeIdx(0),
            name_idx: StringIdx(6),
        }],
        methods: vec![MethodIdItem {
            class_idx: TypeIdx(1),
            proto_idx: ProtoIdx(0),
            name_idx: StringIdx(7),
        }],
        class_defs: vec![ClassDefItem {
            class_idx: TypeIdx(1),
            access_flags: 1,
            superclass_idx: Some(TypeIdx(3)),
            interfaces_off: o.interfaces,
            source_file_idx: None,
            annotations_off: o.directory,
            class_data_off: o.members,
            static_values_off: o.statics,
        }],
        type_lists,
        class_datas: one(
            o.members,
            ClassData {
                static_fields: vec![EncodedField { field_idx: FieldIdx(0), access_flags: 8 }],
                instance_fields: Vec::new(),
                direct_methods: vec![EncodedMethod {
                    method_idx: MethodIdx(0),
                    access_flags: 9,
                    code_off: o.code,
                }],
                virtual_methods: Vec::new(),
            },
        ),
        raw_class_data_bytes: BTreeMap::new(),
        code_items: one(o.code, body(o.debug)),
        annotations: one(
            o.directory,
            AnnotationDirectoryItem {
                class_annotations_off: o.set,
                fields: vec![FieldAnnotation { field_idx: FieldIdx(0), annotations_off: o.set }],
                methods: vec![MethodAnnotation {
                    method_idx: MethodIdx(0),
                    annotations_off: o.set,
                }],
                parameters: vec![ParameterAnnotation {
                    method_idx: MethodIdx(0),
                    annotations_off: o.set_list,
                }],
            },
        ),
        annotation_sets: one(o.set, vec![o.note]),
        annotation_set_ref_lists: one(o.set_list, vec![o.set]),
        annotation_items: one(
            o.note,
            AnnotationItem {
                visibility: 1,
                annotation: EncodedAnnotation {
                    type_idx: TypeIdx(2),
                    elements: one(8, EncodedValue::Int(5)),
                },
            },
        ),
        annotation_item_widths: BTreeMap::new(),
        encoded_arrays,
        encoded_array_widths: BTreeMap::new(),
        method_handles: vec![MethodHandleItem { kind: 4, field_or_method_id: 0 }],
        call_site_ids: vec![o.call_site],
        map_entries: Vec::new(),
        debug_info_raw_bytes: one(o.debug, vec![1, 0, 7, 0x0e, 0]),
        debug_info_section_layout: Vec::new(),
        annotation_set_section_layout: Vec::new(),
        input_checksums_canonical: true,
        parse_errors: Vec::new(),
    }
}

fn map_of(b: &[u8]) -> Vec<MapEntry> {
    let at = u32_at(b, 52);
    (0..u32_at(b, at))
        .map(|i| MapEntry {
            type_code: u16_at(b, at + 4 + 12 * i),
            size: u32_at(b, at + 8 + 12 * i),
            offset: u32_at(b, at + 12 + 12 * i),
        })
        .collect()
}

fn place(b: &[u8], code: u16) -> u32 {
    map_of(b).iter().find(|e| e.type_code == code).expect("section").offset
}

fn found(b: &[u8]) -> Offsets {
    let lists = place(b, map_type::TYPE_LIST);
    let arrays = place(b, map_type::ENCODED_ARRAY_ITEM);
    Offsets {
        params: lists,
        interfaces: lists + 8,
        code: place(b, map_type::CODE_ITEM),
        debug: place(b, map_type::DEBUG_INFO_ITEM),
        members: place(b, map_type::CLASS_DATA_ITEM),
        note: place(b, map_type::ANNOTATION_ITEM),
        set: place(b, map_type::ANNOTATION_SET_ITEM),
        set_list: place(b, map_type::ANNOTATION_SET_REF_LIST),
        directory: place(b, map_type::ANNOTATION_DIRECTORY_ITEM),
        statics: arrays,
        call_site: arrays + 4,
    }
}

/// The sample file as it would be found in `b`.
fn reread(b: &[u8]) -> DexFile {
    let mut dex = sample(found(b));
    dex.map_entries = map_of(b);
    dex.string_data_offs = (0..9).map(|i| u32_at(b, u32_at(b, 60) + 4 * i)).collect();
    dex.header.checksum = u32_at(b, 8);
    dex.header.signature.copy_from_slice(&b[12..32]);
    dex.header.file_size = u32_at(b, 32);
    dex.header.map_off = u32_at(b, 52);
    dex.header.data_size = u32_at(b, 104);
    dex.header.data_off = u32_at(b, 108);
    dex
}

const KEEP: EmitConfig = EmitConfig {
    permit_partial_ir: false,
    preserve_map_list_order: true,
    preserve_encoded_value_width: true,
    preserve_data_section_layout: true,
    preserve_input_checksums: true,
};

#[test]
fn header_gives_the_length_and_the_places() {
    let b = emit_dex(&sample(SCATTERED)).expect("emits");
    assert_eq!(&b[..8], b"dex\n038\0");
    assert_eq!(u32_at(&b, 32) as usize, b.len());
    assert_eq!(u32_at(&b, 36), 112);
    assert_eq!(u32_at(&b, 40), 0x1234_5678);
    assert_eq!((u32_at(&b, 44), u32_at(&b, 48)), (0, 0));
    assert_eq!((u32_at(&b, 56), u32_at(&b, 60)), (9, 112));
    assert_eq!((u32_at(&b, 64), u32_at(&b, 68)), (5, 148));
    assert_eq!((u32_at(&b, 72), u32_at(&b, 76)), (1, 168));
    assert_eq!((u32_at(&b, 80), u32_at(&b, 84)), (1, 180));
    assert_eq!((u32_at(&b, 88), u32_at(&b, 92)), (1, 188));
    assert_eq!((u32_at(&b, 96), u32_at(&b, 100)), (1, 196));
    assert_eq!(u32_at(&b, 108), 196 + 32 + 4 + 8);
    assert_eq!(u32_at(&b, 104) as usize, b.len() - 240);
}

#[test]
fn empty_pools_have_no_place() {
    let mut dex = sample(SCATTERED);
    dex.fields.clear();
    dex.annotations.clear();
    dex.class_defs.clear();
    dex.class_datas.clear();
    let b = emit_dex(&dex).expect("emits");
    assert_eq!((u32_at(&b, 80), u32_at(&b, 84)), (0, 0));
    assert_eq!((u32_at(&b, 96), u32_at(&b, 100)), (0, 0));
    assert!(map_of(&b).iter().all(|e| e.type_code != map_type::FIELD_ID_ITEM));
}

#[test]
fn checksums_match_what_they_cover() {
    let b = emit_dex(&sample(SCATTERED)).expect("emits");
    assert_eq!(&b[12..32], sha1::Sha1::digest(&b[32..]).as_slice());
    assert_eq!(u32_at(&b, 8), adler2::adler32_slice(&b[12..]));
}

#[test]
fn every_string_is_where_its_id_points() {
    let b = emit_dex(&sample(SCATTERED)).expect("emits");
    for (i, text) in TEXTS.iter().enumerate() {
        let at = u32_at(&b, 112 + 4 * i as u32) as usize;
        assert_eq!(b[at] as usize, text.len());
        assert_eq!(&b[at + 1..at + 1 + text.len()], text.as_bytes());
        assert_eq!(b[at + 1 + text.len()], 0);
    }
}

#[test]
fn offsets_lead_to_the_items() {
    let b = emit_dex(&sample(SCATTERED)).expect("emits");
    let class = u32_at(&b, 100);
    assert_eq!(u32_at(&b, class), 1);
    assert_eq!(u32_at(&b, class + 8), 3);
    assert_eq!(u32_at(&b, class + 16), 0xFFFF_FFFF);
    let interfaces = u32_at(&b, class + 12);
    assert_eq!((u32_at(&b, interfaces), u16_at(&b, interfaces + 4)), (1, 3));
    let statics = u32_at(&b, class + 28) as usize;
    assert_eq!(&b[statics..statics + 4], [1, 0x24, 0x2C, 0x01]);
    let members = u32_at(&b, class + 24) as usize;
    assert_eq!(&b[members..members + 8], [1, 0, 1, 0, 0, 8, 0, 9]);
    let code = u32::from(b[members + 8] & 0x7F) + 128 * u32::from(b[members + 9] & 0x7F);
    assert_eq!(code % 4, 0);
    assert_eq!(u16_at(&b, code), 3);
    assert_eq!(u32_at(&b, code + 12), 2);
    assert_eq!(u16_at(&b, code + 16), 0x1012);
    assert_eq!(u16_at(&b, code + 18), 0x000e);
    let debug = u32_at(&b, code + 8) as usize;
    assert_eq!(&b[debug..debug + 5], [1, 0, 7, 0x0e, 0]);
    let dir = u32_at(&b, class + 20);
    let set = u32_at(&b, dir);
    assert_eq!(u32_at(&b, dir + 20), set);
    assert_eq!(u32_at(&b, set), 1);
    let note = u32_at(&b, set + 4) as usize;
    assert_eq!(&b[note..note + 6], [1, 2, 1, 8, 0x04, 5]);
    let list = u32_at(&b, dir + 36);
    assert_eq!((u32_at(&b, list), u32_at(&b, list + 4)), (1, set));
    let params = u32_at(&b, u32_at(&b, 76) + 8);
    assert_eq!((u32_at(&b, params), u16_at(&b, params + 4)), (1, 0));
    let site = u32_at(&b, place(&b, map_type::CALL_SITE_ID_ITEM)) as usize;
    assert_eq!(&b[site..site + 2], [1, 0x1e]);
    let handle = place(&b, map_type::METHOD_HANDLE_ITEM);
    assert_eq!((u16_at(&b, handle), u16_at(&b, handle + 4)), (4, 0));
}

#[test]
fn map_list_is_in_file_order() {
    let b = emit_dex(&sample(SCATTERED)).expect("emits");
    let map = map_of(&b);
    assert_eq!(map.len(), 20);
    assert!(map.windows(2).all(|w| w[0].offset < w[1].offset));
    assert_eq!(map[0].offset, 0);
    assert_eq!(u32_at(&b, 52) as usize + 4 + 12 * map.len(), b.len());
}

#[test]
fn unknown_debug_info_is_dropped() {
    let mut dex = sample(SCATTERED);
    dex.debug_info_raw_bytes.clear();
    let b = emit_dex(&dex).expect("emits");
    assert_eq!(u32_at(&b, place(&b, map_type::CODE_ITEM) + 8), 0);
}

#[test]
fn kept_layout_gives_the_same_bytes() {
    let b = emit_dex(&sample(SCATTERED)).expect("emits");
    let again = emit_dex_collect(&reread(&b), &KEEP).expect("emits");
    assert_eq!(again.bytes, b);
    assert_eq!(again.applied_transformations, []);
}

#[test]
fn canonical_form_is_stable() {
    let b = emit_dex(&sample(SCATTERED)).expect("emits");
    let again = emit_dex_collect(&reread(&b), &EmitConfig::default()).expect("emits");
    assert_eq!(again.bytes, b);
    assert_eq!(again.applied_transformations, []);
}

#[test]
fn kept_layout_follows_the_map() {
    let b = emit_dex(&sample(SCATTERED)).expect("emits");
    let mut dex = reread(&b);
    let end = b.len() as u32;
    for e in dex.map_entries.iter_mut() {
        if e.type_code == map_type::ENCODED_ARRAY_ITEM {
            e.offset = end;
        }
    }
    dex.header.file_size = end + 16;
    dex.header.data_size += 16;
    let kept = emit_dex_with_config(&dex, &KEEP).expect("emits");
    assert_eq!(kept.len() as u32, end + 16);
    assert_eq!(u32_at(&kept, 32), end + 16);
    assert_eq!(&kept[end as usize..end as usize + 6], [1, 0x24, 0x2C, 0x01, 1, 0x1e]);
    assert_eq!(&kept[end as usize + 6..], [0; 10]);
    assert_eq!(u32_at(&kept, u32_at(&kept, 100) + 28), end);
    let reports = emit_dex_collect(&dex, &EmitConfig::default()).expect("emits");
    assert!(reports
        .applied_transformations
        .contains(&CanonicalTransform::DataSectionLayoutReordered));
    assert!(!reports.applied_transformations.contains(&CanonicalTransform::MapListReordered));
    assert_eq!(reports.bytes, b);
}

#[test]
fn kept_layout_grows_past_the_length_that_was_read() {
    let b = emit_dex(&sample(SCATTERED)).expect("emits");
    let mut dex = reread(&b);
    let end = b.len() as u32;
    for e in dex.map_entries.iter_mut() {
        if e.type_code == map_type::ENCODED_ARRAY_ITEM {
            e.offset = end;
        }
    }
    let kept = emit_dex_with_config(&dex, &KEEP).expect("emits");
    assert_eq!(kept.len() as u32, end + 6);
    assert_eq!(u32_at(&kept, 32), end + 6);
}

/// The outcome with the layout kept is that with the layout left alone, by either way
/// in.
fn laid_out_anew(dex: &DexFile) {
    let anew = EmitConfig { preserve_data_section_layout: false, ..KEEP };
    let fresh = emit_dex_collect(dex, &anew).expect("emits");
    let kept = emit_dex_collect(dex, &KEEP).expect("emits");
    assert_eq!(kept.bytes, fresh.bytes);
    assert_eq!(kept.applied_transformations, fresh.applied_transformations);
    let (bytes, _) = emit_dex_inner_preserve_layout(dex, &KEEP).expect("emits");
    assert_eq!(bytes, fresh.bytes);
}

#[test]
fn without_a_map_the_file_is_laid_out_anew() {
    let b = emit_dex(&sample(SCATTERED)).expect("emits");
    let mut dex = reread(&b);
    dex.map_entries.clear();
    laid_out_anew(&dex);
    assert_eq!(emit_dex_inner_preserve_layout(&dex, &KEEP).expect("emits").1, []);
}

#[test]
fn without_a_place_for_the_map_list_the_file_is_laid_out_anew() {
    let b = emit_dex(&sample(SCATTERED)).expect("emits");
    let mut dex = reread(&b);
    dex.map_entries.retain(|e| e.type_code != map_type::MAP_LIST);
    laid_out_anew(&dex);
}

#[test]
fn without_a_place_for_a_section_the_file_is_laid_out_anew() {
    let b = emit_dex(&sample(SCATTERED)).expect("emits");
    for code in [
        map_type::STRING_DATA_ITEM,
        map_type::TYPE_LIST,
        map_type::CODE_ITEM,
        map_type::DEBUG_INFO_ITEM,
        map_type::CLASS_DATA_ITEM,
        map_type::ANNOTATION_ITEM,
        map_type::ANNOTATION_SET_ITEM,
        map_type::ANNOTATION_SET_REF_LIST,
        map_type::ANNOTATION_DIRECTORY_ITEM,
        map_type::ENCODED_ARRAY_ITEM,
    ] {
        let mut dex = reread(&b);
        let end = dex.map_entries.len();
        dex.map_entries.retain(|e| e.type_code != code);
        assert_eq!(dex.map_entries.len() + 1, end);
        laid_out_anew(&dex);
    }
}

#[test]
fn a_lost_place_shows_in_the_reports() {
    let b = emit_dex(&sample(SCATTERED)).expect("emits");
    let mut dex = reread(&b);
    dex.map_entries.retain(|e| e.type_code != map_type::TYPE_LIST);
    let end = b.len() as u32;
    for e in dex.map_entries.iter_mut() {
        if e.type_code == map_type::ENCODED_ARRAY_ITEM {
            e.offset = end;
        }
    }
    let out = emit_dex_collect(&dex, &KEEP).expect("emits");
    assert!(out
        .applied_transformations
        .contains(&CanonicalTransform::DataSectionLayoutReordered));
}

#[test]
fn laying_out_anew_refuses_what_was_lost() {
    let mut dex = sample(SCATTERED);
    dex.map_entries.clear();
    dex.parse_errors = vec![ParseFailure { kind: ParseFailureKind::ClassData, offset: 8 }];
    let strict = EmitConfig { permit_partial_ir: false, ..KEEP };
    assert!(matches!(
        emit_dex_inner_preserve_layout(&dex, &strict),
        Err(DexEmitError::PartialIR { count: 1, .. })
    ));
    let lenient = EmitConfig { permit_partial_ir: true, ..KEEP };
    assert!(emit_dex_inner_preserve_layout(&dex, &lenient).is_ok());
}

#[test]
fn kept_layout_refuses_a_section_at_the_start_of_the_file() {
    let b = emit_dex(&sample(SCATTERED)).expect("emits");
    let mut dex = reread(&b);
    for e in dex.map_entries.iter_mut() {
        if e.type_code == map_type::TYPE_LIST {
            e.offset = 0;
        }
    }
    assert!(matches!(
        emit_dex_with_config(&dex, &KEEP),
        Err(DexEmitError::UnrepresentableIR {
            why: "preserve_data_section_layout: type_list has bytes but preserved base is 0/missing"
        })
    ));
}

#[test]
fn kept_layout_refuses_what_was_not_read() {
    let b = emit_dex(&sample(SCATTERED)).expect("emits");
    let mut dex = reread(&b);
    let start = place(&b, map_type::DEBUG_INFO_ITEM);
    let end = place(&b, map_type::CLASS_DATA_ITEM);
    dex.debug_info_section_layout = vec![SectionRegion::Entry { start, end }];
    assert_eq!(emit_dex_with_config(&dex, &KEEP).expect("emits"), b);
    dex.debug_info_section_layout = vec![SectionRegion::UnparseableTail { start, end }];
    assert!(matches!(
        emit_dex_with_config(&dex, &KEEP),
        Err(DexEmitError::UnrepresentableIR { .. })
    ));
    dex.debug_info_section_layout = vec![SectionRegion::Entry { start, end: end - 1 }];
    assert!(matches!(
        emit_dex_with_config(&dex, &KEEP),
        Err(DexEmitError::UnrepresentableIR { .. })
    ));
}

#[test]
fn kept_checksums_are_those_read() {
    let mut dex = sample(SCATTERED);
    dex.header.checksum = 0xA1B2_C3D4;
    dex.header.signature = [7; 20];
    dex.input_checksums_canonical = false;
    let config = EmitConfig { preserve_input_checksums: true, ..EmitConfig::default() };
    let kept = emit_dex_collect(&dex, &config).expect("emits");
    assert_eq!(u32_at(&kept.bytes, 8), 0xA1B2_C3D4);
    assert_eq!(&kept.bytes[12..32], [7; 20]);
    assert_eq!(kept.applied_transformations, []);
    let fresh = emit_dex_collect(&dex, &EmitConfig::default()).expect("emits");
    assert_eq!(&kept.bytes[32..], &fresh.bytes[32..]);
    assert_eq!(
        fresh.applied_transformations,
        [CanonicalTransform::InputChecksumNormalized]
    );
}

#[test]
fn kept_widths_change_bytes_and_not_values() {
    let mut dex = sample(SCATTERED);
    dex.encoded_array_widths = one(SCATTERED.statics, vec![4]);
    let config = EmitConfig { preserve_encoded_value_width: true, ..EmitConfig::default() };
    let kept = emit_dex_collect(&dex, &config).expect("emits");
    let at = place(&kept.bytes, map_type::ENCODED_ARRAY_ITEM) as usize;
    assert_eq!(&kept.bytes[at..at + 6], [1, 0x64, 0x2C, 0x01, 0, 0]);
    assert_eq!(kept.applied_transformations, []);
    let fresh = emit_dex_collect(&dex, &EmitConfig::default()).expect("emits");
    let at = place(&fresh.bytes, map_type::ENCODED_ARRAY_ITEM) as usize;
    assert_eq!(&fresh.bytes[at..at + 4], [1, 0x24, 0x2C, 0x01]);
    assert_eq!(
        fresh.applied_transformations,
        [CanonicalTransform::EncodedValueReencoded { count: 1 }]
    );
}

#[test]
fn floating_point_numbers_keep_their_full_width() {
    let mut dex = sample(SCATTERED);
    dex.encoded_arrays.insert(SCATTERED.statics, vec![EncodedValue::Float(0x3F80_0000)]);
    dex.encoded_array_widths = one(SCATTERED.statics, vec![2]);
    let config = EmitConfig { preserve_encoded_value_width: true, ..EmitConfig::default() };
    let b = emit_dex_with_config(&dex, &config).expect("emits");
    let at = place(&b, map_type::ENCODED_ARRAY_ITEM) as usize;
    assert_eq!(&b[at..at + 6], [1, 0x70, 0, 0, 0x80, 0x3F]);
}

#[test]
fn only_numbers_in_arrays_count_as_re_encoded() {
    let mut dex = sample(SCATTERED);
    dex.annotation_item_widths = dex.annotation_items.keys().map(|k| (*k, vec![4; 8])).collect();
    assert_eq!(count_encoded_value_width_divergences(&dex), 0);
    dex.encoded_arrays.insert(
        SCATTERED.statics,
        vec![EncodedValue::Float(0x3F80_0000), EncodedValue::Long(1), EncodedValue::Double(0)],
    );
    dex.encoded_array_widths = one(SCATTERED.statics, vec![8, 8, 8]);
    assert_eq!(count_encoded_value_width_divergences(&dex), 1);
}

#[test]
fn reports_about_contents_follow_each_other() {
    let mut dex = sample(SCATTERED);
    dex.encoded_array_widths = one(SCATTERED.statics, vec![4]);
    dex.input_checksums_canonical = false;
    let out = emit_dex_collect(&dex, &EmitConfig::default()).expect("emits");
    assert_eq!(
        out.applied_transformations,
        [
            CanonicalTransform::EncodedValueReencoded { count: 1 },
            CanonicalTransform::InputChecksumNormalized,
        ]
    );
    assert_eq!(out.bytes, emit_dex(&dex).expect("emits"));
}

/// The strings at positions 7 and 8 are the last two in the other order.
fn last_two_swapped(b: &[u8]) {
    let ids = u32_at(b, 60);
    let seventh = u32_at(b, ids + 28) as usize;
    let eighth = u32_at(b, ids + 32) as usize;
    assert_eq!(&b[seventh..seventh + 7], b"\x05value\0");
    assert_eq!(&b[eighth..eighth + 6], b"\x04main\0");
}

#[test]
fn unordered_strings_keep_their_order_and_are_not_reported() {
    let mut dex = sample(SCATTERED);
    dex.strings.swap(7, 8);
    assert!(verify_utf16_sorted(&dex.strings).is_err());
    let out = emit_dex_collect(&dex, &EmitConfig::default()).expect("emits");
    last_two_swapped(&out.bytes);
    assert_eq!(out.applied_transformations, []);
    let mut again = reread(&out.bytes);
    again.strings.swap(7, 8);
    let kept = emit_dex_collect(&again, &KEEP).expect("emits");
    assert_eq!(kept.bytes, out.bytes);
    assert_eq!(kept.applied_transformations, []);
    let by_offset = EmitConfig { preserve_map_list_order: false, ..KEEP };
    let kept = emit_dex_collect(&again, &by_offset).expect("emits");
    assert_eq!(kept.bytes, out.bytes);
    assert_eq!(kept.applied_transformations, []);
}

#[test]
fn padding_is_reported_where_a_section_has_moved() {
    let b = emit_dex(&sample(SCATTERED)).expect("emits");
    let mut dex = reread(&b);
    for e in dex.map_entries.iter_mut() {
        if e.type_code == map_type::ANNOTATION_SET_ITEM {
            e.offset -= 1;
        }
    }
    let out = emit_dex_collect(&dex, &EmitConfig::default()).expect("emits");
    let before = place(&b, map_type::ANNOTATION_ITEM) + 6;
    let byte_count = place(&b, map_type::ANNOTATION_SET_ITEM) - before;
    assert!(byte_count > 0);
    assert_eq!(
        out.applied_transformations,
        [CanonicalTransform::AlignmentPaddingInserted {
            section: AlignmentSection::AnnotationSet,
            byte_count,
        }]
    );
    dex.map_entries.retain(|e| e.type_code != map_type::ANNOTATION_SET_ITEM);
    let out = emit_dex_collect(&dex, &EmitConfig::default()).expect("emits");
    assert_eq!(out.applied_transformations, []);
}

#[test]
fn a_partly_read_file_is_refused() {
    let mut dex = sample(SCATTERED);
    dex.parse_errors = vec![
        ParseFailure { kind: ParseFailureKind::ReservedBits, offset: 1 },
        ParseFailure { kind: ParseFailureKind::CodeItem, offset: 0x2000 },
        ParseFailure { kind: ParseFailureKind::ClassData, offset: 0x3000 },
    ];
    match emit_dex_collect(&dex, &EmitConfig::default()) {
        Err(DexEmitError::PartialIR { count, first_kind, first_offset }) => {
            assert_eq!(count, 2);
            assert_eq!(first_kind, ParseFailureKind::CodeItem);
            assert_eq!(first_offset, 0x2000);
        }
        other => panic!("{other:?}"),
    }
    let config = EmitConfig { permit_partial_ir: true, ..EmitConfig::default() };
    assert!(emit_dex_collect(&dex, &config).is_ok());
}

#[test]
fn dangling_offsets_are_refused() {
    let mut dex = sample(SCATTERED);
    dex.class_defs[0].class_data_off = 1;
    assert!(matches!(
        emit_dex(&dex),
        Err(DexEmitError::UnrepresentableIR {
            why: "class.class_data_off references class_data not in DexFile.class_datas"
        })
    ));
    let mut dex = sample(SCATTERED);
    dex.protos[0].parameters_off = 1;
    assert!(matches!(emit_dex(&dex), Err(DexEmitError::UnrepresentableIR { .. })));
    let mut dex = sample(SCATTERED);
    dex.annotation_sets.insert(SCATTERED.set, vec![1]);
    assert!(matches!(emit_dex(&dex), Err(DexEmitError::UnrepresentableIR { .. })));
    let mut dex = sample(SCATTERED);
    dex.call_site_ids = vec![1];
    assert!(matches!(emit_dex(&dex), Err(DexEmitError::UnrepresentableIR { .. })));
}

#[test]
fn a_type_without_its_string_is_refused() {
    let mut dex = sample(SCATTERED);
    dex.type_descriptors.push("LGone;".to_string());
    assert!(matches!(
        emit_dex(&dex),
        Err(DexEmitError::UnrepresentableIR {
            why: "emit_dex: type_descriptor not found in strings pool (IR is internally inconsistent)"
        })
    ));
    let mut dex = sample(SCATTERED);
    dex.type_descriptors.swap(0, 1);
    assert!(matches!(emit_dex(&dex), Err(DexEmitError::UnrepresentableIR { .. })));
}
