//! Tokens.
use std::collections::BTreeMap;

use droidsaw_dex::classes::TypeToClassDefMap;
use droidsaw_dex::decode::{
    CodeItem, CodeItemInvariantViolation, Instruction, PoolIndex, RegList,
};
use droidsaw_dex::dex_file::DexFile;
use droidsaw_dex::dex_string::DexString;
use droidsaw_dex::header::DexHeader;
use droidsaw_dex::ids::{
    ClassDefItem, FieldIdItem, FieldIdx, MethodIdItem, MethodIdx, ProtoIdItem, ProtoIdx, StringIdx,
    TypeIdx,
};
use droidsaw_dex::opcodes::Opcode;
use droidsaw_dex::spr::supertypes::{
    is_android_api, nearest_api_supertype_set, NR_EXT_PLACEHOLDER, NR_WALK_NODE_CAP,
};
use droidsaw_dex::spr::token::{
    encode_method, encode_method_string, op_class, token_for, Branch, Level, Token, Unencodable,
};

fn header() -> DexHeader {
    DexHeader {
        magic: *b"dex\n035\0",
        checksum: 0,
        signature: [0u8; 20],
        file_size: 0,
        header_size: 112,
        endian_tag: 0x1234_5678,
        link_size: 0,
        link_off: 0,
        map_off: 0,
        string_ids_size: 0,
        string_ids_off: 0,
        type_ids_size: 0,
        type_ids_off: 0,
        proto_ids_size: 0,
        proto_ids_off: 0,
        field_ids_size: 0,
        field_ids_off: 0,
        method_ids_size: 0,
        method_ids_off: 0,
        class_defs_size: 0,
        class_defs_off: 0,
        data_size: 0,
        data_off: 0,
    }
}

fn code(instructions: Vec<Instruction>) -> CodeItem {
    CodeItem {
        registers_size: 4,
        ins_size: 0,
        outs_size: 2,
        debug_info_off: 0,
        instructions,
        tries: Vec::new(),
        catch_handlers: Vec::new(),
        payloads: BTreeMap::new(),
        invariant_violations: Vec::new(),
    }
}

/// A file with an application class below a platform class, a helper class, and
/// two methods that refer to both.
fn fixture_dex() -> DexFile {
    let texts = [
        "Landroid/app/Activity;",
        "Lcom/app/Helper;",
        "Lcom/app/Main;",
        "Ljava/io/Serializable;",
        "Ljava/lang/Object;",
        "V",
        "go",
        "greeting",
        "helper",
        "onCreate",
    ];
    let class_def = |class: u32, sup: u32, interfaces_off: u32| ClassDefItem {
        class_idx: TypeIdx(class),
        access_flags: 1,
        superclass_idx: Some(TypeIdx(sup)),
        interfaces_off,
        source_file_idx: None,
        annotations_off: 0,
        class_data_off: 0,
        static_values_off: 0,
    };
    let with_pool = |op: Opcode, addr: u32, dst: Option<u16>, src: RegList, pool: PoolIndex| {
        Instruction { addr, op, size: 2, dst, src, literal: 0, target: None, pool_idx: Some(pool) }
    };
    let mut code_items = BTreeMap::new();
    code_items.insert(
        0x100,
        code(vec![
            with_pool(
                Opcode::NewInstance,
                0,
                Some(0),
                RegList::empty(),
                PoolIndex::Type(TypeIdx(1)),
            ),
            with_pool(
                Opcode::InvokeDirect,
                2,
                None,
                RegList::one(0),
                PoolIndex::Method(MethodIdx(0)),
            ),
            with_pool(
                Opcode::IputObject,
                5,
                Some(0),
                RegList::one(1),
                PoolIndex::Field(FieldIdx(0)),
            ),
            insn(Opcode::ReturnVoid, 7, None, RegList::empty(), None),
        ]),
    );
    code_items.insert(
        0x200,
        code(vec![
            with_pool(
                Opcode::ConstString,
                0,
                Some(0),
                RegList::empty(),
                PoolIndex::String(StringIdx(7)),
            ),
            insn(Opcode::Nop, 2, None, RegList::empty(), None),
            with_pool(
                Opcode::CheckCast,
                3,
                Some(0),
                RegList::empty(),
                PoolIndex::Type(TypeIdx(2)),
            ),
            insn(Opcode::Goto, 5, None, RegList::empty(), Some(0)),
        ]),
    );
    let mut type_lists = BTreeMap::new();
    type_lists.insert(0x300, vec![TypeIdx(3)]);
    DexFile {
        header: header(),
        strings: texts.iter().map(|t| DexString::from_decoded_str(t)).collect(),
        string_data_offs: Vec::new(),
        type_descriptors: texts[..6].iter().map(|t| t.to_string()).collect(),
        protos: vec![ProtoIdItem {
            shorty_idx: StringIdx(5),
            return_type_idx: TypeIdx(5),
            parameters_off: 0,
        }],
        fields: vec![FieldIdItem {
            class_idx: TypeIdx(2),
            type_idx: TypeIdx(1),
            name_idx: StringIdx(8),
        }],
        methods: vec![MethodIdItem {
            class_idx: TypeIdx(1),
            proto_idx: ProtoIdx(0),
            name_idx: StringIdx(6),
        }],
        class_defs: vec![class_def(1, 4, 0x300), class_def(2, 0, 0)],
        type_lists,
        class_datas: BTreeMap::new(),
        raw_class_data_bytes: BTreeMap::new(),
        code_items,
        annotations: BTreeMap::new(),
        annotation_sets: BTreeMap::new(),
        annotation_set_ref_lists: BTreeMap::new(),
        annotation_items: BTreeMap::new(),
        annotation_item_widths: BTreeMap::new(),
        encoded_arrays: BTreeMap::new(),
        encoded_array_widths: BTreeMap::new(),
        method_handles: Vec::new(),
        call_site_ids: Vec::new(),
        map_entries: Vec::new(),
        debug_info_raw_bytes: BTreeMap::new(),
        debug_info_section_layout: Vec::new(),
        annotation_set_section_layout: Vec::new(),
        input_checksums_canonical: true,
        parse_errors: Vec::new(),
    }
}

fn insn(op: Opcode, addr: u32, dst: Option<u16>, src: RegList, target: Option<u32>) -> Instruction {
    Instruction { addr, op, size: 1, dst, src, literal: 0, target, pool_idx: None }
}

#[test]
fn ar_collapses_encoding_suffixes_bc_preserves_them() {
    let pairs = [
        (Opcode::InvokeVirtual, Opcode::InvokeVirtualRange),
        (Opcode::ConstString, Opcode::ConstStringJumbo),
        (Opcode::Const4, Opcode::Const),
        (Opcode::Move, Opcode::MoveFrom16),
        (Opcode::Goto, Opcode::Goto32),
    ];
    for (a, b) in pairs {
        assert_eq!(
            op_class(a, Level::Ar),
            op_class(b, Level::Ar),
            "AR must collapse {a:?} and {b:?} to one class"
        );
        assert_ne!(
            op_class(a, Level::Bc),
            op_class(b, Level::Bc),
            "BC must keep {a:?} and {b:?} distinct"
        );
    }
    assert_eq!(op_class(Opcode::InvokeVirtualRange, Level::Ar), "invoke-virtual");
    assert_eq!(op_class(Opcode::ConstStringJumbo, Level::Ar), "const-string");
}

#[test]
fn unknown_opcode_byte_method_is_unencodable() {
    let dex = fixture_dex();
    let code = CodeItem {
        registers_size: 1,
        ins_size: 0,
        outs_size: 0,
        debug_info_off: 0,
        instructions: vec![insn(Opcode::Return, 0, Some(0), RegList::empty(), None)],
        tries: Vec::new(),
        catch_handlers: Vec::new(),
        payloads: BTreeMap::new(),
        invariant_violations: vec![CodeItemInvariantViolation::UnknownOpcodeByte {
            source_pc: 0,
            opcode_byte: 0xE3,
        }],
    };
    assert_eq!(encode_method(&dex, &code, Level::Ar), Err(Unencodable::DecodeDesync));
    assert_eq!(encode_method(&dex, &code, Level::Bc), Err(Unencodable::DecodeDesync));
}

#[test]
fn ar_drops_nops_bc_keeps_them() {
    let dex = fixture_dex();
    let code = CodeItem {
        registers_size: 2,
        ins_size: 0,
        outs_size: 0,
        debug_info_off: 0,
        instructions: vec![
            insn(Opcode::Nop, 0, None, RegList::empty(), None),
            insn(Opcode::Move, 1, Some(0), RegList::one(1), None),
            insn(Opcode::Nop, 2, None, RegList::empty(), None),
            insn(Opcode::ReturnVoid, 3, None, RegList::empty(), None),
        ],
        tries: Vec::new(),
        catch_handlers: Vec::new(),
        payloads: BTreeMap::new(),
        invariant_violations: Vec::new(),
    };
    let bc = encode_method(&dex, &code, Level::Bc).expect("bc");
    let ar = encode_method(&dex, &code, Level::Ar).expect("ar");
    assert_eq!(bc.len(), 4, "BC retains NOPs");
    assert_eq!(ar.len(), 2, "AR drops both NOPs");
    assert!(ar.iter().all(|t| t.op != "nop"));
}

#[test]
fn branch_is_directional_at_ar_absolute_at_bc() {
    let dex = fixture_dex();
    let back = insn(Opcode::Goto, 5, None, RegList::empty(), Some(2));
    let fwd = insn(Opcode::Goto, 5, None, RegList::empty(), Some(9));
    assert_eq!(token_for(&dex, &back, Level::Ar, None).branch, Some(Branch::Backward));
    assert_eq!(token_for(&dex, &fwd, Level::Ar, None).branch, Some(Branch::Forward));
    assert_eq!(token_for(&dex, &back, Level::Bc, None).branch, Some(Branch::Absolute(2)));
    let sw = insn(Opcode::PackedSwitch, 5, Some(0), RegList::empty(), Some(20));
    assert_eq!(token_for(&dex, &sw, Level::Ar, None).branch, None);
}

#[test]
fn structural_skeleton_is_independent_of_type_names() {
    let mut dex = fixture_dex();

    let skeleton = |d: &DexFile| -> Vec<Vec<Token>> {
        d.code_items
            .values()
            .map(|c| {
                encode_method(d, c, Level::Ar)
                    .expect("fixture methods encode")
                    .into_iter()
                    .map(|mut t| {
                        t.pool = None;
                        t
                    })
                    .collect()
            })
            .collect()
    };
    let full = |d: &DexFile| -> Vec<String> {
        d.code_items
            .values()
            .map(|c| encode_method_string(d, c, Level::Ar).expect("encodes"))
            .collect()
    };

    let before_skeleton = skeleton(&dex);
    let before_full = full(&dex);

    for d in dex.type_descriptors.iter_mut() {
        if let Some(rest) = d.strip_prefix('L') {
            *d = format!("Lren_/{rest}");
        }
    }

    let after_skeleton = skeleton(&dex);
    let after_full = full(&dex);

    assert_eq!(
        before_skeleton, after_skeleton,
        "AR structural skeleton must be independent of type names"
    );
    assert_ne!(
        before_full, after_full,
        "the rename must actually have moved some resolved pool reference \
         (else the test is vacuous)"
    );
}

#[test]
fn nr_token_stream_is_invariant_under_type_rename() {
    let mut dex = fixture_dex();

    let nr_full = |d: &DexFile| -> Vec<String> {
        d.code_items
            .values()
            .map(|c| encode_method_string(d, c, Level::Nr).expect("fixture methods encode"))
            .collect()
    };
    let bc_full = |d: &DexFile| -> Vec<String> {
        d.code_items
            .values()
            .map(|c| encode_method_string(d, c, Level::Bc).expect("encodes"))
            .collect()
    };

    let before_nr = nr_full(&dex);
    let before_bc = bc_full(&dex);

    let mut renamed_any = false;
    for d in dex.type_descriptors.iter_mut() {
        if is_android_api(d) {
            continue;
        }
        if let Some(rest) = d.strip_prefix('L') {
            *d = format!("Lren_/{rest}");
            renamed_any = true;
        }
    }
    assert!(renamed_any, "fixture must carry at least one renameable app type");

    let after_nr = nr_full(&dex);
    let after_bc = bc_full(&dex);

    assert_eq!(
        before_nr, after_nr,
        "NR token stream must be byte-identical under application-type rename"
    );
    assert_ne!(
        before_bc, after_bc,
        "the rename must actually have moved a BC-level pool reference \
         (else the NR invariance test is vacuous)"
    );
}

#[test]
fn is_android_api_truth_table() {
    assert!(is_android_api("Landroid/view/View;"));
    assert!(is_android_api("Ljava/lang/Object;"));
    assert!(is_android_api("Ljavax/crypto/Cipher;"));
    assert!(is_android_api("Ldalvik/system/DexFile;"));
    assert!(is_android_api("Lorg/json/JSONObject;"));
    assert!(is_android_api("Lorg/w3c/dom/Node;"));
    assert!(is_android_api("Lorg/apache/http/HttpResponse;"));
    assert!(is_android_api("Ljunit/framework/TestCase;"));
    assert!(is_android_api("[Landroid/view/View;"));
    assert!(is_android_api("[[Ljava/lang/String;"));

    assert!(!is_android_api("Landroidx/recyclerview/widget/RecyclerView;"));
    assert!(!is_android_api("Lkotlin/Unit;"));
    assert!(!is_android_api("Lkotlinx/coroutines/Job;"));
    assert!(!is_android_api("Lcom/google/gson/Gson;"));
    assert!(!is_android_api("Lcom/foo/Bar;"));

    assert!(!is_android_api("I"));
    assert!(!is_android_api("V"));
    assert!(!is_android_api("[I"));
    assert!(!is_android_api("[[J"));
}

#[test]
fn walker_resolves_api_supertypes_self_external_and_cycle() {

    let mut dex = fixture_dex();
    dex.type_descriptors = vec![
        "Lcom/app/A;".to_string(),
        "Lcom/app/B;".to_string(),
        "Landroid/app/Activity;".to_string(),
        "Lcom/ext/Unresolved;".to_string(),
        "Lcom/app/C;".to_string(),
        "Lcom/app/D;".to_string(),
    ];
    let cd = |class: u32, sup: Option<u32>| ClassDefItem {
        class_idx: TypeIdx(class),
        access_flags: 0,
        superclass_idx: sup.map(TypeIdx),
        interfaces_off: 0,
        source_file_idx: Some(StringIdx(0)),
        annotations_off: 0,
        class_data_off: 0,
        static_values_off: 0,
    };
    dex.class_defs = vec![
        cd(0, Some(1)),
        cd(1, Some(2)),
        cd(4, Some(5)),
        cd(5, Some(4)),
    ];
    let ttm = TypeToClassDefMap::build(&dex);

    assert_eq!(
        nearest_api_supertype_set(&dex, &ttm, TypeIdx(0)),
        vec!["Landroid/app/Activity;".to_string()],
    );
    assert_eq!(
        nearest_api_supertype_set(&dex, &ttm, TypeIdx(2)),
        vec!["Landroid/app/Activity;".to_string()],
    );
    assert_eq!(
        nearest_api_supertype_set(&dex, &ttm, TypeIdx(3)),
        vec![NR_EXT_PLACEHOLDER.to_string()],
    );
    assert_eq!(
        nearest_api_supertype_set(&dex, &ttm, TypeIdx(4)),
        vec![NR_EXT_PLACEHOLDER.to_string()],
    );
}

#[test]
fn walker_node_cap_bounds_deep_chain() {

    let mut dex = fixture_dex();
    let n: u32 = (NR_WALK_NODE_CAP as u32).saturating_add(64);
    dex.type_descriptors = (0..n).map(|i| format!("Lcom/deep/T{i};")).collect();
    dex.class_defs = (0..n)
        .map(|i| ClassDefItem {
            class_idx: TypeIdx(i),
            access_flags: 0,
            superclass_idx: if i + 1 < n { Some(TypeIdx(i + 1)) } else { None },
            interfaces_off: 0,
            source_file_idx: Some(StringIdx(0)),
            annotations_off: 0,
            class_data_off: 0,
            static_values_off: 0,
        })
        .collect();
    let ttm = TypeToClassDefMap::build(&dex);

    let set = nearest_api_supertype_set(&dex, &ttm, TypeIdx(0));
    assert_eq!(set, vec![NR_EXT_PLACEHOLDER.to_string()]);
}
