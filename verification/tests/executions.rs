//! Executions that pause at calls, and how executions fail.
use std::collections::BTreeMap;

use droidsaw_dex::decode::{Instruction, PayloadData, PoolIndex, RegList};
use droidsaw_dex::dex_file::DexFile;
use droidsaw_dex::dex_string::DexString;
use droidsaw_dex::emulator::execution::{MockResult, Pause};
use droidsaw_dex::emulator::{
    make_code_item, make_code_item_with_payloads, EmulatorCore, EmulatorError, Value,
};
use droidsaw_dex::header::DexHeader;
use droidsaw_dex::ids::{MethodIdItem, MethodIdx, ProtoIdx, StringIdx, TypeIdx};
use droidsaw_dex::opcodes::Opcode;

fn op(addr: u32, op: Opcode) -> Instruction {
    Instruction {
        addr,
        op,
        size: 1,
        dst: None,
        src: RegList::empty(),
        literal: 0,
        target: None,
        pool_idx: None,
    }
}

fn load(addr: u32, dst: u16, literal: i64) -> Instruction {
    Instruction { dst: Some(dst), literal, ..op(addr, Opcode::Const) }
}

fn three(addr: u32, code: Opcode, dst: u16, a: u16, b: u16) -> Instruction {
    Instruction { dst: Some(dst), src: RegList::two(a, b), ..op(addr, code) }
}

fn give(addr: u32, reg: u16) -> Instruction {
    Instruction { dst: Some(reg), ..op(addr, Opcode::Return) }
}

fn call(addr: u32, code: Opcode, src: RegList, method: u32) -> Instruction {
    Instruction { src, pool_idx: Some(PoolIndex::Method(MethodIdx(method))), ..op(addr, code) }
}

fn file() -> DexFile {
    let header = DexHeader {
        magic: *b"dex\n035\0",
        checksum: 0,
        signature: [0; 20],
        file_size: 0,
        header_size: 112,
        endian_tag: 0,
        link_size: 0,
        link_off: 0,
        map_off: 0,
        string_ids_size: 0,
        string_ids_off: 0,
        type_ids_size: 0,
        type_ids_off: 0,
        proto_ids_size: 0,
        proto_ids_off: 0,
        field_ids_size: 0,
        field_ids_off: 0,
        method_ids_size: 0,
        method_ids_off: 0,
        class_defs_size: 0,
        class_defs_off: 0,
        data_size: 0,
        data_off: 0,
    };
    DexFile {
        header,
        strings: ["hidden", "Lapi/Text;", "append"].iter().map(|s| DexString::from_decoded_str(s)).collect(),
        string_data_offs: Vec::new(),
        type_descriptors: vec!["Lapi/Text;".to_string()],
        protos: Vec::new(),
        fields: Vec::new(),
        methods: vec![
            MethodIdItem { class_idx: TypeIdx(0), proto_idx: ProtoIdx(0), name_idx: StringIdx(2) },
            MethodIdItem { class_idx: TypeIdx(9), proto_idx: ProtoIdx(0), name_idx: StringIdx(2) },
        ],
        class_defs: Vec::new(),
        type_lists: BTreeMap::new(),
        class_datas: BTreeMap::new(),
        raw_class_data_bytes: BTreeMap::new(),
        code_items: BTreeMap::new(),
        annotations: BTreeMap::new(),
        annotation_sets: BTreeMap::new(),
        annotation_set_ref_lists: BTreeMap::new(),
        annotation_items: BTreeMap::new(),
        annotation_item_widths: BTreeMap::new(),
        encoded_arrays: BTreeMap::new(),
        encoded_array_widths: BTreeMap::new(),
        method_handles: Vec::new(),
        call_site_ids: Vec::new(),
        map_entries: Vec::new(),
        debug_info_raw_bytes: BTreeMap::new(),
        debug_info_section_layout: Vec::new(),
        annotation_set_section_layout: Vec::new(),
        input_checksums_canonical: true,
        parse_errors: Vec::new(),
    }
}

fn result_of(code: Opcode, a: i64, b: i64) -> Result<Value, EmulatorError> {
    let ci = make_code_item(
        3,
        0,
        vec![load(0, 0, a), load(1, 1, b), three(2, code, 2, 0, 1), give(3, 2)],
    );
    EmulatorCore::without_dex().execute(&ci, &[], 100)
}

fn whole(code: Opcode, a: i64, b: i64) -> i32 {
    match result_of(code, a, b) {
        Ok(Value::Int(x)) => x,
        other => panic!("{other:?}"),
    }
}

fn fault(ci: Vec<Instruction>) -> EmulatorError {
    EmulatorCore::without_dex().execute(&make_code_item(3, 0, ci), &[], 100).expect_err("fails")
}

#[test]
fn arithmetic_wraps_around() {
    let min = i64::from(i32::MIN);
    let max = i64::from(i32::MAX);
    assert_eq!(whole(Opcode::AddInt, max, 1), i32::MIN);
    assert_eq!(whole(Opcode::SubInt, min, 1), i32::MAX);
    assert_eq!(whole(Opcode::MulInt, max, 2), -2);
    assert_eq!(whole(Opcode::DivInt, min, -1), i32::MIN);
    assert_eq!(whole(Opcode::RemInt, min, -1), 0);
    assert_eq!(whole(Opcode::DivInt, -7, 2), -3);
    assert_eq!(whole(Opcode::RemInt, -7, 2), -1);
    assert_eq!(whole(Opcode::DivInt, 7, -2), -3);
    assert_eq!(whole(Opcode::RemInt, 7, -2), 1);
}

#[test]
fn shifts_count_modulo_the_width() {
    assert_eq!(whole(Opcode::ShlInt, 1, 33), 2);
    assert_eq!(whole(Opcode::ShlInt, 1, 31), i32::MIN);
    assert_eq!(whole(Opcode::ShrInt, -8, 1), -4);
    assert_eq!(whole(Opcode::UshrInt, -8, 1), 0x7FFF_FFFC);
    assert_eq!(whole(Opcode::UshrInt, -1, 32), -1);
    assert_eq!(whole(Opcode::XorInt, 0b1100, 0b1010), 0b0110);
    assert_eq!(whole(Opcode::AndInt, -1, 0xFF), 0xFF);
    assert_eq!(whole(Opcode::OrInt, 0x10, 0x01), 0x11);
}

#[test]
fn division_by_zero_is_an_error() {
    assert!(matches!(result_of(Opcode::DivInt, 1, 0), Err(EmulatorError::DivisionByZero)));
    assert!(matches!(result_of(Opcode::RemInt, 1, 0), Err(EmulatorError::DivisionByZero)));
}

fn through_an_array(put: Opcode, get: Opcode, v: i64) -> i32 {
    let ci = make_code_item(
        4,
        0,
        vec![
            load(0, 0, 1),
            Instruction {
                dst: Some(1),
                src: RegList::one(0),
                pool_idx: Some(PoolIndex::Type(TypeIdx(0))),
                ..op(1, Opcode::NewArray)
            },
            load(2, 0, 0),
            load(3, 2, v),
            three(4, put, 2, 1, 0),
            three(5, get, 3, 1, 0),
            give(6, 3),
        ],
    );
    match EmulatorCore::without_dex().execute(&ci, &[], 100) {
        Ok(Value::Int(x)) => x,
        other => panic!("{other:?}"),
    }
}

#[test]
fn array_elements_have_their_width() {
    assert_eq!(through_an_array(Opcode::Aput, Opcode::Aget, 0x1_2345), 0x1_2345);
    assert_eq!(through_an_array(Opcode::AputByte, Opcode::AgetByte, 0x1FF), -1);
    assert_eq!(through_an_array(Opcode::AputChar, Opcode::AgetChar, -1), 0xFFFF);
    assert_eq!(through_an_array(Opcode::AputShort, Opcode::AgetShort, 0x1_8000), -0x8000);
    assert_eq!(through_an_array(Opcode::AputBoolean, Opcode::AgetBoolean, 3), 1);
}

fn new_array(len: i64) -> Vec<Instruction> {
    vec![
        load(0, 0, len),
        Instruction { dst: Some(1), src: RegList::one(0), ..op(1, Opcode::NewArray) },
    ]
}

#[test]
fn arrays_are_bounded() {
    let mut ci = new_array(2);
    ci.push(load(2, 0, 2));
    ci.push(three(3, Opcode::Aget, 2, 1, 0));
    assert!(matches!(
        fault(ci),
        EmulatorError::ArrayOutOfBounds { index: 2, length: 2 }
    ));
    assert!(matches!(
        fault(new_array(-1)),
        EmulatorError::NegativeArrayLength { length: -1 }
    ));
    assert!(matches!(
        fault(new_array(65_537)),
        EmulatorError::ArrayTooLarge { length: 65_537, cap: 65_536 }
    ));
}

#[test]
fn every_register_is_checked() {
    assert!(matches!(
        fault(vec![load(0, 3, 1)]),
        EmulatorError::RegisterOutOfRange { reg: 3, size: 3 }
    ));
    assert!(matches!(
        fault(vec![three(0, Opcode::AddInt, 0, 1, 9)]),
        EmulatorError::TypeMismatch { expected: "Int", got: "Void" }
    ));
    assert!(matches!(
        fault(vec![load(0, 1, 0), three(1, Opcode::AddInt, 0, 1, 9)]),
        EmulatorError::RegisterOutOfRange { reg: 9, size: 3 }
    ));
}

#[test]
fn the_budget_counts_instructions() {
    let ci = make_code_item(1, 0, vec![load(0, 0, 5), give(1, 0)]);
    let emu = EmulatorCore::without_dex();
    assert!(matches!(
        emu.execute(&ci, &[], 1),
        Err(EmulatorError::BudgetExceeded { budget: 1 })
    ));
    assert_eq!(emu.execute(&ci, &[], 2).expect("enough"), Value::Int(5));
    assert_eq!(emu.execute(&ci, &[], 1000).expect("enough"), Value::Int(5));
    assert_eq!(emu.execute(&make_code_item(1, 0, Vec::new()), &[], 0).expect("empty"), Value::Void);
    let around = Instruction { target: Some(0), ..op(0, Opcode::Goto) };
    assert!(matches!(
        emu.execute(&make_code_item(1, 0, vec![around]), &[], 50),
        Err(EmulatorError::BudgetExceeded { budget: 50 })
    ));
}

#[test]
fn arguments_fill_the_last_registers() {
    let ci = make_code_item(4, 2, vec![give(0, 2)]);
    let emu = EmulatorCore::without_dex();
    let args = [Value::Int(1), Value::Int(2), Value::Int(3)];
    assert_eq!(emu.execute(&ci, &args, 9).expect("returns"), Value::Int(1));
    let ci = make_code_item(4, 2, vec![give(0, 3)]);
    assert_eq!(emu.execute(&ci, &args, 9).expect("returns"), Value::Int(2));
    assert_eq!(emu.execute(&ci, &args[..1], 9).expect("returns"), Value::Void);
}

#[test]
fn payloads_do_not_run() {
    let mut payloads = BTreeMap::new();
    payloads.insert(4, PayloadData::FillArrayData { element_width: 1, data: vec![1] });
    let ci = make_code_item_with_payloads(1, 0, vec![load(0, 0, 5), give(1, 0)], payloads);
    assert_eq!(ci.payloads.len(), 1);
    assert_eq!(
        EmulatorCore::without_dex().execute(&ci, &[], 9).expect("returns"),
        Value::Int(5)
    );
}

#[test]
fn strings_come_from_the_file() {
    let dex = file();
    let text = |i| {
        vec![
            Instruction {
                dst: Some(0),
                pool_idx: Some(PoolIndex::String(StringIdx(i))),
                ..op(0, Opcode::ConstString)
            },
            Instruction { dst: Some(0), ..op(1, Opcode::ReturnObject) },
        ]
    };
    let emu = EmulatorCore::with_dex(&dex);
    assert_eq!(
        emu.execute(&make_code_item(1, 0, text(0)), &[], 9).expect("known"),
        Value::Str("hidden".to_string())
    );
    assert!(matches!(
        emu.execute(&make_code_item(1, 0, text(7)), &[], 9),
        Err(EmulatorError::StringPoolOob { idx: 7, size: 3 })
    ));
}

#[test]
fn a_call_pauses_until_it_is_answered() {
    let dex = file();
    let emu = EmulatorCore::with_dex(&dex);
    let ci = make_code_item(
        3,
        0,
        vec![
            load(0, 0, 10),
            load(1, 1, 20),
            call(2, Opcode::InvokeVirtual, RegList::two(0, 1), 0),
            Instruction { dst: Some(2), ..op(3, Opcode::MoveResult) },
            three(4, Opcode::AddInt, 2, 2, 0),
            give(5, 2),
        ],
    );
    let mut e = emu.start(&ci, &[], 6);
    match emu.run(&ci, &mut e).expect("pauses") {
        Pause::Calls(c) => {
            assert_eq!(c.method, MethodIdx(0));
            assert_eq!(c.this, Some(Value::Int(10)));
            assert_eq!(c.args, [Value::Int(20)]);
        }
        other => panic!("{other:?}"),
    }
    let reply =
        MockResult { updated_this: Some(Value::Int(100)), return_value: Value::Int(7) };
    emu.answer(&ci, &mut e, reply).expect("has a receiver");
    match emu.run(&ci, &mut e).expect("returns") {
        Pause::Returned(v) => assert_eq!(v, Value::Int(107)),
        other => panic!("{other:?}"),
    }
}

#[test]
fn the_budget_spans_pauses() {
    let dex = file();
    let emu = EmulatorCore::with_dex(&dex);
    let ci = make_code_item(
        1,
        0,
        vec![call(0, Opcode::InvokeStatic, RegList::empty(), 0), op(1, Opcode::ReturnVoid)],
    );
    let mut e = emu.start(&ci, &[], 1);
    assert!(matches!(emu.run(&ci, &mut e), Ok(Pause::Calls(_))));
    let reply = MockResult { updated_this: None, return_value: Value::Void };
    emu.answer(&ci, &mut e, reply).expect("answered");
    assert!(matches!(
        emu.run(&ci, &mut e),
        Err(EmulatorError::BudgetExceeded { budget: 1 })
    ));
}

#[test]
fn an_update_needs_a_receiver() {
    let dex = file();
    let emu = EmulatorCore::with_dex(&dex);
    let ci = make_code_item(1, 0, vec![call(0, Opcode::InvokeStatic, RegList::empty(), 0)]);
    let mut e = emu.start(&ci, &[], 9);
    assert!(matches!(emu.run(&ci, &mut e), Ok(Pause::Calls(_))));
    let reply = MockResult { updated_this: Some(Value::Int(1)), return_value: Value::Void };
    assert!(matches!(
        emu.answer(&ci, &mut e, reply),
        Err(EmulatorError::InvokeResolutionError { detail: "updated_this but no this-register" })
    ));
}

#[test]
fn calls_nobody_answers_are_refused() {
    let dex = file();
    let emu = EmulatorCore::with_dex(&dex);
    let run = |method| {
        let ci = make_code_item(
            1,
            0,
            vec![call(0, Opcode::InvokeStatic, RegList::empty(), method)],
        );
        emu.execute(&ci, &[], 9).expect_err("refused")
    };
    match run(0) {
        EmulatorError::UnsupportedMethod { class, name } => {
            assert_eq!((class.as_str(), name.as_str()), ("Lapi/Text;", "append"));
        }
        other => panic!("{other:?}"),
    }
    assert!(matches!(run(1), EmulatorError::InvokeResolutionError { .. }));
    assert!(matches!(run(5), EmulatorError::InvokeResolutionError { .. }));
    assert!(matches!(
        fault(vec![call(0, Opcode::InvokeStatic, RegList::empty(), 0)]),
        EmulatorError::Unsupported { feature: "invoke (no DEX context)" }
    ));
    assert!(matches!(
        fault(vec![call(0, Opcode::InvokeSuper, RegList::empty(), 0)]),
        EmulatorError::Unsupported { .. }
    ));
}

#[test]
fn running_off_the_end_is_an_error() {
    assert!(matches!(
        fault(vec![op(0, Opcode::Nop)]),
        EmulatorError::InstructionError { detail: "pc_idx out of bounds — missing return?" }
    ));
    let away = Instruction { target: Some(77), ..op(0, Opcode::Goto) };
    assert!(matches!(
        fault(vec![away]),
        EmulatorError::InstructionError { detail: "goto target not in addr_map" }
    ));
}

#[test]
fn faults_say_what_happened() {
    let cases = [
        (EmulatorError::BudgetExceeded { budget: 7 }, "emulator budget exceeded after 7 instructions"),
        (
            EmulatorError::RegisterOutOfRange { reg: 9, size: 3 },
            "register 9 out of range (register file size 3)",
        ),
        (
            EmulatorError::ArrayOutOfBounds { index: -1, length: 4 },
            "array index -1 out of bounds (array length 4)",
        ),
        (EmulatorError::Unsupported { feature: "x" }, "unsupported: x"),
        (EmulatorError::DivisionByZero, "division by zero"),
        (
            EmulatorError::StringPoolOob { idx: 5, size: 2 },
            "string pool index 5 out of bounds (pool size 2)",
        ),
        (EmulatorError::InstructionError { detail: "x" }, "instruction stream error: x"),
        (
            EmulatorError::TypeMismatch { expected: "Int", got: "Void" },
            "type mismatch: expected Int, got Void",
        ),
        (EmulatorError::NegativeArrayLength { length: -2 }, "negative array length -2"),
        (
            EmulatorError::ArrayTooLarge { length: 70_000, cap: 65_536 },
            "array length 70000 exceeds emulator cap 65536",
        ),
        (
            EmulatorError::UnsupportedMethod { class: "LA;".to_string(), name: "b".to_string() },
            "unsupported method: LA;.b",
        ),
        (
            EmulatorError::InvokeResolutionError { detail: "x" },
            "invoke method resolution failed: x",
        ),
    ];
    for (e, text) in cases {
        assert_eq!(e.message(), text);
    }
}
