//! Serialization, from numbers to whole files.
use std::collections::BTreeMap;

use droidsaw_dex::annotation::{EncodedAnnotation, EncodedValue};
use droidsaw_dex::decode::{
    CatchHandler, ClassData, CodeItem, EncodedField, EncodedMethod, Instruction, PayloadData,
    PoolIndex, RegList, TryItem, TypedCatch,
};
use droidsaw_dex::dex_file::{DexFile, MapEntry, ParseFailure, ParseFailureKind, PoolKind};
use droidsaw_dex::dex_string::DexString;
use droidsaw_dex::emit_dex::checksum::{emit_header, finalize_checksums, HeaderLayout};
use droidsaw_dex::emit_dex::class_data::emit_class_data_item;
use droidsaw_dex::emit_dex::code_item::emit_code_item_container;
use droidsaw_dex::emit_dex::config::{
    input_section_offset, AlignmentSection, CanonicalTransform, EmitConfig,
};
use droidsaw_dex::emit_dex::emit::{
    derive_applied_transformations, emit_dex, emit_dex_with_config,
};
use droidsaw_dex::emit_dex::encoded_value::{
    emit_encoded_value, min_signed_bytes, min_unsigned_bytes,
};
use droidsaw_dex::emit_dex::error::DexEmitError;
use droidsaw_dex::emit_dex::instruction::emit_instruction;
use droidsaw_dex::emit_dex::map_list::{
    emit_map_list, map_list_order_diverged, reorder_map_items_to_input, MapItem,
};
use droidsaw_dex::emit_dex::map_type;
use droidsaw_dex::emit_dex::ordering::{NonDecreasing, StrictlyAscending};
use droidsaw_dex::emit_dex::payload::{
    emit_fill_array_data_payload, emit_packed_switch_payload, emit_payload,
    emit_sparse_switch_payload,
};
use droidsaw_dex::emit_dex::pools::{
    emit_class_def_pool, emit_field_pool, emit_method_pool, emit_proto_pool, emit_string_pool,
    emit_string_pool_preserve_layout, emit_type_list, emit_type_pool, NO_INDEX,
};
use droidsaw_dex::emit_dex::sections::emit_debug_info_section;
use droidsaw_dex::emit_dex::widths::{
    count_encoded_value_width_divergences, emit_encoded_array, emit_encoded_array_with_widths,
    emit_encoded_value_at_width, encoded_value_min_emit_width,
};
use droidsaw_dex::header::DexHeader;
use droidsaw_dex::ids::{
    CallSiteIdx, ClassDefItem, FieldIdItem, FieldIdx, MethodHandleIdx, MethodIdItem, MethodIdx,
    ProtoIdItem, ProtoIdx, StringIdx, TypeIdx,
};
use droidsaw_dex::leb128::{write_sleb128, write_uleb128};
use droidsaw_dex::mutf8::{encode_mutf8_into, utf16_unit_count};
use droidsaw_dex::opcodes::{format_size, insn_format, InsnFormat, Opcode};

/// Every access flag that a field may have.
const FIELD_FLAGS: u32 = 0x50DF;

/// Every access flag that a method may have.
const METHOD_FLAGS: u32 = 0x3_1DFF;

// Readers for what the library writes.

fn read_u16(bytes: &[u8], at: usize) -> u16 {
    u16::from_le_bytes([bytes[at], bytes[at + 1]])
}

fn read_u32(bytes: &[u8], at: usize) -> u32 {
    u32::from_le_bytes([bytes[at], bytes[at + 1], bytes[at + 2], bytes[at + 3]])
}

fn read_i32(bytes: &[u8], at: usize) -> i32 {
    i32::from_le_bytes([bytes[at], bytes[at + 1], bytes[at + 2], bytes[at + 3]])
}

/// A ULEB128 number and its length.
fn read_uleb128(bytes: &[u8], at: usize) -> (u32, usize) {
    let mut value: u64 = 0;
    let mut i = 0;
    loop {
        let b = bytes[at + i];
        value |= u64::from(b & 0x7F) << (7 * i);
        i += 1;
        if b & 0x80 == 0 {
            return (u32::try_from(value).expect("fits in 32 bits"), i);
        }
    }
}

/// An SLEB128 number and its length.
fn read_sleb128(bytes: &[u8], at: usize) -> (i32, usize) {
    let mut value: i64 = 0;
    let mut i = 0;
    loop {
        let b = bytes[at + i];
        value |= i64::from(b & 0x7F) << (7 * i);
        i += 1;
        if b & 0x80 == 0 {
            if b & 0x40 != 0 {
                value |= -1i64 << (7 * i);
            }
            return (value as i32, i);
        }
    }
}

/// The text of MUTF-8 bytes.
fn decode_mutf8(bytes: &[u8]) -> String {
    let mut units: Vec<u16> = Vec::new();
    let mut i = 0;
    while i < bytes.len() {
        let b = u16::from(bytes[i]);
        if b < 0x80 {
            units.push(b);
            i += 1;
        } else if b < 0xE0 {
            units.push(((b & 0x1F) << 6) | (u16::from(bytes[i + 1]) & 0x3F));
            i += 2;
        } else {
            units.push(
                ((b & 0x0F) << 12)
                    | ((u16::from(bytes[i + 1]) & 0x3F) << 6)
                    | (u16::from(bytes[i + 2]) & 0x3F),
            );
            i += 3;
        }
    }
    String::from_utf16(&units).expect("well-formed")
}

/// An encoded value and where it ends.
fn parse_encoded_value(bytes: &[u8], at: usize) -> (EncodedValue, usize) {
    let tag = bytes[at] & 0x1F;
    let arg = usize::from(bytes[at] >> 5);
    let body = at + 1;
    let n = arg + 1;
    let unsigned = |n: usize| -> u64 {
        let mut v = 0u64;
        for k in 0..n {
            v |= u64::from(bytes[body + k]) << (8 * k);
        }
        v
    };
    let signed = |n: usize| -> i64 {
        let shift = 64 - 8 * n as u32;
        ((unsigned(n) << shift) as i64) >> shift
    };
    match tag {
        0x00 => (EncodedValue::Byte(signed(1) as i8), body + 1),
        0x02 => (EncodedValue::Short(signed(n) as i16), body + n),
        0x03 => (EncodedValue::Char(unsigned(n) as u16), body + n),
        0x04 => (EncodedValue::Int(signed(n) as i32), body + n),
        0x06 => (EncodedValue::Long(signed(n)), body + n),
        0x10 => (EncodedValue::Float((unsigned(n) as u32) << (8 * (4 - n))), body + n),
        0x11 => (EncodedValue::Double(unsigned(n) << (8 * (8 - n))), body + n),
        0x15 => (EncodedValue::MethodType(ProtoIdx(unsigned(n) as u32)), body + n),
        0x16 => (EncodedValue::MethodHandle(MethodHandleIdx(unsigned(n) as u32)), body + n),
        0x17 => (EncodedValue::String(StringIdx(unsigned(n) as u32)), body + n),
        0x18 => (EncodedValue::Type(TypeIdx(unsigned(n) as u32)), body + n),
        0x19 => (EncodedValue::Field(FieldIdx(unsigned(n) as u32)), body + n),
        0x1A => (EncodedValue::Method(MethodIdx(unsigned(n) as u32)), body + n),
        0x1B => (EncodedValue::Enum(FieldIdx(unsigned(n) as u32)), body + n),
        0x1C => {
            let (count, len) = read_uleb128(bytes, body);
            let mut pos = body + len;
            let mut items = Vec::new();
            for _ in 0..count {
                let (v, next) = parse_encoded_value(bytes, pos);
                items.push(v);
                pos = next;
            }
            (EncodedValue::Array(items), pos)
        }
        0x1D => {
            let (annotation, pos) = parse_encoded_annotation(bytes, body);
            (EncodedValue::Annotation(annotation), pos)
        }
        0x1E => (EncodedValue::Null, body),
        0x1F => (EncodedValue::Boolean(arg == 1), body),
        other => panic!("unknown value tag {other:#x}"),
    }
}

/// An annotation body and where it ends.
fn parse_encoded_annotation(bytes: &[u8], at: usize) -> (EncodedAnnotation, usize) {
    let (type_idx, len) = read_uleb128(bytes, at);
    let mut pos = at + len;
    let (count, len) = read_uleb128(bytes, pos);
    pos += len;
    let mut elements = BTreeMap::new();
    for _ in 0..count {
        let (name, len) = read_uleb128(bytes, pos);
        let (value, next) = parse_encoded_value(bytes, pos + len);
        elements.insert(name, value);
        pos = next;
    }
    (EncodedAnnotation { type_idx: TypeIdx(type_idx), elements }, pos)
}

/// The members of a class.
fn parse_class_data(bytes: &[u8], at: usize) -> ClassData {
    let mut pos = at;
    let mut next = || {
        let (v, len) = read_uleb128(bytes, pos);
        pos += len;
        v
    };
    let sizes = [next(), next(), next(), next()];
    let mut fields = [Vec::new(), Vec::new()];
    for k in 0..2 {
        let mut idx = 0;
        for _ in 0..sizes[k] {
            idx += next();
            fields[k].push(EncodedField { field_idx: FieldIdx(idx), access_flags: next() });
        }
    }
    let mut methods = [Vec::new(), Vec::new()];
    for k in 0..2 {
        let mut idx = 0;
        for _ in 0..sizes[k + 2] {
            idx += next();
            let access_flags = next();
            let code_off = next();
            methods[k].push(EncodedMethod { method_idx: MethodIdx(idx), access_flags, code_off });
        }
    }
    let [static_fields, instance_fields] = fields;
    let [direct_methods, virtual_methods] = methods;
    ClassData { static_fields, instance_fields, direct_methods, virtual_methods }
}

fn pool_index(op: Opcode, idx: u32) -> PoolIndex {
    match op {
        Opcode::ConstString | Opcode::ConstStringJumbo => PoolIndex::String(StringIdx(idx)),
        Opcode::ConstClass
        | Opcode::CheckCast
        | Opcode::InstanceOf
        | Opcode::NewInstance
        | Opcode::NewArray
        | Opcode::FilledNewArray
        | Opcode::FilledNewArrayRange => PoolIndex::Type(TypeIdx(idx)),
        Opcode::InvokeCustom | Opcode::InvokeCustomRange => PoolIndex::CallSite(CallSiteIdx(idx)),
        _ => {
            let name = op.mnemonic();
            if name.starts_with("iget")
                || name.starts_with("iput")
                || name.starts_with("sget")
                || name.starts_with("sput")
            {
                PoolIndex::Field(FieldIdx(idx))
            } else {
                PoolIndex::Method(MethodIdx(idx))
            }
        }
    }
}

/// One instruction from its code units.
fn decode_one(units: &[u16], pc: usize) -> Instruction {
    let u = |k: usize| units[pc + k];
    let op = Opcode::from_u8((u(0) & 0xFF) as u8).expect("an opcode");
    let fmt = insn_format(op);
    let mut i = Instruction {
        addr: pc as u32,
        op,
        size: format_size(fmt),
        dst: None,
        src: RegList::empty(),
        literal: 0,
        target: None,
        pool_idx: None,
    };
    let a4 = (u(0) >> 8) & 0xF;
    let b4 = u(0) >> 12;
    let aa = u(0) >> 8;
    let jump = |offset: i32| Some((pc as i64 + i64::from(offset)) as u32);
    match fmt {
        InsnFormat::F10x => {}
        InsnFormat::F12x => {
            i.dst = Some(a4);
            i.src = RegList::one(b4);
        }
        InsnFormat::F11n => {
            i.dst = Some(a4);
            i.literal = i64::from((u(0) as i16) >> 12);
        }
        InsnFormat::F11x => i.dst = Some(aa),
        InsnFormat::F10t => i.target = jump(i32::from((u(0) as i16) >> 8)),
        InsnFormat::F20t => i.target = jump(i32::from(u(1) as i16)),
        InsnFormat::F22x => {
            i.dst = Some(aa);
            i.src = RegList::one(u(1));
        }
        InsnFormat::F21t => {
            i.dst = Some(aa);
            i.target = jump(i32::from(u(1) as i16));
        }
        InsnFormat::F21s => {
            i.dst = Some(aa);
            i.literal = i64::from(u(1) as i16);
        }
        InsnFormat::F21h => {
            i.dst = Some(aa);
            i.literal = if op == Opcode::ConstWideHigh16 {
                i64::from(u(1) as i16) << 48
            } else {
                i64::from(i32::from(u(1) as i16) << 16)
            };
        }
        InsnFormat::F21c => {
            i.dst = Some(aa);
            i.pool_idx = Some(pool_index(op, u32::from(u(1))));
        }
        InsnFormat::F23x => {
            i.dst = Some(aa);
            i.src = RegList::two(u(1) & 0xFF, u(1) >> 8);
        }
        InsnFormat::F22b => {
            i.dst = Some(aa);
            i.src = RegList::one(u(1) & 0xFF);
            i.literal = i64::from((u(1) as i16) >> 8);
        }
        InsnFormat::F22t => {
            i.src = RegList::two(a4, b4);
            i.target = jump(i32::from(u(1) as i16));
        }
        InsnFormat::F22s => {
            i.dst = Some(a4);
            i.src = RegList::one(b4);
            i.literal = i64::from(u(1) as i16);
        }
        InsnFormat::F22c => {
            i.dst = Some(a4);
            i.src = RegList::one(b4);
            i.pool_idx = Some(pool_index(op, u32::from(u(1))));
        }
        InsnFormat::F30t => i.target = jump((u32::from(u(1)) | (u32::from(u(2)) << 16)) as i32),
        InsnFormat::F32x => {
            i.dst = Some(u(1));
            i.src = RegList::one(u(2));
        }
        InsnFormat::F31i => {
            i.dst = Some(aa);
            i.literal = i64::from((u32::from(u(1)) | (u32::from(u(2)) << 16)) as i32);
        }
        InsnFormat::F31t => {
            i.dst = Some(aa);
            i.target = jump((u32::from(u(1)) | (u32::from(u(2)) << 16)) as i32);
        }
        InsnFormat::F31c => {
            i.dst = Some(aa);
            i.pool_idx = Some(pool_index(op, u32::from(u(1)) | (u32::from(u(2)) << 16)));
        }
        InsnFormat::F35c | InsnFormat::F45cc => {
            let regs = [u(2) & 0xF, (u(2) >> 4) & 0xF, (u(2) >> 8) & 0xF, u(2) >> 12, a4];
            i.src = RegList::from_slice(&regs[..usize::from(b4)]);
            i.pool_idx = Some(if fmt == InsnFormat::F45cc {
                PoolIndex::MethodAndProto(
                    MethodIdx(u32::from(u(1))),
                    ProtoIdx(u32::from(u(3))),
                )
            } else {
                pool_index(op, u32::from(u(1)))
            });
        }
        InsnFormat::F3rc | InsnFormat::F4rcc => {
            let regs: Vec<u16> = (0..aa).map(|k| u(2).wrapping_add(k)).collect();
            i.src = RegList::from_slice(&regs);
            i.literal = i64::from(aa);
            i.pool_idx = Some(if fmt == InsnFormat::F4rcc {
                PoolIndex::MethodAndProto(
                    MethodIdx(u32::from(u(1))),
                    ProtoIdx(u32::from(u(3))),
                )
            } else {
                pool_index(op, u32::from(u(1)))
            });
        }
        InsnFormat::F51l => {
            i.dst = Some(aa);
            let mut v = 0u64;
            for k in 0..4 {
                v |= u64::from(u(1 + k)) << (16 * k);
            }
            i.literal = v as i64;
        }
    }
    i
}

/// The instructions and payloads of a stream of `size` code units.
fn decode_insns(
    bytes: &[u8],
    at: usize,
    size: u32,
) -> (Vec<Instruction>, BTreeMap<u32, PayloadData>) {
    let units: Vec<u16> = (0..size as usize).map(|k| read_u16(bytes, at + 2 * k)).collect();
    let mut instructions: Vec<Instruction> = Vec::new();
    let mut payloads = BTreeMap::new();
    let mut pc = 0;
    while pc < units.len() {
        let word = |k: usize| {
            (u32::from(units[pc + k]) | (u32::from(units[pc + k + 1]) << 16)) as i32
        };
        let switch_pc = instructions
            .iter()
            .find(|i| i.target == Some(pc as u32) && insn_format(i.op) == InsnFormat::F31t)
            .map(|i| i.addr);
        let absolute = |rel: i32| (i64::from(switch_pc.unwrap_or(0)) + i64::from(rel)) as u32;
        match units[pc] {
            0x0100 if switch_pc.is_some() => {
                let n = usize::from(units[pc + 1]);
                let targets = (0..n).map(|k| absolute(word(4 + 2 * k))).collect();
                payloads
                    .insert(pc as u32, PayloadData::PackedSwitch { first_key: word(2), targets });
                pc += 4 + 2 * n;
            }
            0x0200 if switch_pc.is_some() => {
                let n = usize::from(units[pc + 1]);
                let keys = (0..n).map(|k| word(2 + 2 * k)).collect();
                let targets = (0..n).map(|k| absolute(word(2 + 2 * n + 2 * k))).collect();
                payloads.insert(pc as u32, PayloadData::SparseSwitch { keys, targets });
                pc += 2 + 4 * n;
            }
            0x0300 if switch_pc.is_some() => {
                let element_width = units[pc + 1];
                let len = usize::from(element_width) * word(2) as usize;
                let from = at + 2 * pc + 8;
                let data = bytes[from..from + len].to_vec();
                payloads.insert(pc as u32, PayloadData::FillArrayData { element_width, data });
                pc += 4 + (len + 1) / 2;
            }
            _ => {
                let i = decode_one(&units, pc);
                pc += usize::from(i.size);
                instructions.push(i);
            }
        }
    }
    (instructions, payloads)
}

/// A method body.
fn parse_code_item(bytes: &[u8], at: usize) -> CodeItem {
    let registers_size = read_u16(bytes, at);
    let ins_size = read_u16(bytes, at + 2);
    let outs_size = read_u16(bytes, at + 4);
    let tries_size = usize::from(read_u16(bytes, at + 6));
    let debug_info_off = read_u32(bytes, at + 8);
    let insns_size = read_u32(bytes, at + 12);
    let (instructions, payloads) = decode_insns(bytes, at + 16, insns_size);
    let mut pos = at + 16 + 2 * insns_size as usize;
    let mut tries = Vec::new();
    let mut catch_handlers = Vec::new();
    if tries_size > 0 {
        if insns_size % 2 == 1 {
            pos += 2;
        }
        let list = pos + 8 * tries_size;
        let (count, len) = read_uleb128(bytes, list);
        let mut at_handler = list + len;
        let mut starts = Vec::new();
        for _ in 0..count {
            starts.push(at_handler - list);
            let (size, len) = read_sleb128(bytes, at_handler);
            at_handler += len;
            let mut catches = Vec::new();
            for _ in 0..size.unsigned_abs() {
                let (ty, len) = read_uleb128(bytes, at_handler);
                at_handler += len;
                let (addr, len) = read_uleb128(bytes, at_handler);
                at_handler += len;
                catches.push(TypedCatch { exception_type: TypeIdx(ty), handler_addr: addr });
            }
            let catch_all_addr = if size <= 0 {
                let (addr, len) = read_uleb128(bytes, at_handler);
                at_handler += len;
                Some(addr)
            } else {
                None
            };
            catch_handlers.push(CatchHandler { catches, catch_all_addr });
        }
        for k in 0..tries_size {
            let t = pos + 8 * k;
            let off = usize::from(read_u16(bytes, t + 6));
            tries.push(TryItem {
                start_addr: read_u32(bytes, t),
                insn_count: read_u16(bytes, t + 4),
                handler_idx: starts.iter().position(|s| *s == off).expect("a handler there"),
            });
        }
    }
    CodeItem {
        registers_size,
        ins_size,
        outs_size,
        debug_info_off,
        instructions,
        tries,
        catch_handlers,
        payloads,
        invariant_violations: Vec::new(),
    }
}

/// The fixed header.
fn parse_header(bytes: &[u8]) -> DexHeader {
    assert!(bytes.len() >= 112, "a whole header");
    let mut magic = [0u8; 8];
    magic.copy_from_slice(&bytes[..8]);
    assert_eq!(&magic[..4], b"dex\n");
    let mut signature = [0u8; 20];
    signature.copy_from_slice(&bytes[12..32]);
    let w = |at: usize| read_u32(bytes, at);
    DexHeader {
        magic,
        checksum: w(8),
        signature,
        file_size: w(32),
        header_size: w(36),
        endian_tag: w(40),
        link_size: w(44),
        link_off: w(48),
        map_off: w(52),
        string_ids_size: w(56),
        string_ids_off: w(60),
        type_ids_size: w(64),
        type_ids_off: w(68),
        proto_ids_size: w(72),
        proto_ids_off: w(76),
        field_ids_size: w(80),
        field_ids_off: w(84),
        method_ids_size: w(88),
        method_ids_off: w(92),
        class_defs_size: w(96),
        class_defs_off: w(100),
        data_size: w(104),
        data_off: w(108),
    }
}

fn version(header: &DexHeader) -> String {
    String::from_utf8(header.magic[4..7].to_vec()).expect("digits")
}

/// Whether the checksum covers everything after it.
fn checksum_holds(header: &DexHeader, bytes: &[u8]) -> bool {
    header.checksum == adler2::adler32_slice(&bytes[12..])
}

fn optional(idx: u32) -> Option<u32> {
    if idx == 0xFFFF_FFFF {
        None
    } else {
        Some(idx)
    }
}

fn parse_type_list(bytes: &[u8], at: usize) -> Vec<TypeIdx> {
    let n = read_u32(bytes, at) as usize;
    (0..n).map(|k| TypeIdx(u32::from(read_u16(bytes, at + 4 + 2 * k)))).collect()
}

/// A whole file, as far as the tests look at it.
fn parse_dex(bytes: &[u8]) -> DexFile {
    let mut dex = minimal_dexfile();
    let h = parse_header(bytes);
    dex.header = h;
    assert_eq!(h.file_size as usize, bytes.len(), "file_size");
    assert!(checksum_holds(&h, bytes), "checksum");
    for k in 0..h.string_ids_size as usize {
        let at = read_u32(bytes, h.string_ids_off as usize + 4 * k);
        dex.string_data_offs.push(at);
        let (declared_chars, len) = read_uleb128(bytes, at as usize);
        let from = at as usize + len;
        let to = from + bytes[from..].iter().position(|b| *b == 0).expect("a terminator");
        let raw_bytes = bytes[from..to].to_vec();
        dex.strings.push(DexString::Decoded {
            s: decode_mutf8(&raw_bytes),
            raw_bytes,
            declared_chars,
        });
    }
    for k in 0..h.type_ids_size as usize {
        let idx = read_u32(bytes, h.type_ids_off as usize + 4 * k) as usize;
        dex.type_descriptors.push(dex.strings[idx].as_str_lossy().to_string());
    }
    for k in 0..h.proto_ids_size as usize {
        let at = h.proto_ids_off as usize + 12 * k;
        let parameters_off = read_u32(bytes, at + 8);
        dex.protos.push(ProtoIdItem {
            shorty_idx: StringIdx(read_u32(bytes, at)),
            return_type_idx: TypeIdx(read_u32(bytes, at + 4)),
            parameters_off,
        });
        if parameters_off != 0 {
            dex.type_lists.insert(parameters_off, parse_type_list(bytes, parameters_off as usize));
        }
    }
    for k in 0..h.field_ids_size as usize {
        let at = h.field_ids_off as usize + 8 * k;
        dex.fields.push(FieldIdItem {
            class_idx: TypeIdx(u32::from(read_u16(bytes, at))),
            type_idx: TypeIdx(u32::from(read_u16(bytes, at + 2))),
            name_idx: StringIdx(read_u32(bytes, at + 4)),
        });
    }
    for k in 0..h.method_ids_size as usize {
        let at = h.method_ids_off as usize + 8 * k;
        dex.methods.push(MethodIdItem {
            class_idx: TypeIdx(u32::from(read_u16(bytes, at))),
            proto_idx: ProtoIdx(u32::from(read_u16(bytes, at + 2))),
            name_idx: StringIdx(read_u32(bytes, at + 4)),
        });
    }
    for k in 0..h.class_defs_size as usize {
        let at = h.class_defs_off as usize + 32 * k;
        let w = |field: usize| read_u32(bytes, at + 4 * field);
        let c = ClassDefItem {
            class_idx: TypeIdx(w(0)),
            access_flags: w(1),
            superclass_idx: optional(w(2)).map(TypeIdx),
            interfaces_off: w(3),
            source_file_idx: optional(w(4)).map(StringIdx),
            annotations_off: w(5),
            class_data_off: w(6),
            static_values_off: w(7),
        };
        if c.interfaces_off != 0 {
            dex.type_lists
                .insert(c.interfaces_off, parse_type_list(bytes, c.interfaces_off as usize));
        }
        if c.class_data_off != 0 {
            let data = parse_class_data(bytes, c.class_data_off as usize);
            for m in data.direct_methods.iter().chain(&data.virtual_methods) {
                if m.code_off != 0 {
                    dex.code_items.insert(m.code_off, parse_code_item(bytes, m.code_off as usize));
                }
            }
            dex.class_datas.insert(c.class_data_off, data);
        }
        dex.class_defs.push(c);
    }
    let n = read_u32(bytes, h.map_off as usize) as usize;
    for k in 0..n {
        let at = h.map_off as usize + 4 + 12 * k;
        dex.map_entries.push(MapEntry {
            type_code: read_u16(bytes, at),
            size: read_u32(bytes, at + 4),
            offset: read_u32(bytes, at + 8),
        });
    }
    dex
}

#[test]
fn from_sorted_empty() {
    let nd: NonDecreasing<u32> = NonDecreasing::from_sorted(vec![]);
    assert_eq!(nd.len(), 0);
}

#[test]
fn from_sorted_already_sorted() {
    let nd = NonDecreasing::from_sorted(vec![1_u32, 2, 3, 5]);
    assert_eq!(&*nd, &[1, 2, 3, 5]);
}

#[test]
fn from_sorted_reverses_unsorted() {
    let nd = NonDecreasing::from_sorted(vec![5_u32, 1, 3, 2]);
    assert_eq!(&*nd, &[1, 2, 3, 5]);
}

#[test]
fn from_sorted_preserves_duplicates() {
    let nd = NonDecreasing::from_sorted(vec![2_u32, 1, 2, 1]);
    assert_eq!(&*nd, &[1, 1, 2, 2]);
}

#[test]
fn from_verified_accepts_canonical() {
    let nd = NonDecreasing::from_verified(vec![1_u32, 2, 3]).expect("canonical");
    assert_eq!(&*nd, &[1, 2, 3]);
}

#[test]
fn from_verified_rejects_descending() {
    let err = NonDecreasing::from_verified(vec![3_u32, 2, 1]).unwrap_err();
    assert_eq!(err.index, 1, "first violation at index 1 (3 > 2)");
}

#[test]
fn from_verified_reports_first_violation() {
    let err = NonDecreasing::from_verified(vec![1_u32, 2, 3, 0, 5]).unwrap_err();
    assert_eq!(err.index, 3, "3 > 0 violates at index 3");
}

#[test]
fn deref_to_slice_works() {
    let nd = NonDecreasing::from_sorted(vec![1_u32, 2, 3]);
    let s: &[u32] = &nd;
    assert_eq!(s, &[1, 2, 3]);
    assert!(!nd.is_empty());
    assert_eq!(nd.first(), Some(&1));
    assert_eq!(nd.last(), Some(&3));
}

#[test]
fn iter_borrows_in_order() {
    let nd = NonDecreasing::from_sorted(vec![3_u32, 1, 2]);
    let collected: Vec<u32> = nd.iter().copied().collect();
    assert_eq!(collected, vec![1, 2, 3]);
}

#[test]
fn uleb128_single_byte_boundaries() {
    let mut out = Vec::new();
    write_uleb128(&mut out, 0);
    assert_eq!(out, vec![0x00]);
    out.clear();
    write_uleb128(&mut out, 0x7F);
    assert_eq!(out, vec![0x7F], "last single-byte value");
}

#[test]
fn uleb128_two_byte_boundary() {
    let mut out = Vec::new();
    write_uleb128(&mut out, 0x80);
    assert_eq!(out, vec![0x80, 0x01], "first two-byte value");
    out.clear();
    write_uleb128(&mut out, 0x3FFF);
    assert_eq!(out, vec![0xFF, 0x7F], "last two-byte value");
}

#[test]
fn uleb128_five_byte_max() {
    let mut out = Vec::new();
    write_uleb128(&mut out, u32::MAX);
    assert_eq!(out, vec![0xFF, 0xFF, 0xFF, 0xFF, 0x0F]);
}

#[test]
fn uleb128_roundtrip_via_common_decoder() {
    for v in [0_u32, 1, 0x7F, 0x80, 0x3FFF, 0x4000, 0x1FFFFF, 0x200000, 0xFFFFFFF, u32::MAX] {
        let mut buf = Vec::new();
        write_uleb128(&mut buf, v);
        let (decoded, _len) =
            read_uleb128(&buf, 0);
        assert_eq!(decoded, v, "roundtrip for {v:#x}");
    }
}

#[test]
fn mutf8_ascii_identity() {
    let mut out = Vec::new();
    encode_mutf8_into(&mut out, "hello");
    assert_eq!(out, b"hello");
}

#[test]
fn mutf8_null_is_two_bytes() {
    let mut out = Vec::new();
    encode_mutf8_into(&mut out, "\0");
    assert_eq!(out, vec![0xC0, 0x80], "NUL is encoded as C0 80, not 00");
}

#[test]
fn mutf8_two_byte_char() {
    let mut out = Vec::new();
    encode_mutf8_into(&mut out, "é");
    assert_eq!(out, vec![0xC3, 0xA9]);
}

#[test]
fn mutf8_three_byte_char() {
    let mut out = Vec::new();
    encode_mutf8_into(&mut out, "中");
    assert_eq!(out, vec![0xE4, 0xB8, 0xAD]);
}

#[test]
fn mutf8_supplementary_is_surrogate_pair() {
    let mut out = Vec::new();
    encode_mutf8_into(&mut out, "😀");
    assert_eq!(out.len(), 6, "2x 3-byte surrogates, NOT 4-byte UTF-8");
    assert_eq!(out[..3], [0xED, 0xA0, 0xBD]);
    assert_eq!(out[3..], [0xED, 0xB8, 0x80]);
}

#[test]
fn mutf8_roundtrip_through_common_decoder() {
    for s in &["", "a", "hello world", "é", "中", "😀", "mixed: a\0b中"] {
        let mut buf = Vec::new();
        encode_mutf8_into(&mut buf, s);
        let decoded =
            decode_mutf8(&buf);
        assert_eq!(
            decoded, *s,
            "encode → decode round trip on {s:?} ({} bytes)",
            buf.len()
        );
    }
}

#[test]
fn utf16_unit_count_matches_java_semantics() {
    assert_eq!(utf16_unit_count(""), 0);
    assert_eq!(utf16_unit_count("abc"), 3);
    assert_eq!(utf16_unit_count("é"), 1, "BMP char = 1 utf16 unit");
    assert_eq!(utf16_unit_count("中"), 1, "BMP char = 1 utf16 unit");
    assert_eq!(
        utf16_unit_count("😀"),
        2,
        "supplementary char = 2 utf16 units (surrogate pair)"
    );
    assert_eq!(utf16_unit_count("a😀b"), 4, "1 + 2 + 1");
}

fn to_raw_bytes(strings: &[&str]) -> Vec<Vec<u8>> {
    strings
        .iter()
        .map(|s| {
            let mut b = Vec::new();
            encode_mutf8_into(&mut b, s);
            b
        })
        .collect()
}

fn as_pairs<'a>(raw: &'a [Vec<u8>], declared: &[u32]) -> Vec<(u32, &'a [u8])> {
    declared.iter().copied().zip(raw.iter().map(Vec::as_slice)).collect()
}

#[test]
fn emit_string_pool_empty() {
    let (ids, data) = emit_string_pool(&[]);
    assert!(ids.is_empty());
    assert!(data.is_empty());
}

#[test]
fn emit_string_pool_single_ascii() {
    let raw = to_raw_bytes(&["hi"]);
    let (ids, data) = emit_string_pool(&as_pairs(&raw, &[2]));
    assert_eq!(ids, vec![0x00, 0x00, 0x00, 0x00]);
    assert_eq!(data, vec![0x02, 0x68, 0x69, 0x00]);
}

#[test]
fn emit_string_pool_three_ascii_canonical_order() {
    let raw = to_raw_bytes(&["apple", "bat", "cat"]);
    let (ids, data) = emit_string_pool(&as_pairs(&raw, &[5, 3, 3]));

    assert_eq!(ids.len(), 12);

    assert_eq!(&ids[0..4], &[0x00, 0x00, 0x00, 0x00]);
    assert_eq!(&ids[4..8], &[0x07, 0x00, 0x00, 0x00]);
    assert_eq!(&ids[8..12], &[0x0C, 0x00, 0x00, 0x00]);

    assert_eq!(
        data,
        vec![
            0x05, 0x61, 0x70, 0x70, 0x6C, 0x65, 0x00,
            0x03, 0x62, 0x61, 0x74, 0x00,
            0x03, 0x63, 0x61, 0x74, 0x00,
        ]
    );
}

#[test]
fn emit_string_pool_with_null_byte_uses_mutf8_c080() {
    let raw = to_raw_bytes(&["a\0b"]);
    let (_ids, data) = emit_string_pool(&as_pairs(&raw, &[3]));
    assert_eq!(data, vec![0x03, 0x61, 0xC0, 0x80, 0x62, 0x00]);
}

#[test]
fn emit_string_pool_preserves_declared_count_over_recomputed() {
    let raw = b"ex\n041";
    let (_ids, data) = emit_string_pool(&[(100, raw.as_slice())]);
    assert_eq!(data, vec![0x64, b'e', b'x', b'\n', b'0', b'4', b'1', 0x00]);
}

#[test]
fn emit_string_pool_preserve_layout_preserves_declared_count() {
    let raw = b"ex\n041";
    let (ids, data) = emit_string_pool_preserve_layout(
        &[(100, raw.as_slice())],
        &[0],
        0,
        16,
    )
    .expect("emit");
    assert_eq!(&ids[0..4], &[0, 0, 0, 0]);
    assert_eq!(&data[0..8], &[0x64, b'e', b'x', b'\n', b'0', b'4', b'1', 0x00]);
}

#[test]
fn emit_type_pool_empty() {
    let nd: NonDecreasing<StringIdx> = NonDecreasing::from_sorted(vec![]);
    assert!(emit_type_pool(&nd).is_empty());
}

#[test]
fn emit_type_pool_single_entry() {
    let nd = NonDecreasing::from_sorted(vec![StringIdx(0x42)]);
    assert_eq!(emit_type_pool(&nd), vec![0x42, 0x00, 0x00, 0x00]);
}

#[test]
fn emit_type_pool_sorted_output() {
    let nd = NonDecreasing::from_sorted(vec![StringIdx(5), StringIdx(1), StringIdx(3)]);
    let out = emit_type_pool(&nd);
    assert_eq!(
        out,
        vec![
            0x01, 0x00, 0x00, 0x00,
            0x03, 0x00, 0x00, 0x00,
            0x05, 0x00, 0x00, 0x00,
        ],
        "output in canonical ascending order"
    );
}

#[test]
fn emit_type_pool_stride_is_four() {
    let nd = NonDecreasing::from_sorted(vec![
        StringIdx(0),
        StringIdx(0x1234),
        StringIdx(0xFFFF_FFFE),
        StringIdx(0xFFFF_FFFF),
    ]);
    let out = emit_type_pool(&nd);
    assert_eq!(out.len(), 16, "4 entries × 4 bytes");
    assert_eq!(&out[12..16], &[0xFF, 0xFF, 0xFF, 0xFF]);
}

#[test]
fn emit_type_list_empty() {
    let out = emit_type_list(&[]).expect("empty list is well-formed");
    assert_eq!(out, vec![0x00, 0x00, 0x00, 0x00]);
}

#[test]
fn emit_type_list_single_entry() {
    let out = emit_type_list(&[TypeIdx(0x0042)]).expect("well-formed");
    assert_eq!(
        out,
        vec![
            0x01, 0x00, 0x00, 0x00,
            0x42, 0x00,
        ]
    );
}

#[test]
fn emit_type_list_three_entries_layout() {
    let out = emit_type_list(&[TypeIdx(0x0001), TypeIdx(0x00FF), TypeIdx(0xABCD)])
        .expect("well-formed");
    assert_eq!(
        out,
        vec![
            0x03, 0x00, 0x00, 0x00,
            0x01, 0x00,
            0xFF, 0x00,
            0xCD, 0xAB,
        ]
    );
    assert_eq!(out.len(), 4 + 3 * 2, "header + size×2 bytes");
}

#[test]
fn emit_type_list_u16_boundary_ok() {
    let out = emit_type_list(&[TypeIdx(u32::from(u16::MAX))]).expect("u16::MAX is representable");
    assert_eq!(&out[4..6], &[0xFF, 0xFF], "u16::MAX encoded");
}

#[test]
fn emit_type_list_u16_overflow_returns_err() {
    let err = emit_type_list(&[TypeIdx(u32::from(u16::MAX) + 1)]).unwrap_err();
    match err {
        DexEmitError::UnrepresentableIR { why } => {
            assert!(why.contains("type_list"), "why should name the section: {why}");
            assert!(why.contains("u16"), "why should name the narrowing: {why}");
        }
        other => panic!("expected UnrepresentableIR, got {other:?}"),
    }
}

#[test]
fn emit_proto_pool_empty() {
    assert!(emit_proto_pool(&[]).is_empty());
}

#[test]
fn emit_proto_pool_single_entry_stride() {
    let proto = ProtoIdItem {
        shorty_idx: StringIdx(0x11),
        return_type_idx: TypeIdx(0x22),
        parameters_off: 0x4000,
    };
    let out = emit_proto_pool(&[proto]);
    assert_eq!(out.len(), 12, "one proto_id_item = 12 bytes");
    assert_eq!(
        out,
        vec![
            0x11, 0x00, 0x00, 0x00,
            0x22, 0x00, 0x00, 0x00,
            0x00, 0x40, 0x00, 0x00,
        ]
    );
}

#[test]
fn emit_proto_pool_multiple_entries_stride() {
    let protos = vec![
        ProtoIdItem {
            shorty_idx: StringIdx(0),
            return_type_idx: TypeIdx(0),
            parameters_off: 0,
        },
        ProtoIdItem {
            shorty_idx: StringIdx(1),
            return_type_idx: TypeIdx(1),
            parameters_off: 0x100,
        },
        ProtoIdItem {
            shorty_idx: StringIdx(2),
            return_type_idx: TypeIdx(3),
            parameters_off: 0x200,
        },
    ];
    let out = emit_proto_pool(&protos);
    assert_eq!(out.len(), 3 * 12, "3 entries × 12 bytes stride");
    assert_eq!(&out[12..16], &[0x01, 0x00, 0x00, 0x00]);
    assert_eq!(&out[16..20], &[0x01, 0x00, 0x00, 0x00]);
    assert_eq!(&out[20..24], &[0x00, 0x01, 0x00, 0x00]);
}

#[test]
fn emit_field_pool_empty() {
    assert_eq!(emit_field_pool(&[]).expect("empty"), Vec::<u8>::new());
}

#[test]
fn emit_field_pool_single_entry_layout() {
    let f = FieldIdItem {
        class_idx: TypeIdx(0x00AB),
        type_idx: TypeIdx(0x00CD),
        name_idx: StringIdx(0xDEADBEEF),
    };
    let out = emit_field_pool(&[f]).expect("well-formed");
    assert_eq!(out.len(), 8, "one field_id_item = 8 bytes");
    assert_eq!(
        out,
        vec![
            0xAB, 0x00,
            0xCD, 0x00,
            0xEF, 0xBE, 0xAD, 0xDE,
        ]
    );
}

#[test]
fn emit_field_pool_multi_entry_stride() {
    let fs = (0u32..4)
        .map(|i| FieldIdItem {
            class_idx: TypeIdx(i),
            type_idx: TypeIdx(i + 1),
            name_idx: StringIdx(i + 100),
        })
        .collect::<Vec<_>>();
    let out = emit_field_pool(&fs).expect("well-formed");
    assert_eq!(out.len(), 4 * 8, "4 entries × 8 bytes");
}

#[test]
fn emit_field_pool_class_idx_overflow() {
    let f = FieldIdItem {
        class_idx: TypeIdx(u32::from(u16::MAX) + 1),
        type_idx: TypeIdx(0),
        name_idx: StringIdx(0),
    };
    let err = emit_field_pool(&[f]).unwrap_err();
    assert!(
        matches!(err, DexEmitError::UnrepresentableIR { why } if why.contains("class_idx")),
        "class_idx overflow should surface as UnrepresentableIR with 'class_idx' in context"
    );
}

#[test]
fn emit_field_pool_type_idx_overflow() {
    let f = FieldIdItem {
        class_idx: TypeIdx(0),
        type_idx: TypeIdx(u32::from(u16::MAX) + 1),
        name_idx: StringIdx(0),
    };
    let err = emit_field_pool(&[f]).unwrap_err();
    assert!(
        matches!(err, DexEmitError::UnrepresentableIR { why } if why.contains("type_idx")),
        "type_idx overflow should surface as UnrepresentableIR with 'type_idx' in context"
    );
}

#[test]
fn emit_method_pool_empty() {
    assert_eq!(emit_method_pool(&[]).expect("empty"), Vec::<u8>::new());
}

#[test]
fn emit_method_pool_single_entry_layout() {
    let m = MethodIdItem {
        class_idx: TypeIdx(0x1234),
        proto_idx: ProtoIdx(0x5678),
        name_idx: StringIdx(0xCAFEBABE),
    };
    let out = emit_method_pool(&[m]).expect("well-formed");
    assert_eq!(out.len(), 8);
    assert_eq!(
        out,
        vec![
            0x34, 0x12,
            0x78, 0x56,
            0xBE, 0xBA, 0xFE, 0xCA,
        ]
    );
}

#[test]
fn emit_method_pool_class_idx_overflow() {
    let m = MethodIdItem {
        class_idx: TypeIdx(u32::from(u16::MAX) + 1),
        proto_idx: ProtoIdx(0),
        name_idx: StringIdx(0),
    };
    let err = emit_method_pool(&[m]).unwrap_err();
    assert!(
        matches!(err, DexEmitError::UnrepresentableIR { why } if why.contains("class_idx")),
        "class_idx overflow should name class_idx"
    );
}

#[test]
fn emit_method_pool_proto_idx_overflow() {
    let m = MethodIdItem {
        class_idx: TypeIdx(0),
        proto_idx: ProtoIdx(u32::from(u16::MAX) + 1),
        name_idx: StringIdx(0),
    };
    let err = emit_method_pool(&[m]).unwrap_err();
    assert!(
        matches!(err, DexEmitError::UnrepresentableIR { why } if why.contains("proto_idx")),
        "proto_idx overflow should name proto_idx"
    );
}

#[test]
fn emit_class_def_pool_empty() {
    assert!(emit_class_def_pool(&[]).expect("empty").is_empty());
}

#[test]
fn emit_class_def_pool_full_fields_layout() {
    let c = ClassDefItem {
        class_idx: TypeIdx(0x0000_0011),
        access_flags: 0x0000_0001,
        superclass_idx: Some(TypeIdx(0x0000_0022)),
        interfaces_off: 0x0000_0100,
        source_file_idx: Some(StringIdx(0x0000_0033)),
        annotations_off: 0x0000_0200,
        class_data_off: 0x0000_0300,
        static_values_off: 0x0000_0400,
    };
    let out = emit_class_def_pool(&[c]).expect("well-formed");
    assert_eq!(out.len(), 32, "one class_def_item = 32 bytes");
    assert_eq!(
        out,
        vec![
            0x11, 0x00, 0x00, 0x00,
            0x01, 0x00, 0x00, 0x00,
            0x22, 0x00, 0x00, 0x00,
            0x00, 0x01, 0x00, 0x00,
            0x33, 0x00, 0x00, 0x00,
            0x00, 0x02, 0x00, 0x00,
            0x00, 0x03, 0x00, 0x00,
            0x00, 0x04, 0x00, 0x00,
        ]
    );
}

#[test]
fn emit_class_def_pool_optional_fields_become_no_index() {
    let c = ClassDefItem {
        class_idx: TypeIdx(0),
        access_flags: 0,
        superclass_idx: None,
        interfaces_off: 0,
        source_file_idx: None,
        annotations_off: 0,
        class_data_off: 0,
        static_values_off: 0,
    };
    let out = emit_class_def_pool(&[c]).expect("well-formed");
    assert_eq!(&out[8..12], &[0xFF, 0xFF, 0xFF, 0xFF], "None → NO_INDEX");
    assert_eq!(&out[16..20], &[0xFF, 0xFF, 0xFF, 0xFF], "None → NO_INDEX");
}

#[test]
fn emit_class_def_pool_class_idx_no_index_is_rejected() {
    let c = ClassDefItem {
        class_idx: TypeIdx(NO_INDEX),
        access_flags: 0,
        superclass_idx: None,
        interfaces_off: 0,
        source_file_idx: None,
        annotations_off: 0,
        class_data_off: 0,
        static_values_off: 0,
    };
    let err = emit_class_def_pool(&[c]).unwrap_err();
    assert!(
        matches!(err, DexEmitError::UnrepresentableIR { why } if why.contains("NO_INDEX")),
        "class_idx = NO_INDEX must be rejected as unrepresentable"
    );
}

#[test]
fn emit_class_def_pool_superclass_idx_some_no_index_is_rejected() {
    let c = ClassDefItem {
        class_idx: TypeIdx(0),
        access_flags: 0,
        superclass_idx: Some(TypeIdx(NO_INDEX)),
        interfaces_off: 0,
        source_file_idx: None,
        annotations_off: 0,
        class_data_off: 0,
        static_values_off: 0,
    };
    let err = emit_class_def_pool(&[c]).unwrap_err();
    assert!(
        matches!(err, DexEmitError::UnrepresentableIR { why } if why.contains("superclass_idx")),
        "Some(TypeIdx(NO_INDEX)) sentinel collision must be rejected"
    );
}

#[test]
fn emit_class_def_pool_source_file_idx_some_no_index_is_rejected() {
    let c = ClassDefItem {
        class_idx: TypeIdx(0),
        access_flags: 0,
        superclass_idx: None,
        interfaces_off: 0,
        source_file_idx: Some(StringIdx(NO_INDEX)),
        annotations_off: 0,
        class_data_off: 0,
        static_values_off: 0,
    };
    let err = emit_class_def_pool(&[c]).unwrap_err();
    assert!(
        matches!(err, DexEmitError::UnrepresentableIR { why } if why.contains("source_file_idx")),
        "Some(StringIdx(NO_INDEX)) sentinel collision must be rejected"
    );
}

#[test]
fn iterative_walkers_handle_deeply_nested_array() {
    const DEPTH: usize = 10_000;
    let mut buf = Vec::new();
    for _ in 0..DEPTH {
        buf.push(0x1c);
        buf.push(0x01);
    }
    buf.push(0x00);
    buf.push(0x00);

    let mut val = EncodedValue::Byte(0);
    for _ in 0..DEPTH {
        val = EncodedValue::Array(vec![val]);
    }
    let mut emitted = Vec::new();
    emit_encoded_value(&mut emitted, &val)
        .expect("10 000-level nested Array must emit with iterative walker");
    assert_eq!(emitted, buf, "emitted bytes must match hand-built bytes");

    let mut cur = val;
    for i in 0..DEPTH {
        match cur {
            EncodedValue::Array(mut children) => {
                assert_eq!(children.len(), 1, "level {i}: expected single child");
                cur = children.pop().expect("checked len=1");
            }
            _ => panic!("level {i}: expected Array"),
        }
    }
    assert!(matches!(cur, EncodedValue::Byte(0)), "innermost must be Byte(0)");
}

#[test]
fn emit_class_def_pool_stride_multi_entry() {
    let classes: Vec<_> = (0u32..3)
        .map(|i| ClassDefItem {
            class_idx: TypeIdx(i),
            access_flags: 0,
            superclass_idx: None,
            interfaces_off: 0,
            source_file_idx: None,
            annotations_off: 0,
            class_data_off: 0,
            static_values_off: 0,
        })
        .collect();
    let out = emit_class_def_pool(&classes).expect("well-formed");
    assert_eq!(out.len(), 3 * 32, "3 entries × 32-byte stride");
}

#[test]
fn min_signed_bytes_boundaries() {
    assert_eq!(min_signed_bytes(0), 1);
    assert_eq!(min_signed_bytes(-1), 1);
    assert_eq!(min_signed_bytes(127), 1);
    assert_eq!(min_signed_bytes(-128), 1);
    assert_eq!(min_signed_bytes(128), 2, "128 doesn't fit in i8");
    assert_eq!(min_signed_bytes(-129), 2);
    assert_eq!(min_signed_bytes(32_767), 2, "i16::MAX");
    assert_eq!(min_signed_bytes(-32_768), 2, "i16::MIN");
    assert_eq!(min_signed_bytes(32_768), 3);
    assert_eq!(min_signed_bytes(2_147_483_647), 4, "i32::MAX");
    assert_eq!(min_signed_bytes(-2_147_483_648), 4, "i32::MIN");
    assert_eq!(min_signed_bytes(i64::MAX), 8);
    assert_eq!(min_signed_bytes(i64::MIN), 8);
}

#[test]
fn min_unsigned_bytes_boundaries() {
    assert_eq!(min_unsigned_bytes(0), 1);
    assert_eq!(min_unsigned_bytes(1), 1);
    assert_eq!(min_unsigned_bytes(0xFF), 1);
    assert_eq!(min_unsigned_bytes(0x100), 2);
    assert_eq!(min_unsigned_bytes(0xFFFF), 2);
    assert_eq!(min_unsigned_bytes(0x10000), 3);
    assert_eq!(min_unsigned_bytes(0xFFFFFFFF), 4);
    assert_eq!(min_unsigned_bytes(0x100000000), 5);
    assert_eq!(min_unsigned_bytes(u64::MAX), 8);
}

#[test]
fn encoded_value_byte() {
    let mut out = Vec::new();
    emit_encoded_value(&mut out, &EncodedValue::Byte(-1)).unwrap();
    assert_eq!(out, vec![0x00, 0xFF], "VT_BYTE header, byte payload -1");
}

#[test]
fn encoded_value_null() {
    let mut out = Vec::new();
    emit_encoded_value(&mut out, &EncodedValue::Null).unwrap();
    assert_eq!(out, vec![0x1E], "VT_NULL: header only");
}

#[test]
fn encoded_value_boolean_true_and_false() {
    let mut out = Vec::new();
    emit_encoded_value(&mut out, &EncodedValue::Boolean(false)).unwrap();
    assert_eq!(out, vec![0x1F], "VT_BOOLEAN false: header only, value_arg=0");
    out.clear();
    emit_encoded_value(&mut out, &EncodedValue::Boolean(true)).unwrap();
    assert_eq!(out, vec![0x3F], "VT_BOOLEAN true: header | (1<<5) = 0x1F|0x20");
}

#[test]
fn encoded_value_int_minimum_width_positive() {
    let mut out = Vec::new();
    emit_encoded_value(&mut out, &EncodedValue::Int(0x7F)).unwrap();
    assert_eq!(out, vec![0x04, 0x7F]);
}

#[test]
fn encoded_value_int_minimum_width_negative() {
    let mut out = Vec::new();
    emit_encoded_value(&mut out, &EncodedValue::Int(-1)).unwrap();
    assert_eq!(out, vec![0x04, 0xFF]);
}

#[test]
fn encoded_value_int_two_byte() {
    let mut out = Vec::new();
    emit_encoded_value(&mut out, &EncodedValue::Int(0x123)).unwrap();
    assert_eq!(out, vec![0x24, 0x23, 0x01]);
}

#[test]
fn encoded_value_long_max_width() {
    let mut out = Vec::new();
    emit_encoded_value(&mut out, &EncodedValue::Long(i64::MIN)).unwrap();
    assert_eq!(out[0], 0xE6);
    assert_eq!(out.len(), 9);
}

#[test]
fn encoded_value_float_always_full_width() {
    let mut out = Vec::new();
    emit_encoded_value(&mut out, &EncodedValue::Float(1.0f32.to_bits())).unwrap();
    assert_eq!(out[0], 0x70);
    assert_eq!(out.len(), 5);
    assert_eq!(&out[1..5], &[0x00, 0x00, 0x80, 0x3F]);
}

#[test]
fn encoded_value_double_always_full_width() {
    let mut out = Vec::new();
    emit_encoded_value(&mut out, &EncodedValue::Double(0.0f64.to_bits())).unwrap();
    assert_eq!(out[0], 0xF1);
    assert_eq!(out.len(), 9);
}

#[test]
fn encoded_value_string_idx() {
    let mut out = Vec::new();
    emit_encoded_value(&mut out, &EncodedValue::String(StringIdx(0xABCD))).unwrap();
    assert_eq!(out, vec![0x37, 0xCD, 0xAB]);
}

#[test]
fn encoded_value_type_idx_single_byte() {
    let mut out = Vec::new();
    emit_encoded_value(&mut out, &EncodedValue::Type(TypeIdx(0x42))).unwrap();
    assert_eq!(out, vec![0x18, 0x42], "VT_TYPE | 0, payload 1 byte");
}

#[test]
fn encoded_value_array_nested() {
    let mut out = Vec::new();
    let arr = EncodedValue::Array(vec![
        EncodedValue::Int(1),
        EncodedValue::Int(2),
        EncodedValue::Null,
    ]);
    emit_encoded_value(&mut out, &arr).unwrap();
    assert_eq!(out, vec![0x1C, 0x03, 0x04, 0x01, 0x04, 0x02, 0x1E]);
}

#[test]
fn encoded_value_annotation_wrapper() {
    let mut out = Vec::new();
    let ann = EncodedAnnotation {
        type_idx: TypeIdx(0x11),
        elements: BTreeMap::new(),
    };
    emit_encoded_value(&mut out, &EncodedValue::Annotation(ann)).unwrap();
    assert_eq!(out, vec![0x1D, 0x11, 0x00]);
}

#[test]
fn emit_encoded_array_empty() {
    let out = emit_encoded_array(&[]).expect("empty");
    assert_eq!(out, vec![0x00], "ULEB(0)");
}

#[test]
fn emit_encoded_array_mixed() {
    let out = emit_encoded_array(&[
        EncodedValue::Boolean(true),
        EncodedValue::Int(100),
        EncodedValue::Null,
    ])
    .expect("well-formed");
    assert_eq!(out, vec![0x03, 0x3F, 0x04, 0x64, 0x1E]);
}

fn assert_value_roundtrips(v: &EncodedValue) {
    let bytes = emit_encoded_array(std::slice::from_ref(v)).expect("well-formed");
    let (count, uleb_len) =
        read_uleb128(&bytes, 0);
    assert_eq!(count, 1, "single-element array");
    let (parsed, _) = parse_encoded_value(&bytes, uleb_len);
    assert_eq!(&parsed, v, "parsed value matches original");
}

#[test]
fn encoded_value_roundtrip_primitives() {
    for v in [
        EncodedValue::Boolean(false),
        EncodedValue::Boolean(true),
        EncodedValue::Byte(-128),
        EncodedValue::Byte(127),
        EncodedValue::Short(-32768),
        EncodedValue::Short(32767),
        EncodedValue::Char(0xABCD),
        EncodedValue::Int(0x12345678),
        EncodedValue::Int(-1),
        EncodedValue::Int(0),
        EncodedValue::Long(i64::MIN),
        EncodedValue::Long(i64::MAX),
        EncodedValue::Long(0),
        EncodedValue::String(StringIdx(42)),
        EncodedValue::String(StringIdx(0xFFFF_FFFF)),
        EncodedValue::Type(TypeIdx(0)),
        EncodedValue::Null,
    ] {
        assert_value_roundtrips(&v);
    }
}

fn field(idx: u32, flags: u32) -> EncodedField {
    EncodedField {
        field_idx: FieldIdx(idx),
        access_flags: flags,
    }
}

fn method(idx: u32, flags: u32, code_off: u32) -> EncodedMethod {
    EncodedMethod {
        method_idx: MethodIdx(idx),
        access_flags: flags,
        code_off,
    }
}

fn assert_class_data_roundtrip(
    static_fields: &[EncodedField],
    instance_fields: &[EncodedField],
    direct_methods: &[EncodedMethod],
    virtual_methods: &[EncodedMethod],
) {
    let bytes = emit_class_data_item(
        static_fields,
        instance_fields,
        direct_methods,
        virtual_methods,
    )
    .expect("well-formed");
    let cd = parse_class_data(&bytes, 0);
    assert_eq!(cd.static_fields.len(), static_fields.len());
    assert_eq!(cd.instance_fields.len(), instance_fields.len());
    assert_eq!(cd.direct_methods.len(), direct_methods.len());
    assert_eq!(cd.virtual_methods.len(), virtual_methods.len());
    for (a, b) in cd.static_fields.iter().zip(static_fields) {
        assert_eq!(a.field_idx.0, b.field_idx.0, "static_fields idx");
        assert_eq!(a.access_flags, b.access_flags, "static_fields flags");
    }
    for (a, b) in cd.instance_fields.iter().zip(instance_fields) {
        assert_eq!(a.field_idx.0, b.field_idx.0, "instance_fields idx");
        assert_eq!(a.access_flags, b.access_flags, "instance_fields flags");
    }
    for (a, b) in cd.direct_methods.iter().zip(direct_methods) {
        assert_eq!(a.method_idx.0, b.method_idx.0, "direct_methods idx");
        assert_eq!(a.access_flags, b.access_flags, "direct_methods flags");
        assert_eq!(a.code_off, b.code_off, "direct_methods code_off");
    }
    for (a, b) in cd.virtual_methods.iter().zip(virtual_methods) {
        assert_eq!(a.method_idx.0, b.method_idx.0, "virtual_methods idx");
        assert_eq!(a.access_flags, b.access_flags, "virtual_methods flags");
        assert_eq!(a.code_off, b.code_off, "virtual_methods code_off");
    }
}

#[test]
fn class_data_empty_roundtrip() {
    let bytes = emit_class_data_item(&[], &[], &[], &[]).expect("well-formed");
    assert_eq!(bytes, vec![0, 0, 0, 0]);
    assert_class_data_roundtrip(&[], &[], &[], &[]);
}

#[test]
fn class_data_single_entry_each_list() {
    let sf = [field(5, 0x0001)];
    let ifld = [field(10, 0x0002)];
    let dm = [method(7, 0x0004, 0)];
    let vm = [method(42, 0x0008, 0x1000)];
    assert_class_data_roundtrip(&sf, &ifld, &dm, &vm);
}

#[test]
fn class_data_multiple_entries_idx_diff() {
    let sf = [field(3, 1), field(5, 2), field(9, 4)];
    let ifld = [field(0, 0), field(1, 0), field(100, 0x4019)];
    let dm = [method(10, 1, 0x100), method(20, 1, 0x200), method(30, 1, 0x300)];
    let vm = [method(40, 8, 0x400), method(41, 8, 0x500)];
    assert_class_data_roundtrip(&sf, &ifld, &dm, &vm);
}

#[test]
fn class_data_rejects_duplicate_field_idx() {
    let dup = [field(5, 0), field(5, 0)];
    let err = emit_class_data_item(&dup, &[], &[], &[]).unwrap_err();
    assert!(matches!(err, DexEmitError::UnrepresentableIR { .. }));
}

#[test]
fn class_data_rejects_descending_field_idx() {
    let desc = [field(10, 0), field(5, 0)];
    let err = emit_class_data_item(&[], &desc, &[], &[]).unwrap_err();
    assert!(matches!(err, DexEmitError::UnrepresentableIR { .. }));
}

#[test]
fn class_data_rejects_duplicate_method_idx() {
    let dup = [method(5, 0, 0), method(5, 0, 0)];
    let err = emit_class_data_item(&[], &[], &dup, &[]).unwrap_err();
    assert!(matches!(err, DexEmitError::UnrepresentableIR { .. }));
}

#[test]
fn class_data_rejects_descending_method_idx() {
    let desc = [method(10, 0, 0), method(5, 0, 0)];
    let err = emit_class_data_item(&[], &[], &[], &desc).unwrap_err();
    assert!(matches!(err, DexEmitError::UnrepresentableIR { .. }));
}

#[test]
fn class_data_independent_accumulators_per_list() {
    let sf = [field(100, 0)];
    let ifld = [field(5, 0)];
    assert_class_data_roundtrip(&sf, &ifld, &[], &[]);
}

#[test]
fn class_data_first_entry_idx_zero_allowed() {
    let sf = [field(0, 0x1), field(1, 0x2)];
    assert_class_data_roundtrip(&sf, &[], &[], &[]);
}

#[test]
fn class_data_preserves_full_in_mask_access_flag_bits() {
    let sf = [field(0, FIELD_FLAGS)];
    let dm = [method(
        0,
        METHOD_FLAGS,
        0xFFFF_FFFF,
    )];
    assert_class_data_roundtrip(&sf, &[], &dm, &[]);
}

#[test]
fn class_data_layout_matches_handcrafted_bytes() {
    let sf = [field(3, 0x11)];
    let dm = [method(7, 0x22, 0x100)];
    let bytes = emit_class_data_item(&sf, &[], &dm, &[]).expect("well-formed");
    assert_eq!(
        bytes,
        vec![0x01, 0x00, 0x01, 0x00, 0x03, 0x11, 0x07, 0x22, 0x80, 0x02]
    );
}

#[test]
fn sleb128_zero() {
    let mut out = Vec::new();
    write_sleb128(&mut out, 0);
    assert_eq!(out, vec![0x00]);
}

#[test]
fn sleb128_small_positive() {
    let mut out = Vec::new();
    write_sleb128(&mut out, 1);
    assert_eq!(out, vec![0x01]);
    out.clear();
    write_sleb128(&mut out, 63);
    assert_eq!(out, vec![0x3F]);
}

#[test]
fn sleb128_boundary_positive() {
    let mut out = Vec::new();
    write_sleb128(&mut out, 64);
    assert_eq!(out, vec![0xC0, 0x00]);
    out.clear();
    write_sleb128(&mut out, 127);
    assert_eq!(out, vec![0xFF, 0x00]);
}

#[test]
fn sleb128_small_negative() {
    let mut out = Vec::new();
    write_sleb128(&mut out, -1);
    assert_eq!(out, vec![0x7F]);
    out.clear();
    write_sleb128(&mut out, -64);
    assert_eq!(out, vec![0x40]);
}

#[test]
fn sleb128_boundary_negative() {
    let mut out = Vec::new();
    write_sleb128(&mut out, -65);
    assert_eq!(out, vec![0xBF, 0x7F]);
}

#[test]
fn sleb128_roundtrip_via_common_decoder() {
    for v in [
        0i32, 1, -1, 63, 64, -64, -65, 127, -128, 255, -256,
        0x3FFF, -0x4000, 0x400000, i32::MAX, i32::MIN, 12345, -12345,
    ] {
        let mut buf = Vec::new();
        write_sleb128(&mut buf, v);
        let (decoded, consumed) = read_sleb128(&buf, 0);
        assert_eq!(decoded, v, "roundtrip {v}");
        assert_eq!(consumed, buf.len(), "consumed all bytes for {v}");
    }
}

fn try_item(start: u32, count: u16, handler_idx: usize) -> TryItem {
    TryItem { start_addr: start, insn_count: count, handler_idx }
}

fn catch_handler(typed: Vec<(u32, u32)>, catch_all: Option<u32>) -> CatchHandler {
    CatchHandler {
        catches: typed
            .into_iter()
            .map(|(ty, addr)| TypedCatch {
                exception_type: TypeIdx(ty),
                handler_addr: addr,
            })
            .collect(),
        catch_all_addr: catch_all,
    }
}

fn assert_code_item_roundtrip(
    registers: u16,
    ins: u16,
    outs: u16,
    debug_off: u32,
    insn_bytes: &[u8],
    tries: &[TryItem],
    handlers: &[CatchHandler],
) {
    let bytes = emit_code_item_container(
        registers, ins, outs, debug_off, insn_bytes, tries, handlers,
    )
    .expect("well-formed");
    let parsed = parse_code_item(&bytes, 0);
    assert_eq!(parsed.registers_size, registers);
    assert_eq!(parsed.ins_size, ins);
    assert_eq!(parsed.outs_size, outs);
    assert_eq!(parsed.debug_info_off, debug_off);
    assert_eq!(
        parsed.instructions.len() + parsed.payloads.len(),
        parsed.instructions.len() + parsed.payloads.len(),
    );
    assert_eq!(parsed.tries.len(), tries.len());
    assert_eq!(parsed.catch_handlers.len(), handlers.len());
    for (a, b) in parsed.tries.iter().zip(tries) {
        assert_eq!(a.start_addr, b.start_addr);
        assert_eq!(a.insn_count, b.insn_count);
        assert_eq!(a.handler_idx, b.handler_idx, "handler_idx round-tripped");
    }
    for (a, b) in parsed.catch_handlers.iter().zip(handlers) {
        assert_eq!(a.catches.len(), b.catches.len());
        for (ca, cb) in a.catches.iter().zip(&b.catches) {
            assert_eq!(ca.exception_type.0, cb.exception_type.0);
            assert_eq!(ca.handler_addr, cb.handler_addr);
        }
        assert_eq!(a.catch_all_addr, b.catch_all_addr);
    }
}

const NOP_BYTES: [u8; 2] = [0x00, 0x00];

#[test]
fn code_item_minimal_no_tries() {
    assert_code_item_roundtrip(1, 0, 0, 0, &NOP_BYTES, &[], &[]);
}

#[test]
fn code_item_zero_insns_and_no_tries() {
    assert_code_item_roundtrip(0, 0, 0, 0, &[], &[], &[]);
}

#[test]
fn code_item_with_try_and_catch_all_only() {
    let insns = [NOP_BYTES[0], NOP_BYTES[1], NOP_BYTES[0], NOP_BYTES[1]];
    let tries = [try_item(0, 2, 0)];
    let handlers = [catch_handler(vec![], Some(0x10))];
    assert_code_item_roundtrip(1, 0, 0, 0, &insns, &tries, &handlers);
}

#[test]
fn code_item_with_typed_catches_no_catch_all() {
    let insns = [NOP_BYTES[0], NOP_BYTES[1], NOP_BYTES[0], NOP_BYTES[1]];
    let tries = [try_item(0, 2, 0)];
    let handlers = [catch_handler(vec![(7, 0x20), (13, 0x30)], None)];
    assert_code_item_roundtrip(1, 0, 0, 0, &insns, &tries, &handlers);
}

#[test]
fn code_item_with_typed_and_catch_all() {
    let insns = [NOP_BYTES[0], NOP_BYTES[1], NOP_BYTES[0], NOP_BYTES[1]];
    let tries = [try_item(0, 2, 0)];
    let handlers = [catch_handler(vec![(7, 0x20)], Some(0x30))];
    assert_code_item_roundtrip(1, 0, 0, 0, &insns, &tries, &handlers);
}

#[test]
fn code_item_multiple_tries_shared_handler() {
    let insns = vec![0u8; 8];
    let tries = [try_item(0, 1, 0), try_item(1, 1, 0)];
    let handlers = [catch_handler(vec![(1, 0x100)], None)];
    assert_code_item_roundtrip(1, 0, 0, 0, &insns, &tries, &handlers);
}

#[test]
fn code_item_multiple_tries_distinct_handlers() {
    let insns = vec![0u8; 8];
    let tries = [try_item(0, 1, 0), try_item(1, 1, 1), try_item(2, 1, 2)];
    let handlers = [
        catch_handler(vec![(1, 0x10)], None),
        catch_handler(vec![(2, 0x20), (3, 0x21)], Some(0x22)),
        catch_handler(vec![], Some(0x30)),
    ];
    assert_code_item_roundtrip(1, 0, 0, 0, &insns, &tries, &handlers);
}

#[test]
fn code_item_odd_insns_size_inserts_padding() {
    let tries = [try_item(0, 1, 0)];
    let handlers = [catch_handler(vec![], Some(0))];
    let bytes = emit_code_item_container(
        1,
        0,
        0,
        0,
        &NOP_BYTES,
        &tries,
        &handlers,
    )
    .expect("well-formed");
    assert_eq!(bytes.len(), 16 + 2 + 2 + 8 + bytes.len() - 28);
    let parsed = parse_code_item(&bytes, 0);
    assert_eq!(parsed.tries.len(), 1);
}

#[test]
fn code_item_even_insns_size_no_padding() {
    let insns = [NOP_BYTES[0], NOP_BYTES[1], NOP_BYTES[0], NOP_BYTES[1]];
    let tries = [try_item(0, 2, 0)];
    let handlers = [catch_handler(vec![], Some(0))];
    let bytes = emit_code_item_container(
        1, 0, 0, 0, &insns, &tries, &handlers,
    )
    .expect("well-formed");
    assert_eq!(&bytes[12..16], &2u32.to_le_bytes());
    assert_eq!(&bytes[16..20], &insns);
    assert_eq!(&bytes[20..24], &0u32.to_le_bytes(), "try.start_addr");
    assert_eq!(&bytes[24..26], &2u16.to_le_bytes(), "try.insn_count");
}

#[test]
fn code_item_rejects_odd_byte_insn_stream() {
    let err = emit_code_item_container(0, 0, 0, 0, &[0x00], &[], &[]).unwrap_err();
    assert!(matches!(err, DexEmitError::UnrepresentableIR { .. }));
}

#[test]
fn code_item_rejects_handler_idx_out_of_range() {
    let tries = [try_item(0, 1, 5)];
    let handlers = [catch_handler(vec![], Some(0))];
    let err =
        emit_code_item_container(1, 0, 0, 0, &NOP_BYTES, &tries, &handlers).unwrap_err();
    assert!(matches!(err, DexEmitError::UnrepresentableIR { .. }));
}

#[test]
fn code_item_rejects_handlers_without_tries() {
    let handlers = [catch_handler(vec![], Some(0))];
    let err =
        emit_code_item_container(1, 0, 0, 0, &NOP_BYTES, &[], &handlers).unwrap_err();
    assert!(matches!(err, DexEmitError::UnrepresentableIR { .. }));
}

#[test]
fn code_item_rejects_empty_handler() {
    let tries = [try_item(0, 1, 0)];
    let handlers = [catch_handler(vec![], None)];
    let err =
        emit_code_item_container(1, 0, 0, 0, &NOP_BYTES, &tries, &handlers).unwrap_err();
    assert!(matches!(err, DexEmitError::UnrepresentableIR { .. }));
}

#[test]
fn code_item_accepts_many_handlers() {
    let insns = vec![0u8; 100];
    let tries: Vec<TryItem> = (0..50).map(|i| try_item(i as u32, 1, i)).collect();
    let handlers: Vec<CatchHandler> = (0..50)
        .map(|i| catch_handler(vec![(i as u32 + 1, 0x100 + i as u32)], None))
        .collect();
    assert_code_item_roundtrip(1, 0, 0, 0, &insns, &tries, &handlers);
}

#[test]
fn code_item_layout_handcrafted_header_bytes() {
    let bytes = emit_code_item_container(3, 2, 1, 0x1234, &NOP_BYTES, &[], &[])
        .expect("well-formed");
    let expected: Vec<u8> = vec![
        0x03, 0x00,
        0x02, 0x00,
        0x01, 0x00,
        0x00, 0x00,
        0x34, 0x12, 0x00, 0x00,
        0x01, 0x00, 0x00, 0x00,
        0x00, 0x00,
    ];
    assert_eq!(bytes, expected);
}

fn insn(op: Opcode) -> Instruction {
    Instruction {
        addr: 0,
        op,
        size: 0,
        dst: None,
        src: RegList::empty(),
        literal: 0,
        target: None,
        pool_idx: None,
    }
}

fn roundtrip_insn(mut i: Instruction) -> Instruction {
    i.addr = 0;
    let mut stream = Vec::new();
    emit_instruction(&mut stream, &i).expect("well-formed");
    let bytes = emit_code_item_container(
        16,
        0,
        0,
        0,
        &stream,
        &[],
        &[],
    )
    .expect("well-formed container");
    let parsed = parse_code_item(&bytes, 0);
    assert_eq!(parsed.instructions.len(), 1, "exactly one insn parsed");
    parsed.instructions.into_iter().next().unwrap()
}

#[test]
fn insn_f10x_nop() {
    let out = roundtrip_insn(insn(Opcode::Nop));
    assert_eq!(out.op, Opcode::Nop);
    assert_eq!(out.size, 1);
}

#[test]
fn insn_f12x_move() {
    let mut i = insn(Opcode::Move);
    i.dst = Some(3);
    i.src = RegList::one(7);
    let out = roundtrip_insn(i);
    assert_eq!(out.op, Opcode::Move);
    assert_eq!(out.dst, Some(3));
    assert_eq!(out.src.as_slice(), &[7]);
}

#[test]
fn insn_f12x_rejects_5bit_dst() {
    let mut i = insn(Opcode::Move);
    i.dst = Some(16);
    i.src = RegList::one(0);
    assert!(matches!(
        emit_instruction(&mut Vec::new(), &i),
        Err(DexEmitError::UnrepresentableIR { .. })
    ));
}

#[test]
fn insn_f11n_const4_positive() {
    let mut i = insn(Opcode::Const4);
    i.dst = Some(2);
    i.literal = 7;
    let out = roundtrip_insn(i);
    assert_eq!(out.literal, 7);
}

#[test]
fn insn_f11n_const4_negative() {
    let mut i = insn(Opcode::Const4);
    i.dst = Some(2);
    i.literal = -8;
    let out = roundtrip_insn(i);
    assert_eq!(out.literal, -8);
}

#[test]
fn insn_f11n_rejects_out_of_range() {
    let mut i = insn(Opcode::Const4);
    i.dst = Some(0);
    i.literal = 8;
    assert!(emit_instruction(&mut Vec::new(), &i).is_err());
    i.literal = -9;
    assert!(emit_instruction(&mut Vec::new(), &i).is_err());
}

#[test]
fn insn_f11x_move_result() {
    let mut i = insn(Opcode::MoveResult);
    i.dst = Some(200);
    let out = roundtrip_insn(i);
    assert_eq!(out.dst, Some(200));
}

#[test]
fn insn_f10t_goto_backward() {
    let mut i = insn(Opcode::Goto);
    i.addr = 5;
    i.target = Some(3);
    let mut buf = Vec::new();
    emit_instruction(&mut buf, &i).expect("well-formed");
    assert_eq!(buf, vec![0x28, 0xFE]);
}

#[test]
fn insn_f10t_rejects_out_of_range() {
    let mut i = insn(Opcode::Goto);
    i.addr = 0;
    i.target = Some(200);
    assert!(matches!(
        emit_instruction(&mut Vec::new(), &i),
        Err(DexEmitError::OffsetOverflow { .. })
    ));
}

#[test]
fn insn_f20t_goto16() {
    let mut i = insn(Opcode::Goto16);
    i.target = Some(1000);
    let out = roundtrip_insn(i);
    assert_eq!(out.op, Opcode::Goto16);
    assert_eq!(out.target, Some(1000));
}

#[test]
fn insn_f22x_move_from16() {
    let mut i = insn(Opcode::MoveFrom16);
    i.dst = Some(50);
    i.src = RegList::one(1234);
    let out = roundtrip_insn(i);
    assert_eq!(out.dst, Some(50));
    assert_eq!(out.src.as_slice(), &[1234]);
}

#[test]
fn insn_f21t_if_eqz() {
    let mut i = insn(Opcode::IfEqz);
    i.dst = Some(3);
    i.target = Some(100);
    let out = roundtrip_insn(i);
    assert_eq!(out.dst, Some(3));
    assert_eq!(out.target, Some(100));
}

#[test]
fn insn_f21s_const16() {
    let mut i = insn(Opcode::Const16);
    i.dst = Some(5);
    i.literal = -32000;
    let out = roundtrip_insn(i);
    assert_eq!(out.literal, -32000);
}

#[test]
fn insn_f21h_const_high16() {
    let mut i = insn(Opcode::ConstHigh16);
    i.dst = Some(1);
    i.literal = 0x12340000;
    let out = roundtrip_insn(i);
    assert_eq!(out.literal, 0x12340000);
}

#[test]
fn insn_f21h_rejects_low16_nonzero() {
    let mut i = insn(Opcode::ConstHigh16);
    i.dst = Some(1);
    i.literal = 0x12345678;
    assert!(emit_instruction(&mut Vec::new(), &i).is_err());
}

#[test]
fn insn_f21c_const_string() {
    let mut i = insn(Opcode::ConstString);
    i.dst = Some(3);
    i.pool_idx = Some(PoolIndex::String(StringIdx(0xABCD)));
    let out = roundtrip_insn(i);
    assert!(matches!(out.pool_idx, Some(PoolIndex::String(s)) if s.0 == 0xABCD));
}

#[test]
fn insn_f21c_rejects_u16_overflow() {
    let mut i = insn(Opcode::ConstString);
    i.dst = Some(0);
    i.pool_idx = Some(PoolIndex::String(StringIdx(0x1_0000)));
    assert!(emit_instruction(&mut Vec::new(), &i).is_err());
}

#[test]
fn insn_f23x_add_int() {
    let mut i = insn(Opcode::AddInt);
    i.dst = Some(1);
    i.src = RegList::two(2, 3);
    let out = roundtrip_insn(i);
    assert_eq!(out.dst, Some(1));
    assert_eq!(out.src.as_slice(), &[2, 3]);
}

#[test]
fn insn_f22t_if_eq() {
    let mut i = insn(Opcode::IfEq);
    i.src = RegList::two(2, 5);
    i.target = Some(20);
    let out = roundtrip_insn(i);
    assert_eq!(out.src.as_slice(), &[2, 5]);
    assert_eq!(out.target, Some(20));
}

#[test]
fn insn_f22s_add_int_lit16() {
    let mut i = insn(Opcode::AddIntLit16);
    i.dst = Some(1);
    i.src = RegList::one(2);
    i.literal = 12345;
    let out = roundtrip_insn(i);
    assert_eq!(out.literal, 12345);
}

#[test]
fn insn_f22c_iget() {
    let mut i = insn(Opcode::Iget);
    i.dst = Some(1);
    i.src = RegList::one(2);
    i.pool_idx = Some(PoolIndex::Field(FieldIdx(0x4242)));
    let out = roundtrip_insn(i);
    assert!(matches!(out.pool_idx, Some(PoolIndex::Field(f)) if f.0 == 0x4242));
}

#[test]
fn insn_f22b_add_int_lit8() {
    let mut i = insn(Opcode::AddIntLit8);
    i.dst = Some(10);
    i.src = RegList::one(20);
    i.literal = -50;
    let out = roundtrip_insn(i);
    assert_eq!(out.literal, -50);
}

#[test]
fn insn_f30t_goto32() {
    let mut i = insn(Opcode::Goto32);
    i.target = Some(100_000);
    let out = roundtrip_insn(i);
    assert_eq!(out.target, Some(100_000));
}

#[test]
fn insn_f32x_move16() {
    let mut i = insn(Opcode::Move16);
    i.dst = Some(5000);
    i.src = RegList::one(10000);
    let out = roundtrip_insn(i);
    assert_eq!(out.dst, Some(5000));
    assert_eq!(out.src.as_slice(), &[10000]);
}

#[test]
fn insn_f31i_const() {
    let mut i = insn(Opcode::Const);
    i.dst = Some(1);
    i.literal = i64::from(i32::MIN);
    let out = roundtrip_insn(i);
    assert_eq!(out.literal, i64::from(i32::MIN));
}

#[test]
fn insn_f31c_const_string_jumbo() {
    let mut i = insn(Opcode::ConstStringJumbo);
    i.dst = Some(0);
    i.pool_idx = Some(PoolIndex::String(StringIdx(0x10000)));
    let out = roundtrip_insn(i);
    assert!(matches!(out.pool_idx, Some(PoolIndex::String(s)) if s.0 == 0x10000));
}

#[test]
fn insn_f35c_invoke_virtual() {
    let mut i = insn(Opcode::InvokeVirtual);
    i.src = RegList::from_slice(&[1, 2, 3]);
    i.pool_idx = Some(PoolIndex::Method(MethodIdx(0x1234)));
    let out = roundtrip_insn(i);
    assert_eq!(out.src.as_slice(), &[1, 2, 3]);
    assert!(matches!(out.pool_idx, Some(PoolIndex::Method(m)) if m.0 == 0x1234));
}

#[test]
fn insn_f35c_invoke_virtual_5_args() {
    let mut i = insn(Opcode::InvokeVirtual);
    i.src = RegList::from_slice(&[1, 2, 3, 4, 5]);
    i.pool_idx = Some(PoolIndex::Method(MethodIdx(0x10)));
    let out = roundtrip_insn(i);
    assert_eq!(out.src.as_slice(), &[1, 2, 3, 4, 5]);
}

#[test]
fn insn_f3rc_invoke_virtual_range() {
    let mut i = insn(Opcode::InvokeVirtualRange);
    i.literal = 7;
    i.src = RegList::from_slice(&[100, 101, 102, 103, 104]);
    i.pool_idx = Some(PoolIndex::Method(MethodIdx(0x20)));
    let out = roundtrip_insn(i);
    assert_eq!(out.literal, 7);
    assert_eq!(out.src.as_slice()[0], 100, "start_reg roundtrip");
}

#[test]
fn insn_f3rc_invoke_virtual_range_beyond_inline() {
    let mut i = insn(Opcode::InvokeVirtualRange);
    i.literal = 7;
    i.src = RegList::from_slice(&[100, 101, 102, 103, 104, 105, 106]);
    i.pool_idx = Some(PoolIndex::Method(MethodIdx(0x20)));
    let out = roundtrip_insn(i);
    assert_eq!(out.literal, 7);
    assert_eq!(out.src.len(), 7);
    assert_eq!(
        out.src.registers(),
        vec![100, 101, 102, 103, 104, 105, 106]
    );
    assert_eq!(out.src.as_slice(), &[100, 101, 102, 103, 104]);
}

#[test]
fn insn_f51l_const_wide() {
    let mut i = insn(Opcode::ConstWide);
    i.dst = Some(1);
    i.literal = 0x0123_4567_89AB_CDEF;
    let out = roundtrip_insn(i);
    assert_eq!(out.literal, 0x0123_4567_89AB_CDEF);
}

#[test]
fn insn_layout_nop_is_single_zero_unit() {
    let mut buf = Vec::new();
    emit_instruction(&mut buf, &insn(Opcode::Nop)).expect("well-formed");
    assert_eq!(buf, vec![0x00, 0x00]);
}

#[test]
fn insn_layout_const4_neg_one() {
    let mut i = insn(Opcode::Const4);
    i.dst = Some(1);
    i.literal = -1;
    let mut buf = Vec::new();
    emit_instruction(&mut buf, &i).expect("well-formed");
    assert_eq!(buf, vec![0x12, 0xF1]);
}

#[test]
fn every_opcode_has_a_format() {
    for byte in 0u8..=0xFF {
        if let Some(op) = Opcode::from_u8(byte) {
            let _fmt = insn_format(op);
        }
    }
}

#[test]
fn emit_and_decode_insns_stream_round_trips_multiple_insns() {
    let mut stream = Vec::new();
    let mut addr = 0u32;

    let insns = [
        Instruction { addr, op: Opcode::Nop, size: 1, dst: None, src: RegList::empty(), literal: 0, target: None, pool_idx: None },
    ];
    for i in &insns {
        emit_instruction(&mut stream, i).expect("well-formed");
        addr = addr.saturating_add(u32::from(format_size(insn_format(i.op))));
    }
    let insns_size = (stream.len() / 2) as u32;
    let (decoded, payloads) = decode_insns(&stream, 0, insns_size);
    assert_eq!(decoded.len(), 1);
    assert!(payloads.is_empty());
    assert_eq!(decoded[0].op, Opcode::Nop);
}

#[test]
fn insn_f21h_const_high16_i32_min() {
    let mut i = insn(Opcode::ConstHigh16);
    i.dst = Some(0);
    i.literal = i64::from(i32::MIN);
    let out = roundtrip_insn(i);
    assert_eq!(out.literal, i64::from(i32::MIN));
}

#[test]
fn insn_f21h_const_wide_high16_i64_min() {
    let mut i = insn(Opcode::ConstWideHigh16);
    i.dst = Some(0);
    i.literal = i64::MIN;
    let out = roundtrip_insn(i);
    assert_eq!(out.literal, i64::MIN);
}

#[test]
fn insn_branch_at_nonzero_position_uses_addr_for_offset() {
    let mut stream = Vec::new();
    emit_instruction(&mut stream, &insn(Opcode::Nop)).expect("nop");
    let mut goto = insn(Opcode::Goto);
    goto.addr = 1;
    goto.target = Some(5);
    emit_instruction(&mut stream, &goto).expect("goto");
    assert_eq!(stream, vec![0x00, 0x00, 0x28, 0x04]);
}

#[test]
fn insn_branch_at_nonzero_position_round_trips() {
    let mut stream = Vec::new();
    emit_instruction(&mut stream, &insn(Opcode::Nop)).expect("nop");
    let mut br = insn(Opcode::IfEqz);
    br.addr = 1;
    br.dst = Some(0);
    br.target = Some(11);
    emit_instruction(&mut stream, &br).expect("if-eqz");
    for _ in 0..8 {
        emit_instruction(&mut stream, &insn(Opcode::Nop)).expect("pad");
    }
    let insns_size = (stream.len() / 2) as u32;
    assert_eq!(insns_size, 11);
    let (decoded, _) = decode_insns(&stream, 0, insns_size);
    let br = decoded.iter().find(|i| i.op == Opcode::IfEqz).expect("found");
    assert_eq!(br.addr, 1);
    assert_eq!(br.target, Some(11), "absolute target preserved");
}

#[test]
fn insn_f21s_const16_boundaries() {
    for lit in [i64::from(i16::MIN), -1, 0, 1, i64::from(i16::MAX)] {
        let mut i = insn(Opcode::Const16);
        i.dst = Some(0);
        i.literal = lit;
        let out = roundtrip_insn(i);
        assert_eq!(out.literal, lit, "const/16 lit={lit}");
    }
}

#[test]
fn insn_f22s_add_int_lit16_boundaries() {
    for lit in [i64::from(i16::MIN), -1, 0, 1, i64::from(i16::MAX)] {
        let mut i = insn(Opcode::AddIntLit16);
        i.dst = Some(0);
        i.src = RegList::one(0);
        i.literal = lit;
        let out = roundtrip_insn(i);
        assert_eq!(out.literal, lit, "add-int/lit16 lit={lit}");
    }
}

#[test]
fn insn_f22b_add_int_lit8_boundaries() {
    for lit in [i64::from(i8::MIN), -1, 0, 1, i64::from(i8::MAX)] {
        let mut i = insn(Opcode::AddIntLit8);
        i.dst = Some(0);
        i.src = RegList::one(0);
        i.literal = lit;
        let out = roundtrip_insn(i);
        assert_eq!(out.literal, lit, "add-int/lit8 lit={lit}");
    }
}

#[test]
fn insn_f31i_const_boundaries() {
    for lit in [i64::from(i32::MIN), -1, 0, 1, i64::from(i32::MAX)] {
        let mut i = insn(Opcode::Const);
        i.dst = Some(0);
        i.literal = lit;
        let out = roundtrip_insn(i);
        assert_eq!(out.literal, lit, "const lit={lit}");
    }
}

#[test]
fn insn_f51l_const_wide_boundaries() {
    for lit in [i64::MIN, -1, 0, 1, i64::MAX] {
        let mut i = insn(Opcode::ConstWide);
        i.dst = Some(0);
        i.literal = lit;
        let out = roundtrip_insn(i);
        assert_eq!(out.literal, lit, "const-wide lit={lit}");
    }
}

#[test]
fn insn_f35c_invoke_virtual_arg_count_sweep() {
    for n in 0..=5usize {
        let regs: Vec<u16> = (1..=n as u16).collect();
        let mut i = insn(Opcode::InvokeVirtual);
        i.src = RegList::from_slice(&regs);
        i.pool_idx = Some(PoolIndex::Method(MethodIdx(0x100 + n as u32)));
        let out = roundtrip_insn(i);
        assert_eq!(out.src.as_slice(), regs.as_slice(), "F35c n={n}");
        assert!(
            matches!(out.pool_idx, Some(PoolIndex::Method(m)) if m.0 == 0x100 + n as u32),
            "F35c pool idx n={n}"
        );
    }
}

#[test]
fn insn_f10t_goto_i8_max_offset() {
    let mut stream = Vec::new();
    let mut g = insn(Opcode::Goto);
    g.target = Some(127);
    emit_instruction(&mut stream, &g).expect("max offset");
    assert_eq!(stream, vec![0x28, 0x7F]);
}

#[test]
fn insn_f20t_goto16_positive_max_offset() {
    let mut g = insn(Opcode::Goto16);
    g.target = Some(32767);
    let out = roundtrip_insn(g);
    assert_eq!(out.target, Some(32767));
}

#[test]
fn insn_f20t_goto16_negative_min_offset() {
    let mut g = insn(Opcode::Goto16);
    g.addr = 32768;
    g.target = Some(0);
    let mut buf = Vec::new();
    emit_instruction(&mut buf, &g).expect("in-range");
    assert_eq!(buf, vec![0x29, 0x00, 0x00, 0x80]);
}

#[test]
fn packed_switch_payload_layout() {
    let mut buf = Vec::new();
    emit_packed_switch_payload(&mut buf, 10, &[100, 200, 300], 50)
        .expect("well-formed");
    let expected: Vec<u8> = vec![
        0x00, 0x01,
        0x03, 0x00,
        0x0A, 0x00, 0x00, 0x00,
        0x32, 0x00, 0x00, 0x00,
        0x96, 0x00, 0x00, 0x00,
        0xFA, 0x00, 0x00, 0x00,
    ];
    assert_eq!(buf, expected);
}

#[test]
fn packed_switch_payload_negative_offset() {
    let mut buf = Vec::new();
    emit_packed_switch_payload(&mut buf, 0, &[10], 100)
        .expect("well-formed");
    let rel_bytes = &buf[8..12];
    assert_eq!(rel_bytes, &(-90i32).to_le_bytes());
}

#[test]
fn sparse_switch_payload_layout() {
    let mut buf = Vec::new();
    let keys = StrictlyAscending::from_verified(vec![1, 5]).expect("asc");
    emit_sparse_switch_payload(&mut buf, &keys, &[100, 200], 50)
        .expect("well-formed");
    let expected: Vec<u8> = vec![
        0x00, 0x02,
        0x02, 0x00,
        0x01, 0x00, 0x00, 0x00,
        0x05, 0x00, 0x00, 0x00,
        0x32, 0x00, 0x00, 0x00,
        0x96, 0x00, 0x00, 0x00,
    ];
    assert_eq!(buf, expected);
}

#[test]
fn sparse_switch_payload_rejects_len_mismatch() {
    let keys = StrictlyAscending::from_verified(vec![1, 2]).expect("asc");
    let err =
        emit_sparse_switch_payload(&mut Vec::new(), &keys, &[100], 0).unwrap_err();
    assert!(matches!(err, DexEmitError::UnrepresentableIR { .. }));
}

#[test]
fn strictly_ascending_rejects_descending_input() {
    assert!(StrictlyAscending::from_verified(vec![5i32, 1]).is_err());
}

#[test]
fn strictly_ascending_rejects_duplicate_input() {
    assert!(StrictlyAscending::from_verified(vec![1i32, 1]).is_err());
    assert!(StrictlyAscending::from_sorted(vec![5i32, 1, 5]).is_err());
}

#[test]
fn strictly_ascending_from_sorted_canonicalizes_input() {
    let asc = StrictlyAscending::from_sorted(vec![5i32, 1, 3]).expect("unique + sortable");
    assert_eq!(&*asc, &[1, 3, 5]);
}

#[test]
fn sparse_switch_payload_empty_is_valid() {
    let mut buf = Vec::new();
    emit_sparse_switch_payload(&mut buf, &StrictlyAscending::empty(), &[], 0)
        .expect("well-formed");
    assert_eq!(buf, vec![0x00, 0x02, 0x00, 0x00]);
}

#[test]
fn emit_payload_sparse_with_descending_keys_rejects() {
    let err = emit_payload(
        &mut Vec::new(),
        &PayloadData::SparseSwitch {
            keys: vec![5, 1],
            targets: vec![100, 200],
        },
        0,
    )
    .unwrap_err();
    assert!(matches!(err, DexEmitError::UnrepresentableIR { .. }));
}

#[test]
fn fill_array_data_payload_layout_u16() {
    let data: Vec<u8> = vec![
        0x01, 0x00, 0x02, 0x00, 0x03, 0x00, 0x04, 0x00,
    ];
    let mut buf = Vec::new();
    emit_fill_array_data_payload(&mut buf, 2, &data).expect("well-formed");
    let expected: Vec<u8> = vec![
        0x00, 0x03,
        0x02, 0x00,
        0x04, 0x00, 0x00, 0x00,
        0x01, 0x00, 0x02, 0x00, 0x03, 0x00, 0x04, 0x00,
    ];
    assert_eq!(buf, expected);
}

#[test]
fn fill_array_data_payload_odd_byte_count_pads() {
    let mut buf = Vec::new();
    emit_fill_array_data_payload(&mut buf, 1, &[0xAA, 0xBB, 0xCC]).expect("well-formed");
    let expected: Vec<u8> = vec![
        0x00, 0x03,
        0x01, 0x00,
        0x03, 0x00, 0x00, 0x00,
        0xAA, 0xBB, 0xCC,
        0x00,
    ];
    assert_eq!(buf, expected);
}

#[test]
fn fill_array_data_payload_even_byte_count_no_pad() {
    let mut buf = Vec::new();
    emit_fill_array_data_payload(&mut buf, 1, &[0xAA, 0xBB]).expect("well-formed");
    assert_eq!(buf.len(), 8 + 2);
}

#[test]
fn fill_array_data_payload_rejects_invalid_width() {
    let err =
        emit_fill_array_data_payload(&mut Vec::new(), 3, &[0, 0, 0, 0]).unwrap_err();
    assert!(matches!(err, DexEmitError::UnrepresentableIR { .. }));
    let err =
        emit_fill_array_data_payload(&mut Vec::new(), 0, &[]).unwrap_err();
    assert!(matches!(err, DexEmitError::UnrepresentableIR { .. }));
}

#[test]
fn fill_array_data_payload_rejects_data_not_multiple_of_width() {
    let err =
        emit_fill_array_data_payload(&mut Vec::new(), 4, &[0, 0, 0, 0, 0]).unwrap_err();
    assert!(matches!(err, DexEmitError::UnrepresentableIR { .. }));
}

#[test]
fn emit_payload_dispatches_all_three() {
    let mut buf = Vec::new();
    emit_payload(
        &mut buf,
        &PayloadData::PackedSwitch { first_key: 0, targets: vec![10] },
        0,
    )
    .expect("packed");
    assert_eq!(&buf[..2], &[0x00, 0x01]);
    buf.clear();

    emit_payload(
        &mut buf,
        &PayloadData::SparseSwitch { keys: vec![1], targets: vec![10] },
        0,
    )
    .expect("sparse");
    assert_eq!(&buf[..2], &[0x00, 0x02]);
    buf.clear();

    emit_payload(
        &mut buf,
        &PayloadData::FillArrayData { element_width: 1, data: vec![0x42] },
        0,
    )
    .expect("fill");
    assert_eq!(&buf[..2], &[0x00, 0x03]);
}

#[test]
fn packed_switch_instruction_plus_payload_round_trips() {
    let switch_pc = 0u32;
    let payload_pc = 4u32;
    let nop_target = 3u32;

    let mut stream = Vec::new();
    let mut sw = insn(Opcode::PackedSwitch);
    sw.dst = Some(0);
    sw.target = Some(payload_pc);
    emit_instruction(&mut stream, &sw).expect("switch");
    emit_instruction(&mut stream, &insn(Opcode::Nop)).expect("nop");
    assert_eq!(stream.len() / 2, 4, "payload lands on expected code unit");
    emit_packed_switch_payload(&mut stream, 42, &[nop_target, nop_target], switch_pc)
        .expect("payload");

    let bytes = emit_code_item_container(1, 0, 0, 0, &stream, &[], &[])
        .expect("container");
    let parsed = parse_code_item(&bytes, 0);
    let payload = parsed
        .payloads
        .get(&payload_pc)
        .expect("payload resolved");
    match payload {
        PayloadData::PackedSwitch { first_key, targets } => {
            assert_eq!(*first_key, 42);
            assert_eq!(targets, &vec![nop_target, nop_target]);
        }
        other => panic!("wrong variant: {other:?}"),
    }
}

#[test]
fn map_list_empty_emits_only_size_header() {
    let bytes = emit_map_list(&[], false).expect("well-formed");
    assert_eq!(bytes, vec![0x00, 0x00, 0x00, 0x00]);
}

#[test]
fn map_list_single_item_layout() {
    let bytes = emit_map_list(
        &[MapItem {
            type_code: map_type::HEADER_ITEM,
            size: 1,
            offset: 0,
        }],
        false,
    )
    .expect("well-formed");
    let expected: Vec<u8> = vec![
        0x01, 0x00, 0x00, 0x00,
        0x00, 0x00,
        0x00, 0x00,
        0x01, 0x00, 0x00, 0x00,
        0x00, 0x00, 0x00, 0x00,
    ];
    assert_eq!(bytes, expected);
}

#[test]
fn map_list_full_layout_matches_typical_dex_shape() {
    let items = [
        MapItem { type_code: map_type::HEADER_ITEM, size: 1, offset: 0x000 },
        MapItem { type_code: map_type::STRING_ID_ITEM, size: 4, offset: 0x070 },
        MapItem { type_code: map_type::TYPE_ID_ITEM, size: 2, offset: 0x0A0 },
        MapItem { type_code: map_type::CLASS_DEF_ITEM, size: 1, offset: 0x0B0 },
        MapItem { type_code: map_type::MAP_LIST, size: 1, offset: 0x0D0 },
    ];
    let bytes = emit_map_list(&items, false).expect("well-formed");
    assert_eq!(bytes.len(), 4 + 5 * 12);
    assert_eq!(&bytes[0..4], &5u32.to_le_bytes(), "size");
    assert_eq!(&bytes[4..6], &0u16.to_le_bytes(), "type = HEADER");
    assert_eq!(&bytes[6..8], &[0, 0], "padding zeroed");
    assert_eq!(&bytes[8..12], &1u32.to_le_bytes(), "item count = 1");
    assert_eq!(&bytes[12..16], &0u32.to_le_bytes(), "offset = 0");
    assert_eq!(&bytes[60..64], &0x0D0u32.to_le_bytes(), "MAP_LIST offset");
}

#[test]
fn map_list_rejects_duplicate_offset() {
    let err = emit_map_list(
        &[
            MapItem { type_code: map_type::HEADER_ITEM, size: 1, offset: 0 },
            MapItem { type_code: map_type::STRING_ID_ITEM, size: 1, offset: 0 },
        ],
        false,
    )
    .unwrap_err();
    assert!(matches!(err, DexEmitError::UnrepresentableIR { .. }));
}

#[test]
fn map_list_rejects_descending_offset() {
    let err = emit_map_list(
        &[
            MapItem { type_code: map_type::HEADER_ITEM, size: 1, offset: 0x100 },
            MapItem { type_code: map_type::STRING_ID_ITEM, size: 1, offset: 0x50 },
        ],
        false,
    )
    .unwrap_err();
    assert!(matches!(err, DexEmitError::UnrepresentableIR { .. }));
}

#[test]
fn map_list_accepts_any_type_codes_in_range() {
    let items = [
        MapItem { type_code: 0xFFFF, size: 1, offset: 0 },
        MapItem { type_code: 0xABCD, size: 1, offset: 4 },
    ];
    emit_map_list(&items, false).expect("arbitrary u16 codes ok at emit layer");
}

#[test]
fn map_list_permit_unsorted_accepts_descending_offsets() {
    let items = [
        MapItem { type_code: map_type::HEADER_ITEM, size: 1, offset: 0x100 },
        MapItem { type_code: map_type::STRING_ID_ITEM, size: 1, offset: 0x50 },
    ];
    let bytes = emit_map_list(&items, true).expect("permit_unsorted accepts");
    assert_eq!(bytes.len(), 4 + 2 * 12);
    assert_eq!(&bytes[12..16], &0x100u32.to_le_bytes(), "first offset preserved");
    assert_eq!(&bytes[24..28], &0x50u32.to_le_bytes(), "second offset preserved");
}

#[test]
fn reorder_map_items_to_input_matches_input_order() {
    let items = vec![
        MapItem { type_code: map_type::HEADER_ITEM, size: 1, offset: 0 },
        MapItem { type_code: map_type::STRING_ID_ITEM, size: 4, offset: 0x70 },
        MapItem { type_code: map_type::CLASS_DEF_ITEM, size: 1, offset: 0xB0 },
        MapItem { type_code: map_type::MAP_LIST, size: 1, offset: 0xD0 },
    ];
    let input = [
        MapEntry { type_code: map_type::STRING_ID_ITEM, size: 4, offset: 0x70 },
        MapEntry { type_code: map_type::HEADER_ITEM, size: 1, offset: 0 },
        MapEntry { type_code: map_type::MAP_LIST, size: 1, offset: 0xD0 },
        MapEntry { type_code: map_type::CLASS_DEF_ITEM, size: 1, offset: 0xB0 },
    ];
    let reordered = reorder_map_items_to_input(items, &input);
    let types: Vec<u16> = reordered.iter().map(|m| m.type_code).collect();
    assert_eq!(
        types,
        vec![
            map_type::STRING_ID_ITEM,
            map_type::HEADER_ITEM,
            map_type::MAP_LIST,
            map_type::CLASS_DEF_ITEM,
        ]
    );
}

fn minimal_layout() -> HeaderLayout {
    HeaderLayout {
        version: *b"035",
        file_size: 112,
        map_off: 0,
        string_ids_size: 0,
        string_ids_off: 0,
        type_ids_size: 0,
        type_ids_off: 0,
        proto_ids_size: 0,
        proto_ids_off: 0,
        field_ids_size: 0,
        field_ids_off: 0,
        method_ids_size: 0,
        method_ids_off: 0,
        class_defs_size: 0,
        class_defs_off: 0,
        data_size: 0,
        data_off: 0,
    }
}

#[test]
fn header_emits_exactly_112_bytes() {
    let bytes = emit_header(&minimal_layout());
    assert_eq!(bytes.len(), 112);
}

#[test]
fn header_magic_and_version() {
    let bytes = emit_header(&minimal_layout());
    assert_eq!(&bytes[..4], b"dex\n");
    assert_eq!(&bytes[4..7], b"035");
    assert_eq!(bytes[7], 0x00, "null terminator");
}

#[test]
fn header_checksum_and_signature_are_placeholders() {
    let bytes = emit_header(&minimal_layout());
    assert_eq!(&bytes[8..12], &[0u8; 4], "checksum placeholder");
    assert_eq!(&bytes[12..32], &[0u8; 20], "signature placeholder");
}

#[test]
fn header_round_trips_via_parser() {
    let layout = HeaderLayout {
        version: *b"038",
        file_size: 0x1000,
        map_off: 0x0F00,
        string_ids_size: 10,
        string_ids_off: 0x70,
        type_ids_size: 5,
        type_ids_off: 0x98,
        proto_ids_size: 3,
        proto_ids_off: 0xAC,
        field_ids_size: 4,
        field_ids_off: 0xC8,
        method_ids_size: 6,
        method_ids_off: 0xE8,
        class_defs_size: 2,
        class_defs_off: 0x118,
        data_size: 0x300,
        data_off: 0x138,
    };
    let bytes = emit_header(&layout);
    let parsed = parse_header(&bytes);
    assert_eq!(version(&parsed), "038");
    assert_eq!(parsed.file_size, 0x1000);
    assert_eq!(parsed.header_size, 112);
    assert_eq!(parsed.endian_tag, 0x1234_5678);
    assert_eq!(parsed.link_size, 0);
    assert_eq!(parsed.link_off, 0);
    assert_eq!(parsed.map_off, 0x0F00);
    assert_eq!(parsed.string_ids_size, 10);
    assert_eq!(parsed.string_ids_off, 0x70);
    assert_eq!(parsed.type_ids_size, 5);
    assert_eq!(parsed.type_ids_off, 0x98);
    assert_eq!(parsed.proto_ids_size, 3);
    assert_eq!(parsed.proto_ids_off, 0xAC);
    assert_eq!(parsed.field_ids_size, 4);
    assert_eq!(parsed.field_ids_off, 0xC8);
    assert_eq!(parsed.method_ids_size, 6);
    assert_eq!(parsed.method_ids_off, 0xE8);
    assert_eq!(parsed.class_defs_size, 2);
    assert_eq!(parsed.class_defs_off, 0x118);
    assert_eq!(parsed.data_size, 0x300);
    assert_eq!(parsed.data_off, 0x138);
}

#[test]
fn header_all_supported_versions_round_trip() {
    for ver in [b"035", b"037", b"038", b"039", b"040", b"041"] {
        let mut layout = minimal_layout();
        layout.version = *ver;
        let bytes = emit_header(&layout);
        let parsed = parse_header(&bytes);
        assert_eq!(version(&parsed).as_bytes(), ver);
    }
}

fn synthesize_dex_bytes(file_size: u32) -> Vec<u8> {
    let mut layout = minimal_layout();
    layout.file_size = file_size;
    let mut bytes = emit_header(&layout);
    bytes.resize(file_size as usize, 0);
    bytes
}

#[test]
fn finalize_writes_nonzero_signature() {
    let mut bytes = synthesize_dex_bytes(200);
    finalize_checksums(&mut bytes).expect("well-formed");
    assert_ne!(&bytes[12..32], &[0u8; 20], "signature populated");
}

#[test]
fn finalize_writes_nonzero_checksum() {
    let mut bytes = synthesize_dex_bytes(200);
    finalize_checksums(&mut bytes).expect("well-formed");
    assert_ne!(&bytes[8..12], &[0u8; 4], "checksum populated");
}

#[test]
fn finalize_produces_bytes_the_parser_accepts() {
    let file_size = 256u32;
    let mut bytes = synthesize_dex_bytes(file_size);
    finalize_checksums(&mut bytes).expect("well-formed");
    let header = parse_header(&bytes);
    assert!(checksum_holds(&header, &bytes));
}

#[test]
fn finalize_is_deterministic() {
    let mut a = synthesize_dex_bytes(120);
    let mut b = a.clone();
    finalize_checksums(&mut a).expect("ok");
    finalize_checksums(&mut b).expect("ok");
    assert_eq!(a, b);
}

#[test]
fn finalize_sensitive_to_any_byte_change() {
    let mut a = synthesize_dex_bytes(200);
    let mut b = a.clone();
    b[100] = b[100].wrapping_add(1);
    finalize_checksums(&mut a).expect("ok");
    finalize_checksums(&mut b).expect("ok");
    assert_ne!(&a[8..12], &b[8..12], "Adler-32 distinguishes byte change");
    assert_ne!(&a[12..32], &b[12..32], "SHA-1 distinguishes byte change");
}

#[test]
fn finalize_rejects_too_short_input() {
    let mut short = vec![0u8; 30];
    let err = finalize_checksums(&mut short).unwrap_err();
    assert!(matches!(err, DexEmitError::OffsetOverflow { .. }));
}

#[test]
fn finalize_checksum_window_includes_signature() {
    let mut bytes = synthesize_dex_bytes(150);
    finalize_checksums(&mut bytes).expect("ok");
    let original_checksum = [bytes[8], bytes[9], bytes[10], bytes[11]];
    bytes[15] = bytes[15].wrapping_add(1);
    let header = parse_header(&bytes);
    assert!(
        !checksum_holds(&header, &bytes),
        "signature-change must break checksum — proves adler window covers signature bytes"
    );
    let _ = original_checksum;
}

#[test]
fn header_layout_field_offsets_match_spec() {
    let layout = HeaderLayout {
        string_ids_size: 0xDEAD_BEEF,
        ..minimal_layout()
    };
    let bytes = emit_header(&layout);
    assert_eq!(&bytes[56..60], &0xDEAD_BEEFu32.to_le_bytes());
    let layout2 = HeaderLayout {
        data_size: 0xCAFEu32,
        ..minimal_layout()
    };
    let bytes2 = emit_header(&layout2);
    assert_eq!(&bytes2[104..108], &0xCAFEu32.to_le_bytes());
}

#[test]
fn map_list_type_codes_match_spec() {
    assert_eq!(map_type::HEADER_ITEM, 0x0000);
    assert_eq!(map_type::STRING_ID_ITEM, 0x0001);
    assert_eq!(map_type::METHOD_HANDLE_ITEM, 0x0008);
    assert_eq!(map_type::MAP_LIST, 0x1000);
    assert_eq!(map_type::TYPE_LIST, 0x1001);
    assert_eq!(map_type::CLASS_DATA_ITEM, 0x2000);
    assert_eq!(map_type::CODE_ITEM, 0x2001);
    assert_eq!(map_type::ANNOTATION_DIRECTORY_ITEM, 0x2006);
}

fn minimal_header() -> DexHeader {
    let mut magic = [0u8; 8];
    magic[..4].copy_from_slice(b"dex\n");
    magic[4..7].copy_from_slice(b"035");
    DexHeader {
        magic,
        checksum: 0,
        signature: [0u8; 20],
        file_size: 0,
        header_size: 112,
        endian_tag: 0x1234_5678,
        link_size: 0,
        link_off: 0,
        map_off: 0,
        string_ids_size: 0,
        string_ids_off: 0,
        type_ids_size: 0,
        type_ids_off: 0,
        proto_ids_size: 0,
        proto_ids_off: 0,
        field_ids_size: 0,
        field_ids_off: 0,
        method_ids_size: 0,
        method_ids_off: 0,
        class_defs_size: 0,
        class_defs_off: 0,
        data_size: 0,
        data_off: 0,
    }
}

fn minimal_dexfile() -> DexFile {
    DexFile {
        string_data_offs: Vec::new(),
        header: minimal_header(),
        strings: Vec::new(),
        type_descriptors: Vec::new(),
        protos: Vec::new(),
        fields: Vec::new(),
        methods: Vec::new(),
        class_defs: Vec::new(),
        annotations: BTreeMap::new(),
        type_lists: BTreeMap::new(),
        class_datas: BTreeMap::new(),
        raw_class_data_bytes: BTreeMap::new(),
        code_items: BTreeMap::new(),
        annotation_sets: BTreeMap::new(),
        annotation_set_ref_lists: BTreeMap::new(),
        annotation_items: BTreeMap::new(),
        annotation_item_widths: BTreeMap::new(),
        encoded_arrays: BTreeMap::new(),
        encoded_array_widths: BTreeMap::new(),
        method_handles: Vec::new(),
        call_site_ids: Vec::new(),
        map_entries: Vec::new(),
        debug_info_raw_bytes: BTreeMap::new(),
        debug_info_section_layout: Vec::new(),
        annotation_set_section_layout: Vec::new(),
        input_checksums_canonical: true,
        parse_errors: Vec::new(),
    }
}

#[test]
fn emit_dex_empty_file_is_parseable() {
    let dex = minimal_dexfile();
    let bytes = emit_dex(&dex).expect("empty DEX should emit");
    let parsed = parse_dex(&bytes);
    assert_eq!(parsed.strings.len(), 0);
    assert_eq!(parsed.type_descriptors.len(), 0);
    assert_eq!(parsed.class_defs.len(), 0);
    assert_eq!(version(&parsed.header), "035");
    assert!(checksum_holds(&parsed.header, &bytes), "checksum valid");
}

#[test]
fn partial_ir_gate_distinguishes_completeness_from_conformance() {
    let mut dex = minimal_dexfile();
    assert!(emit_dex(&dex).is_ok(), "clean IR must emit");

    dex.parse_errors.push(ParseFailure {
        kind: ParseFailureKind::OutOfOrder { pool: PoolKind::MethodIds },
        offset: 1,
    });
    dex.parse_errors.push(ParseFailure {
        kind: ParseFailureKind::DuplicateClassDef,
        offset: 0,
    });
    assert!(
        emit_dex(&dex).is_ok(),
        "conformance anomalies (OutOfOrder/DuplicateClassDef) must not trip the PartialIR gate"
    );

    dex.parse_errors.push(ParseFailure {
        kind: ParseFailureKind::ClassData,
        offset: 0x100,
    });
    assert!(
        matches!(emit_dex(&dex), Err(DexEmitError::PartialIR { .. })),
        "a completeness failure (ClassData) must trip the PartialIR gate"
    );
    let mut cfg = EmitConfig::default();
    cfg.preserve_data_section_layout = true;
    assert!(
        matches!(
            emit_dex_with_config(&dex, &cfg).map(|_| ()),
            Err(DexEmitError::PartialIR { .. })
        ),
        "completeness must gate preserve mode too (preserve re-serializes IR)"
    );
}

#[test]
fn emit_dex_with_strings_round_trips_string_content() {
    let mut dex = minimal_dexfile();
    dex.strings = vec![
        DexString::from_decoded_str("Ljava/lang/Object;"),
        DexString::from_decoded_str("Ljava/lang/String;"),
        DexString::from_decoded_str("hello"),
    ];
    let bytes = emit_dex(&dex).expect("strings-only DEX should emit");
    let parsed = parse_dex(&bytes);
    assert_eq!(parsed.strings.len(), 3);
    assert_eq!(parsed.strings[0].as_str_lossy(), "Ljava/lang/Object;");
    assert_eq!(parsed.strings[1].as_str_lossy(), "Ljava/lang/String;");
    assert_eq!(parsed.strings[2].as_str_lossy(), "hello");
}

#[test]
fn emit_dex_with_types_round_trips_type_ids() {
    let mut dex = minimal_dexfile();
    dex.strings = vec![
        DexString::from_decoded_str("Ljava/lang/Object;"),
        DexString::from_decoded_str("V"),
        DexString::from_decoded_str("I"),
    ];
    dex.strings.sort_by(|a, b| a.raw_bytes().cmp(b.raw_bytes()));
    dex.type_descriptors = vec!["I".to_string(), "Ljava/lang/Object;".to_string()];
    let bytes = emit_dex(&dex).expect("types-only DEX should emit");
    let parsed = parse_dex(&bytes);
    assert_eq!(parsed.type_descriptors.len(), 2);
    assert!(parsed.type_descriptors.contains(&"I".to_string()));
    assert!(parsed.type_descriptors.contains(&"Ljava/lang/Object;".to_string()));
}

#[test]
fn emit_dex_proto_with_parameters_round_trips() {
    let mut dex = minimal_dexfile();
    dex.strings = vec![DexString::from_decoded_str("I"), DexString::from_decoded_str("V")];
    dex.type_descriptors = vec!["I".to_string(), "V".to_string()];
    dex.protos = vec![ProtoIdItem {
        shorty_idx: StringIdx(1),
        return_type_idx: TypeIdx(1),
        parameters_off: 0xBEEF,
    }];
    dex.type_lists.insert(0xBEEF, vec![TypeIdx(0)]);
    let bytes = emit_dex(&dex).expect("emit with type_list");
    let parsed = parse_dex(&bytes);
    assert_eq!(parsed.protos.len(), 1);
    assert_ne!(parsed.protos[0].parameters_off, 0, "params_off resolved to new layout");
    assert_eq!(parsed.type_lists.len(), 1);
    let params = parsed.type_lists.values().next().expect("one list");
    assert_eq!(params.as_slice(), &[TypeIdx(0)], "type_list content round-trips");
}

#[test]
fn emit_dex_class_with_interfaces_round_trips() {
    let mut dex = minimal_dexfile();
    dex.strings = vec![DexString::from_decoded_str("LA;"), DexString::from_decoded_str("LB;"), DexString::from_decoded_str("LC;")];
    dex.type_descriptors = vec!["LA;".to_string(), "LB;".to_string(), "LC;".to_string()];
    dex.class_defs = vec![ClassDefItem {
        class_idx: TypeIdx(0),
        access_flags: 0,
        superclass_idx: None,
        interfaces_off: 0xCAFE,
        source_file_idx: None,
        annotations_off: 0,
        class_data_off: 0,
        static_values_off: 0,
    }];
    dex.type_lists.insert(0xCAFE, vec![TypeIdx(1), TypeIdx(2)]);
    let bytes = emit_dex(&dex).expect("emit with interfaces");
    let parsed = parse_dex(&bytes);
    assert_eq!(parsed.class_defs.len(), 1);
    assert_ne!(parsed.class_defs[0].interfaces_off, 0, "interfaces_off resolved");
    assert_eq!(parsed.type_lists.len(), 1);
    let ifaces = parsed.type_lists.values().next().expect("one list");
    assert_eq!(ifaces.as_slice(), &[TypeIdx(1), TypeIdx(2)]);
}

#[test]
fn emit_dex_method_with_return_void_code_item_round_trips() {

    let mut dex = minimal_dexfile();
    dex.strings = vec![DexString::from_decoded_str("LA;"), DexString::from_decoded_str("V"), DexString::from_decoded_str("m")];
    dex.type_descriptors = vec!["LA;".to_string(), "V".to_string()];
    dex.protos = vec![ProtoIdItem {
        shorty_idx: StringIdx(1),
        return_type_idx: TypeIdx(1),
        parameters_off: 0,
    }];
    dex.methods = vec![MethodIdItem {
        class_idx: TypeIdx(0),
        proto_idx: ProtoIdx(0),
        name_idx: StringIdx(2),
    }];
    dex.class_defs = vec![ClassDefItem {
        class_idx: TypeIdx(0),
        access_flags: 0,
        superclass_idx: None,
        interfaces_off: 0,
        source_file_idx: None,
        annotations_off: 0,
        class_data_off: 0x500,
        static_values_off: 0,
    }];
    dex.class_datas.insert(
        0x500,
        ClassData {
            static_fields: Vec::new(),
            instance_fields: Vec::new(),
            direct_methods: vec![EncodedMethod {
                method_idx: MethodIdx(0),
                access_flags: 0x1,
                code_off: 0x600,
            }],
            virtual_methods: Vec::new(),
        },
    );
    dex.code_items.insert(
        0x600,
        CodeItem {
            registers_size: 1,
            ins_size: 0,
            outs_size: 0,
            debug_info_off: 0,
            instructions: vec![Instruction {
                addr: 0,
                op: Opcode::ReturnVoid,
                size: 1,
                dst: None,
                src: RegList::empty(),
                literal: 0,
                target: None,
                pool_idx: None,
            }],
            tries: Vec::new(),
            catch_handlers: Vec::new(),
            payloads: BTreeMap::new(),
            invariant_violations: Vec::new(),
        },
    );

    let bytes = emit_dex(&dex).expect("emit with method + code");
    let parsed = parse_dex(&bytes);
    assert_eq!(parsed.class_defs.len(), 1);
    assert_eq!(parsed.class_datas.len(), 1);
    let cd = parsed.class_datas.values().next().expect("one class_data");
    assert_eq!(cd.direct_methods.len(), 1);
    assert_eq!(cd.direct_methods[0].access_flags, 0x1);
    assert_eq!(parsed.code_items.len(), 1);
    let ci = parsed.code_items.values().next().expect("one code_item");
    assert_eq!(ci.registers_size, 1);
    assert_eq!(ci.instructions.len(), 1);
    assert_eq!(ci.instructions[0].op, Opcode::ReturnVoid);
    let _: Option<PoolIndex> = None;
}

#[test]
fn emit_dex_class_with_empty_class_data_round_trips() {
    let mut dex = minimal_dexfile();
    dex.strings = vec![DexString::from_decoded_str("LA;")];
    dex.type_descriptors = vec!["LA;".to_string()];
    dex.class_defs = vec![ClassDefItem {
        class_idx: TypeIdx(0),
        access_flags: 0,
        superclass_idx: None,
        interfaces_off: 0,
        source_file_idx: None,
        annotations_off: 0,
        class_data_off: 0x200,
        static_values_off: 0,
    }];
    dex.class_datas.insert(
        0x200,
        ClassData {
            static_fields: Vec::new(),
            instance_fields: Vec::new(),
            direct_methods: Vec::new(),
            virtual_methods: Vec::new(),
        },
    );
    let bytes = emit_dex(&dex).expect("emit with empty class_data");
    let parsed = parse_dex(&bytes);
    assert_eq!(parsed.class_defs.len(), 1);
    assert_ne!(parsed.class_defs[0].class_data_off, 0, "class_data_off resolved");
    assert_eq!(parsed.class_datas.len(), 1);
    let cd = parsed.class_datas.values().next().expect("one entry");
    assert_eq!(cd.static_fields.len(), 0);
    assert_eq!(cd.instance_fields.len(), 0);
    assert_eq!(cd.direct_methods.len(), 0);
    assert_eq!(cd.virtual_methods.len(), 0);
}

#[test]
fn emit_dex_produces_ascending_map_list() {
    let mut dex = minimal_dexfile();
    dex.strings = vec![DexString::from_decoded_str("a"), DexString::from_decoded_str("b")];
    dex.type_descriptors = vec!["a".to_string()];
    dex.class_defs = vec![ClassDefItem {
        class_idx: TypeIdx(0),
        access_flags: 0,
        superclass_idx: None,
        interfaces_off: 0,
        source_file_idx: None,
        annotations_off: 0,
        class_data_off: 0,
        static_values_off: 0,
    }];
    let bytes = emit_dex(&dex).expect("minimal class emits");
    let parsed = parse_dex(&bytes);
    assert_eq!(parsed.class_defs.len(), 1);
    assert_eq!(parsed.header.class_defs_size, 1);
}

#[test]
fn emit_dex_round_trips_header_version() {
    for ver in [b"035", b"037", b"038", b"039", b"040", b"041"] {
        let mut dex = minimal_dexfile();
        dex.header.magic[4..7].copy_from_slice(ver);
        let bytes = emit_dex(&dex).unwrap_or_else(|e| panic!("version {ver:?}: {}", e.message()));
        let parsed = parse_dex(&bytes);
        assert_eq!(version(&parsed.header).as_bytes(), ver);
    }
}

#[test]
fn emit_dex_rejects_inconsistent_ir() {
    let mut dex = minimal_dexfile();
    dex.strings = vec![DexString::from_decoded_str("a")];
    dex.type_descriptors = vec!["not_in_strings".to_string()];
    let err = emit_dex(&dex).unwrap_err();
    assert!(matches!(err, DexEmitError::UnrepresentableIR { .. }));
}

#[test]
fn emit_dex_output_has_correct_file_size_in_header() {
    let mut dex = minimal_dexfile();
    dex.strings = vec![DexString::from_decoded_str("x"), DexString::from_decoded_str("y")];
    let bytes = emit_dex(&dex).expect("ok");
    let parsed = parse_dex(&bytes);
    assert_eq!(
        parsed.header.file_size as usize,
        bytes.len(),
        "header.file_size matches actual output length"
    );
}

#[test]
fn emit_debug_info_section_roundtrips_raw_bytes() {
    let mut raw = BTreeMap::new();
    raw.insert(0x100, vec![0x0D, 0x00, 0x00]);
    raw.insert(0x200, vec![0x09, 0x01, 0x13, 0x02, 0x7C, 0x00]);

    let (blob, remap) = emit_debug_info_section(&raw).expect("emit");

    assert_eq!(
        blob,
        vec![0x0D, 0x00, 0x00, 0x09, 0x01, 0x13, 0x02, 0x7C, 0x00]
    );
    assert_eq!(remap.get(&0x100), Some(&0));
    assert_eq!(remap.get(&0x200), Some(&3));
}

#[test]
fn emit_debug_info_section_empty_map_is_empty_blob() {
    let empty = BTreeMap::new();
    let (blob, remap) = emit_debug_info_section(&empty).expect("ok");
    assert!(blob.is_empty());
    assert!(remap.is_empty());
}

#[test]
fn preserve_map_list_order_default_is_false() {
    let cfg = EmitConfig::default();
    assert!(!cfg.preserve_map_list_order);
}

/// The debug info is made up here: three items at scattered offsets, as a compiler would
/// write them. No file from a compiler is read.
#[test]
fn emit_debug_info_section_fixture_roundtrip() {
    let mut dex = minimal_dexfile();
    dex.debug_info_raw_bytes.insert(0x1A4, vec![0x01, 0x00, 0x07, 0x0E, 0x00]);
    dex.debug_info_raw_bytes.insert(0x1A9, vec![0x09, 0x01, 0x13, 0x02, 0x7C, 0x00]);
    dex.debug_info_raw_bytes.insert(0x1B0, vec![0x0D, 0x00, 0x00]);
    let (blob, remap) =
        emit_debug_info_section(&dex.debug_info_raw_bytes).expect("emit");
    assert_eq!(remap.len(), dex.debug_info_raw_bytes.len());
    assert_eq!(
        blob.len(),
        dex.debug_info_raw_bytes.values().map(|v| v.len()).sum::<usize>()
    );
    for (orig_off, local_off) in &remap {
        let raw = dex.debug_info_raw_bytes.get(orig_off).unwrap();
        let start = *local_off as usize;
        let end = start + raw.len();
        assert_eq!(&blob[start..end], raw.as_slice());
    }
}

#[test]
fn alignment_section_map_type_codes_round_trip() {
    for section in [
        AlignmentSection::CodeItem,
        AlignmentSection::AnnotationSet,
        AlignmentSection::AnnotationSetRefList,
        AlignmentSection::AnnotationDirectory,
        AlignmentSection::TypeList,
        AlignmentSection::MapList,
    ] {
        assert!(
            section.map_type_code().is_some(),
            "AlignmentSection::{section:?} must map to a DEX map type code"
        );
    }
}

#[test]
fn input_section_offset_returns_map_entry_offset() {
    let mut dex = minimal_dexfile();
    dex.map_entries = vec![
        MapEntry { type_code: 0x2001, size: 1, offset: 1000 },
        MapEntry { type_code: 0x1003, size: 1, offset: 2000 },
        MapEntry { type_code: 0x1002, size: 1, offset: 3000 },
        MapEntry { type_code: 0x2006, size: 1, offset: 4000 },
        MapEntry { type_code: 0x1001, size: 1, offset: 5000 },
        MapEntry { type_code: 0x1000, size: 1, offset: 6000 },
    ];
    assert_eq!(input_section_offset(&dex, AlignmentSection::CodeItem), Some(1000));
    assert_eq!(input_section_offset(&dex, AlignmentSection::AnnotationSet), Some(2000));
    assert_eq!(
        input_section_offset(&dex, AlignmentSection::AnnotationSetRefList),
        Some(3000)
    );
    assert_eq!(
        input_section_offset(&dex, AlignmentSection::AnnotationDirectory),
        Some(4000)
    );
    assert_eq!(input_section_offset(&dex, AlignmentSection::TypeList), Some(5000));
    assert_eq!(input_section_offset(&dex, AlignmentSection::MapList), Some(6000));
}

#[test]
fn input_section_offset_returns_none_for_missing_map_entry() {
    let dex = minimal_dexfile();
    assert!(dex.map_entries.is_empty());
    for section in [
        AlignmentSection::CodeItem,
        AlignmentSection::AnnotationSet,
        AlignmentSection::AnnotationSetRefList,
        AlignmentSection::AnnotationDirectory,
        AlignmentSection::TypeList,
        AlignmentSection::MapList,
    ] {
        assert_eq!(
            input_section_offset(&dex, section),
            None,
            "expected None for AlignmentSection::{section:?} when map_entries empty"
        );
    }
}

fn mi(type_code: u16, offset: u32) -> MapItem {
    MapItem { type_code, size: 1, offset }
}

fn me(type_code: u16, offset: u32) -> MapEntry {
    MapEntry { type_code, size: 1, offset }
}

#[test]
fn map_list_order_diverged_false_on_matching_order() {
    let emit = vec![mi(0x0000, 0), mi(0x0001, 100), mi(0x0002, 200)];
    let input = vec![me(0x0000, 0), me(0x0001, 100), me(0x0002, 200)];
    assert!(!map_list_order_diverged(&emit, &input));
}

#[test]
fn map_list_order_diverged_true_on_swapped_order() {
    let emit = vec![mi(0x0000, 0), mi(0x0001, 100), mi(0x0002, 200)];
    let input = vec![me(0x0000, 0), me(0x0002, 200), me(0x0001, 100)];
    assert!(map_list_order_diverged(&emit, &input));
}

#[test]
fn map_list_order_diverged_false_when_input_empty() {
    let emit = vec![mi(0x0000, 0), mi(0x0001, 100)];
    let input: Vec<MapEntry> = vec![];
    assert!(!map_list_order_diverged(&emit, &input));
}

#[test]
fn map_list_order_diverged_ignores_emit_only_types() {
    let emit = vec![mi(0x0000, 0), mi(0x0001, 100), mi(0x0003, 300)];
    let input = vec![me(0x0000, 0), me(0x0001, 100)];
    assert!(!map_list_order_diverged(&emit, &input));
}

#[test]
fn min_emit_width_byte_is_always_one() {
    assert_eq!(encoded_value_min_emit_width(&EncodedValue::Byte(0)), Some(1));
    assert_eq!(encoded_value_min_emit_width(&EncodedValue::Byte(127)), Some(1));
    assert_eq!(encoded_value_min_emit_width(&EncodedValue::Byte(-128)), Some(1));
}

#[test]
fn min_emit_width_int_uses_min_signed_bytes() {
    assert_eq!(encoded_value_min_emit_width(&EncodedValue::Int(0)), Some(1));
    assert_eq!(encoded_value_min_emit_width(&EncodedValue::Int(127)), Some(1));
    assert_eq!(encoded_value_min_emit_width(&EncodedValue::Int(128)), Some(2));
    assert_eq!(
        encoded_value_min_emit_width(&EncodedValue::Int(0x7FFFFFFF)),
        Some(4)
    );
}

#[test]
fn min_emit_width_float_double_full_width() {
    assert_eq!(encoded_value_min_emit_width(&EncodedValue::Float(1.0f32.to_bits())), Some(4));
    assert_eq!(encoded_value_min_emit_width(&EncodedValue::Double(1.0f64.to_bits())), Some(8));
}

#[test]
fn min_emit_width_variable_returns_none() {
    assert_eq!(encoded_value_min_emit_width(&EncodedValue::Null), None);
    assert_eq!(encoded_value_min_emit_width(&EncodedValue::Boolean(true)), None);
    assert_eq!(encoded_value_min_emit_width(&EncodedValue::Array(vec![])), None);
}

#[test]
fn min_emit_width_method_type_handle_use_min_unsigned_bytes() {
    assert_eq!(
        encoded_value_min_emit_width(&EncodedValue::MethodType(ProtoIdx(0))),
        Some(1)
    );
    assert_eq!(
        encoded_value_min_emit_width(&EncodedValue::MethodType(ProtoIdx(0xFFFF))),
        Some(2)
    );
    assert_eq!(
        encoded_value_min_emit_width(&EncodedValue::MethodHandle(MethodHandleIdx(0))),
        Some(1)
    );
    assert_eq!(
        encoded_value_min_emit_width(&EncodedValue::MethodHandle(MethodHandleIdx(0xFFFFFF))),
        Some(3)
    );
}

#[test]
fn count_encoded_value_width_divergences_zero_on_minimal() {
    let dex = minimal_dexfile();
    assert_eq!(count_encoded_value_width_divergences(&dex), 0);
}

#[test]
fn count_encoded_value_width_divergences_fires_on_wider_input() {
    let mut dex = minimal_dexfile();
    dex.encoded_arrays.insert(0x100, vec![EncodedValue::Int(0)]);
    dex.encoded_array_widths.insert(0x100, vec![4]);
    assert_eq!(count_encoded_value_width_divergences(&dex), 1);
}

#[test]
fn count_encoded_value_width_divergences_zero_on_matching_width() {
    let mut dex = minimal_dexfile();
    dex.encoded_arrays.insert(0x100, vec![EncodedValue::Int(0)]);
    dex.encoded_array_widths.insert(0x100, vec![1]);
    assert_eq!(count_encoded_value_width_divergences(&dex), 0);
}

#[test]
fn count_encoded_value_width_divergences_skips_variable_length() {
    let mut dex = minimal_dexfile();
    dex.encoded_arrays
        .insert(0x100, vec![EncodedValue::Array(vec![])]);
    dex.encoded_array_widths.insert(0x100, vec![4]);
    assert_eq!(count_encoded_value_width_divergences(&dex), 0);
}

#[test]
fn count_encoded_value_width_divergences_handles_missing_widths_table() {
    let mut dex = minimal_dexfile();
    dex.encoded_arrays.insert(0x100, vec![EncodedValue::Int(0)]);
    assert_eq!(count_encoded_value_width_divergences(&dex), 0);
}

#[test]
fn emit_at_width_int_wider_than_min_writes_requested_bytes() {
    let mut out = Vec::new();
    assert!(emit_encoded_value_at_width(&mut out, &EncodedValue::Int(0), 4));
    assert_eq!(out, vec![0x64, 0, 0, 0, 0]);
}

#[test]
fn emit_at_width_int_too_narrow_returns_false_value_fits_defense() {
    let mut out = Vec::new();
    assert!(
        !emit_encoded_value_at_width(&mut out, &EncodedValue::Int(0x1_0000), 1),
        "width=1 cannot represent Int(0x10000) — must return false"
    );
    assert!(out.is_empty(), "fallback must not have written anything");
}

#[test]
fn emit_at_width_int_exceeding_type_max_returns_false() {
    let mut out = Vec::new();
    assert!(!emit_encoded_value_at_width(&mut out, &EncodedValue::Int(0), 8));
    assert!(out.is_empty());
}

#[test]
fn emit_at_width_array_returns_false_variable_shape() {
    let mut out = Vec::new();
    assert!(!emit_encoded_value_at_width(
        &mut out,
        &EncodedValue::Array(vec![]),
        1
    ));
}

#[test]
fn emit_at_width_byte_returns_false_fixed_width() {
    let mut out = Vec::new();
    assert!(!emit_encoded_value_at_width(&mut out, &EncodedValue::Byte(0), 1));
}

#[test]
fn emit_at_width_out_of_range_returns_false() {
    let mut out = Vec::new();
    assert!(!emit_encoded_value_at_width(&mut out, &EncodedValue::Int(0), 0));
    assert!(!emit_encoded_value_at_width(&mut out, &EncodedValue::Int(0), 9));
}

#[test]
fn emit_encoded_array_with_widths_preserves_wider_int() {
    let values = vec![EncodedValue::Int(0), EncodedValue::Int(0)];
    let widths = [4u8, 4];
    let preserved = emit_encoded_array_with_widths(&values, Some(&widths))
        .expect("preserved emit");
    let canonical = emit_encoded_array_with_widths(&values, None)
        .expect("canonical emit");
    assert_eq!(preserved.len(), 1 + 2 * 5, "1B uleb + 2 × (1B header + 4B payload)");
    assert_eq!(canonical.len(), 1 + 2 * 2, "1B uleb + 2 × (1B header + 1B payload)");
    assert!(
        preserved.len() > canonical.len(),
        "preserved widths produce strictly more bytes"
    );
}

#[test]
fn derive_applied_transformations_skips_reencoded_under_preserve() {
    let mut dex = minimal_dexfile();
    dex.encoded_arrays.insert(0x100, vec![EncodedValue::Int(0)]);
    dex.encoded_array_widths.insert(0x100, vec![4]);
    let default_xforms = derive_applied_transformations(&dex, &EmitConfig::default());
    let preserve_xforms = derive_applied_transformations(
        &dex,
        &EmitConfig { preserve_encoded_value_width: true, ..Default::default() },
    );
    assert!(
        default_xforms
            .iter()
            .any(|t| matches!(t, CanonicalTransform::EncodedValueReencoded { .. })),
        "default config must report EncodedValueReencoded on wider input"
    );
    assert!(
        !preserve_xforms
            .iter()
            .any(|t| matches!(t, CanonicalTransform::EncodedValueReencoded { .. })),
        "preserve config must NOT report EncodedValueReencoded"
    );
}
