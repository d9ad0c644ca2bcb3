//! Annotation directories: the annotations of a class and of its members.
use std::collections::BTreeMap;
use vstd::prelude::*;

use crate::annotation::AnnotationDirectoryItem;
use crate::bytes::{le32, push_u32};
use crate::collections::{entries, sorted_keys};
use crate::emit_dex::error::DexEmitError;
use crate::emit_dex::sections::{
    all_resolved, gives_section, laid_out, nothing, open_item, resolve, resolve_all, resolved,
    section, section_overflow, Section, SectionBytes,
};
use crate::emit_dex::written::gives;

verus! {

/// The part of a directory that an offset belongs to.
#[derive(Debug, Clone, Copy, PartialEq, Eq, Structural)]
pub enum DirectoryPart {
    Class,
    Field,
    Method,
    Parameter,
}

/// The texts of an error about an offset of a directory: what is missing, the
/// section, what overflows.
pub struct Labels {
    pub missing: &'static str,
    pub section: &'static str,
    pub context: &'static str,
}

/// The texts for a part, with (`in_place`) or without items kept where they were
/// found.
pub open spec fn part_labels(part: DirectoryPart, in_place: bool) -> Labels {
    if in_place {
        match part {
            DirectoryPart::Class => Labels {
                missing: "annotation_directory.class_annotations_off references missing annotation_set",
                section: "annotation_directory.class_annotations_off",
                context: "offset overflow",
            },
            DirectoryPart::Field => Labels {
                missing: "annotation_directory.field references missing annotation_set",
                section: "annotation_directory.field.annotations_off",
                context: "overflow",
            },
            DirectoryPart::Method => Labels {
                missing: "annotation_directory.method references missing annotation_set",
                section: "annotation_directory.method.annotations_off",
                context: "overflow",
            },
            DirectoryPart::Parameter => Labels {
                missing: "annotation_directory.param references missing annotation_set_ref_list",
                section: "annotation_directory.param.annotations_off",
                context: "overflow",
            },
        }
    } else {
        match part {
            DirectoryPart::Parameter => Labels {
                missing: "annotation_directory parameters_off references annotation_set_ref_list not in DexFile.annotation_set_ref_lists",
                section: "annotation_directory.parameters_off",
                context: "remapped annotation_set_ref_list offset exceeds u32",
            },
            _ => Labels {
                missing: "annotation_directory references annotation_set not in DexFile.annotation_sets",
                section: "annotation_directory.annotations_off",
                context: "remapped annotation_set offset exceeds u32",
            },
        }
    }
}

fn labels(part: DirectoryPart, in_place: bool) -> (r: Labels)
    ensures
        r == part_labels(part, in_place),
{
    if in_place {
        match part {
            DirectoryPart::Class => Labels {
                missing: "annotation_directory.class_annotations_off references missing annotation_set",
                section: "annotation_directory.class_annotations_off",
                context: "offset overflow",
            },
            DirectoryPart::Field => Labels {
                missing: "annotation_directory.field references missing annotation_set",
                section: "annotation_directory.field.annotations_off",
                context: "overflow",
            },
            DirectoryPart::Method => Labels {
                missing: "annotation_directory.method references missing annotation_set",
                section: "annotation_directory.method.annotations_off",
                context: "overflow",
            },
            DirectoryPart::Parameter => Labels {
                missing: "annotation_directory.param references missing annotation_set_ref_list",
                section: "annotation_directory.param.annotations_off",
                context: "overflow",
            },
        }
    } else {
        match part {
            DirectoryPart::Parameter => Labels {
                missing: "annotation_directory parameters_off references annotation_set_ref_list not in DexFile.annotation_set_ref_lists",
                section: "annotation_directory.parameters_off",
                context: "remapped annotation_set_ref_list offset exceeds u32",
            },
            _ => Labels {
                missing: "annotation_directory references annotation_set not in DexFile.annotation_sets",
                section: "annotation_directory.annotations_off",
                context: "remapped annotation_set offset exceeds u32",
            },
        }
    }
}

/// The first `n` pairs of an index and an offset.
pub open spec fn pairs(idxs: Seq<u32>, offs: Seq<u32>, n: nat) -> Seq<u8>
    decreases n,
{
    if n == 0 {
        Seq::empty()
    } else {
        pairs(idxs, offs, (n - 1) as nat) + le32(idxs[n - 1]) + le32(offs[n - 1])
    }
}

pub open spec fn field_idxs(dir: AnnotationDirectoryItem) -> Seq<u32> {
    Seq::new(dir.fields@.len(), |i: int| dir.fields@[i].field_idx.0)
}

pub open spec fn field_offs(dir: AnnotationDirectoryItem) -> Seq<u32> {
    Seq::new(dir.fields@.len(), |i: int| dir.fields@[i].annotations_off)
}

pub open spec fn method_idxs(dir: AnnotationDirectoryItem) -> Seq<u32> {
    Seq::new(dir.methods@.len(), |i: int| dir.methods@[i].method_idx.0)
}

pub open spec fn method_offs(dir: AnnotationDirectoryItem) -> Seq<u32> {
    Seq::new(dir.methods@.len(), |i: int| dir.methods@[i].annotations_off)
}

pub open spec fn param_idxs(dir: AnnotationDirectoryItem) -> Seq<u32> {
    Seq::new(dir.parameters@.len(), |i: int| dir.parameters@[i].method_idx.0)
}

pub open spec fn param_offs(dir: AnnotationDirectoryItem) -> Seq<u32> {
    Seq::new(dir.parameters@.len(), |i: int| dir.parameters@[i].annotations_off)
}

/// A directory whose offsets are known: the class offset, three lengths, then the
/// pairs for fields, methods and parameters.
pub open spec fn directory_bytes(
    dir: AnnotationDirectoryItem,
    class_abs: u32,
    fields_abs: Seq<u32>,
    methods_abs: Seq<u32>,
    params_abs: Seq<u32>,
) -> Result<Seq<u8>, DexEmitError> {
    if dir.fields@.len() > u32::MAX {
        Err(
            DexEmitError::SizeOverflow {
                layer: "annotation_directory",
                context: "fields_size exceeds u32",
            },
        )
    } else if dir.methods@.len() > u32::MAX {
        Err(
            DexEmitError::SizeOverflow {
                layer: "annotation_directory",
                context: "methods_size exceeds u32",
            },
        )
    } else if dir.parameters@.len() > u32::MAX {
        Err(
            DexEmitError::SizeOverflow {
                layer: "annotation_directory",
                context: "parameters_size exceeds u32",
            },
        )
    } else {
        Ok(
            le32(class_abs) + le32(dir.fields@.len() as u32) + le32(dir.methods@.len() as u32)
                + le32(dir.parameters@.len() as u32) + pairs(
                field_idxs(dir),
                fields_abs,
                dir.fields@.len(),
            ) + pairs(method_idxs(dir), methods_abs, dir.methods@.len()) + pairs(
                param_idxs(dir),
                params_abs,
                dir.parameters@.len(),
            ),
        )
    }
}

/// Where annotation sets and lists of them have moved to.
pub struct Moved {
    pub set_base: u32,
    pub set_remap: Map<u32, u32>,
    pub list_base: u32,
    pub list_remap: Map<u32, u32>,
}

/// The places of the offsets of one part of a directory.
pub open spec fn part_offs(
    offs: Seq<u32>,
    base: u32,
    remap: Map<u32, u32>,
    l: Labels,
) -> Result<Seq<u32>, DexEmitError> {
    all_resolved(offs, base, remap, l.missing, l.section, l.context, 0, Seq::empty())
}

/// A directory with the places of its annotation sets.
pub open spec fn directory_part(
    dir: AnnotationDirectoryItem,
    to: Moved,
    in_place: bool,
) -> Result<Seq<u8>, DexEmitError> {
    let l = part_labels(DirectoryPart::Class, in_place);
    match resolved(
        dir.class_annotations_off,
        to.set_base,
        to.set_remap,
        l.missing,
        l.section,
        l.context,
    ) {
        Err(e) => Err(e),
        Ok(class_abs) => match part_offs(
            field_offs(dir),
            to.set_base,
            to.set_remap,
            part_labels(DirectoryPart::Field, in_place),
        ) {
            Err(e) => Err(e),
            Ok(fields_abs) => match part_offs(
                method_offs(dir),
                to.set_base,
                to.set_remap,
                part_labels(DirectoryPart::Method, in_place),
            ) {
                Err(e) => Err(e),
                Ok(methods_abs) => match part_offs(
                    param_offs(dir),
                    to.list_base,
                    to.list_remap,
                    part_labels(DirectoryPart::Parameter, in_place),
                ) {
                    Err(e) => Err(e),
                    Ok(params_abs) => directory_bytes(
                        dir,
                        class_abs,
                        fields_abs,
                        methods_abs,
                        params_abs,
                    ),
                },
            },
        },
    }
}

/// As many offsets are resolved as there are.
pub proof fn resolved_len(
    offs: Seq<u32>,
    base: u32,
    remap: Map<u32, u32>,
    l: Labels,
    i: nat,
    acc: Seq<u32>,
)
    requires
        i <= offs.len(),
    ensures
        all_resolved(offs, base, remap, l.missing, l.section, l.context, i, acc) matches Ok(s)
            ==> s.len() == acc.len() + offs.len() - i,
    decreases offs.len() - i,
{
    if i < offs.len() {
        match resolved(offs[i as int], base, remap, l.missing, l.section, l.context) {
            Err(_) => {},
            Ok(abs) => resolved_len(offs, base, remap, l, i + 1, acc.push(abs)),
        }
    }
}

fn resolve_part(
    offs: &Vec<u32>,
    base: u32,
    remap: &BTreeMap<u32, u32>,
    part: DirectoryPart,
    in_place: bool,
) -> (r: Result<Vec<u32>, DexEmitError>)
    ensures
        match part_offs(offs@, base, remap@, part_labels(part, in_place)) {
            Ok(s) => r matches Ok(v) && v@ == s && s.len() == offs@.len(),
            Err(e) => r == Err::<Vec<u32>, DexEmitError>(e),
        },
{
    let l = labels(part, in_place);
    proof {
        resolved_len(offs@, base, remap@, l, 0, Seq::empty());
    }
    resolve_all(offs.as_slice(), base, remap, l.missing, l.section, l.context)
}

fn push_pairs(out: &mut Vec<u8>, idxs: &Vec<u32>, offs: &Vec<u32>)
    requires
        idxs@.len() == offs@.len(),
    ensures
        final(out)@ == old(out)@ + pairs(idxs@, offs@, idxs@.len()),
{
    let mut i: usize = 0;
    while i < idxs.len()
        invariant
            i <= idxs@.len() == offs@.len(),
            out@ =~= old(out)@ + pairs(idxs@, offs@, i as nat),
        decreases idxs@.len() - i,
    {
        push_u32(out, idxs[i]);
        push_u32(out, offs[i]);
        i = i + 1;
    }
}

/// The member indices and offsets of a directory.
struct Columns {
    field_idxs: Vec<u32>,
    field_offs: Vec<u32>,
    method_idxs: Vec<u32>,
    method_offs: Vec<u32>,
    param_idxs: Vec<u32>,
    param_offs: Vec<u32>,
}

fn columns(dir: &AnnotationDirectoryItem) -> (r: Columns)
    ensures
        r.field_idxs@ == field_idxs(*dir),
        r.field_offs@ == field_offs(*dir),
        r.method_idxs@ == method_idxs(*dir),
        r.method_offs@ == method_offs(*dir),
        r.param_idxs@ == param_idxs(*dir),
        r.param_offs@ == param_offs(*dir),
{
    let mut c = Columns {
        field_idxs: Vec::new(),
        field_offs: Vec::new(),
        method_idxs: Vec::new(),
        method_offs: Vec::new(),
        param_idxs: Vec::new(),
        param_offs: Vec::new(),
    };
    let mut i: usize = 0;
    while i < dir.fields.len()
        invariant
            i <= dir.fields@.len(),
            c.field_idxs@ =~= field_idxs(*dir).take(i as int),
            c.field_offs@ =~= field_offs(*dir).take(i as int),
            c.method_idxs@.len() == 0,
            c.method_offs@.len() == 0,
            c.param_idxs@.len() == 0,
            c.param_offs@.len() == 0,
        decreases dir.fields@.len() - i,
    {
        c.field_idxs.push(dir.fields[i].field_idx.0);
        c.field_offs.push(dir.fields[i].annotations_off);
        i = i + 1;
    }
    let mut i: usize = 0;
    while i < dir.methods.len()
        invariant
            i <= dir.methods@.len(),
            c.field_idxs@ =~= field_idxs(*dir),
            c.field_offs@ =~= field_offs(*dir),
            c.method_idxs@ =~= method_idxs(*dir).take(i as int),
            c.method_offs@ =~= method_offs(*dir).take(i as int),
            c.param_idxs@.len() == 0,
            c.param_offs@.len() == 0,
        decreases dir.methods@.len() - i,
    {
        c.method_idxs.push(dir.methods[i].method_idx.0);
        c.method_offs.push(dir.methods[i].annotations_off);
        i = i + 1;
    }
    let mut i: usize = 0;
    while i < dir.parameters.len()
        invariant
            i <= dir.parameters@.len(),
            c.field_idxs@ =~= field_idxs(*dir),
            c.field_offs@ =~= field_offs(*dir),
            c.method_idxs@ =~= method_idxs(*dir),
            c.method_offs@ =~= method_offs(*dir),
            c.param_idxs@ =~= param_idxs(*dir).take(i as int),
            c.param_offs@ =~= param_offs(*dir).take(i as int),
        decreases dir.parameters@.len() - i,
    {
        c.param_idxs.push(dir.parameters[i].method_idx.0);
        c.param_offs.push(dir.parameters[i].annotations_off);
        i = i + 1;
    }
    assert(c.param_idxs@ =~= param_idxs(*dir));
    assert(c.param_offs@ =~= param_offs(*dir));
    c
}

/// A directory with the places of its annotation sets.
pub fn emit_annotation_directory_bytes(
    dir: &AnnotationDirectoryItem,
    set_base: u32,
    set_remap: &BTreeMap<u32, u32>,
    ref_list_base: u32,
    ref_list_remap: &BTreeMap<u32, u32>,
    in_place: bool,
) -> (r: Result<Vec<u8>, DexEmitError>)
    ensures
        gives(
            r,
            directory_part(
                *dir,
                (Moved {
                    set_base,
                    set_remap: set_remap@,
                    list_base: ref_list_base,
                    list_remap: ref_list_remap@,
                }),
                in_place,
            ),
        ),
{
    let c = columns(dir);
    let l = labels(DirectoryPart::Class, in_place);
    let class_abs: u32 = resolve(
        dir.class_annotations_off,
        set_base,
        set_remap,
        l.missing,
        l.section,
        l.context,
    )?;
    let fields_abs = resolve_part(
        &c.field_offs,
        set_base,
        set_remap,
        DirectoryPart::Field,
        in_place,
    )?;
    let methods_abs = resolve_part(
        &c.method_offs,
        set_base,
        set_remap,
        DirectoryPart::Method,
        in_place,
    )?;
    let params_abs = resolve_part(
        &c.param_offs,
        ref_list_base,
        ref_list_remap,
        DirectoryPart::Parameter,
        in_place,
    )?;
    if dir.fields.len() > u32::MAX as usize {
        return Err(
            DexEmitError::SizeOverflow {
                layer: "annotation_directory",
                context: "fields_size exceeds u32",
            },
        );
    }
    if dir.methods.len() > u32::MAX as usize {
        return Err(
            DexEmitError::SizeOverflow {
                layer: "annotation_directory",
                context: "methods_size exceeds u32",
            },
        );
    }
    if dir.parameters.len() > u32::MAX as usize {
        return Err(
            DexEmitError::SizeOverflow {
                layer: "annotation_directory",
                context: "parameters_size exceeds u32",
            },
        );
    }
    let mut out: Vec<u8> = Vec::new();
    push_u32(&mut out, class_abs);
    push_u32(&mut out, dir.fields.len() as u32);
    push_u32(&mut out, dir.methods.len() as u32);
    push_u32(&mut out, dir.parameters.len() as u32);
    push_pairs(&mut out, &c.field_idxs, &fields_abs);
    push_pairs(&mut out, &c.method_idxs, &methods_abs);
    push_pairs(&mut out, &c.param_idxs, &params_abs);
    assert(out@ =~= directory_bytes(*dir, class_abs, fields_abs@, methods_abs@, params_abs@)->Ok_0);
    Ok(out)
}

/// The parts of the annotation-directory section.
pub open spec fn annotation_directory_parts(
    items: Map<u32, AnnotationDirectoryItem>,
    to: Moved,
) -> Seq<Result<Seq<u8>, DexEmitError>> {
    let keys = sorted_keys(items);
    Seq::new(keys.len(), |i: int| directory_part(items[keys[i]], to, false))
}

/// The annotation-directory section.
pub open spec fn annotation_directory_section(
    items: Map<u32, AnnotationDirectoryItem>,
    to: Moved,
) -> Result<Section, DexEmitError> {
    section(
        sorted_keys(items),
        annotation_directory_parts(items, to),
        4,
        section_overflow(
            "annotation_directory_section",
            "annotation_directory blob exceeds u32 byte offset",
        ),
    )
}

/// The annotation-directory section.
pub fn emit_annotation_directory_section(
    items: &BTreeMap<u32, AnnotationDirectoryItem>,
    set_base: u32,
    set_remap: &BTreeMap<u32, u32>,
    ref_list_base: u32,
    ref_list_remap: &BTreeMap<u32, u32>,
) -> (r: Result<SectionBytes, DexEmitError>)
    ensures
        gives_section(
            r,
            annotation_directory_section(
                items@,
                (Moved {
                    set_base,
                    set_remap: set_remap@,
                    list_base: ref_list_base,
                    list_remap: ref_list_remap@,
                }),
            ),
        ),
{
    let ghost to = Moved {
        set_base,
        set_remap: set_remap@,
        list_base: ref_list_base,
        list_remap: ref_list_remap@,
    };
    let ghost whole = annotation_directory_section(items@, to);
    let ghost keys = sorted_keys(items@);
    let ghost parts = annotation_directory_parts(items@, to);
    let over = DexEmitError::OffsetOverflow {
        section: "annotation_directory_section",
        context: "annotation_directory blob exceeds u32 byte offset",
    };
    let mut blob: Vec<u8> = Vec::new();
    let mut remap: BTreeMap<u32, u32> = BTreeMap::new();
    let list = entries(items);
    assert(Section { blob: blob@, remap: remap@ } =~= nothing());
    let mut i: usize = 0;
    while i < list.len()
        invariant
            i <= list@.len() == keys.len(),
            keys == sorted_keys(items@),
            parts == annotation_directory_parts(items@, to),
            to == (Moved {
                set_base,
                set_remap: set_remap@,
                list_base: ref_list_base,
                list_remap: ref_list_remap@,
            }),
            forall|i: int|
                #![trigger list@[i]]
                0 <= i < list@.len() ==> list@[i].0 == keys[i] && items@[keys[i]] == *list@[i].1,
            over == section_overflow(
                "annotation_directory_section",
                "annotation_directory blob exceeds u32 byte offset",
            ),
            whole == annotation_directory_section(items@, to),
            whole == laid_out(
                keys,
                parts,
                4,
                over,
                i as nat,
                Section { blob: blob@, remap: remap@ },
            ),
        decreases list@.len() - i,
    {
        let entry: (u32, &AnnotationDirectoryItem) = list[i];
        assert(list@[i as int].0 == keys[i as int]);
        open_item(&mut blob, &mut remap, entry.0, 4, over)?;
        let ghost start = blob@;
        let item = emit_annotation_directory_bytes(
            entry.1,
            set_base,
            set_remap,
            ref_list_base,
            ref_list_remap,
            false,
        )?;
        blob.extend_from_slice(item.as_slice());
        assert(blob@ =~= start + parts[i as int]->Ok_0);
        i = i + 1;
    }
    Ok((blob, remap))
}

} // verus!
