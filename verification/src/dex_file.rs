//! The in-memory form of a DEX file.
use std::collections::BTreeMap;
use vstd::prelude::*;

use crate::annotation::{AnnotationDirectoryItem, AnnotationItem, EncodedValue};
use crate::collections::bound;
use crate::decode::{ClassData, CodeItem};
use crate::dex_string::DexString;
use crate::header::DexHeader;
use crate::ids::{
    ClassDefItem, FieldIdItem, FieldIdx, MethodIdItem, MethodIdx, ProtoIdItem, ProtoIdx, StringIdx,
    TypeIdx,
};

verus! {

/// An id pool, as named in parse failures.
#[derive(Debug, Clone, Copy, PartialEq, Eq, Structural)]
pub enum PoolKind {
    StringIds,
    TypeIds,
    ProtoIds,
    FieldIds,
    MethodIds,
}

/// What went wrong while a file was read.
#[derive(Debug, Clone, Copy, PartialEq, Eq, Structural)]
pub enum ParseFailureKind {
    /// A pool is not in its prescribed order.
    OutOfOrder { pool: PoolKind },
    /// Two class definitions name the same class.
    DuplicateClassDef,
    /// A class is defined before its superclass or an interface of it.
    NonTopologicalClassOrder,
    /// Bits that must be zero are not.
    ReservedBits,
    /// A type list was dropped.
    TypeList,
    /// A class-data item was dropped.
    ClassData,
    /// A code item was dropped.
    CodeItem,
    /// A debug-info item was dropped.
    DebugInfo,
    /// An annotation structure was dropped.
    Annotation,
    /// An encoded array was dropped.
    EncodedArray,
}

impl ParseFailureKind {
    /// Whether data was lost, as opposed to being present but not conformant.
    pub open spec fn loses_data(self) -> bool {
        match self {
            ParseFailureKind::OutOfOrder { .. } => false,
            ParseFailureKind::DuplicateClassDef => false,
            ParseFailureKind::NonTopologicalClassOrder => false,
            ParseFailureKind::ReservedBits => false,
            _ => true,
        }
    }

    /// Whether data was lost, as opposed to being present but not conformant.
    pub fn is_completeness(self) -> (r: bool)
        ensures
            r == self.loses_data(),
    {
        match self {
            ParseFailureKind::OutOfOrder { .. } => false,
            ParseFailureKind::DuplicateClassDef => false,
            ParseFailureKind::NonTopologicalClassOrder => false,
            ParseFailureKind::ReservedBits => false,
            _ => true,
        }
    }
}

/// A failure met while a file was read, and where.
#[derive(Debug, Clone, Copy, PartialEq, Eq, Structural)]
pub struct ParseFailure {
    pub kind: ParseFailureKind,
    pub offset: u32,
}

/// An entry of the map list that was read.
#[derive(Debug, Clone, Copy, PartialEq, Eq, Structural)]
pub struct MapEntry {
    pub type_code: u16,
    pub size: u32,
    pub offset: u32,
}

/// A method handle.
#[derive(Debug, Clone, Copy, PartialEq, Eq, Structural)]
pub struct MethodHandleItem {
    pub kind: u16,
    pub field_or_method_id: u16,
}

/// What a stretch of a section was found to hold, from `start` up to `end`.
#[derive(Debug, Clone, Copy, PartialEq, Eq, Structural)]
pub enum SectionRegion {
    Entry { start: u32, end: u32 },
    Gap { start: u32, end: u32 },
    UnparseableTail { start: u32, end: u32 },
}

impl SectionRegion {
    pub open spec fn from(self) -> u32 {
        match self {
            SectionRegion::Entry { start, .. } => start,
            SectionRegion::Gap { start, .. } => start,
            SectionRegion::UnparseableTail { start, .. } => start,
        }
    }

    pub open spec fn to(self) -> u32 {
        match self {
            SectionRegion::Entry { end, .. } => end,
            SectionRegion::Gap { end, .. } => end,
            SectionRegion::UnparseableTail { end, .. } => end,
        }
    }

    /// Where the region starts.
    pub fn start(self) -> (r: u32)
        ensures
            r == self.from(),
    {
        match self {
            SectionRegion::Entry { start, .. } => start,
            SectionRegion::Gap { start, .. } => start,
            SectionRegion::UnparseableTail { start, .. } => start,
        }
    }

    /// Where the region ends.
    pub fn end(self) -> (r: u32)
        ensures
            r == self.to(),
    {
        match self {
            SectionRegion::Entry { end, .. } => end,
            SectionRegion::Gap { end, .. } => end,
            SectionRegion::UnparseableTail { end, .. } => end,
        }
    }

    /// Whether the region could not be read.
    pub fn is_unparseable_tail(self) -> (r: bool)
        ensures
            r == (self is UnparseableTail),
    {
        match self {
            SectionRegion::UnparseableTail { .. } => true,
            _ => false,
        }
    }
}

/// The regions lie end to end from `base` to `end`, none of them empty.
pub open spec fn tiles(regions: Seq<SectionRegion>, base: u32, end: u32) -> bool
    decreases regions.len(),
{
    if regions.len() == 0 {
        base == end
    } else {
        let last = regions.last();
        last.from() < last.to() && last.to() == end && tiles(regions.drop_last(), base, last.from())
    }
}

/// Whether the regions lie end to end from `base` to `end`, none of them empty.
pub fn section_layout_gauge(base: u32, end: u32, regions: &[SectionRegion]) -> (r: bool)
    ensures
        r == tiles(regions@, base, end),
{
    let mut i: usize = regions.len();
    let mut stop: u32 = end;
    assert(regions@.take(i as int) =~= regions@);
    while i > 0
        invariant
            i <= regions@.len(),
            tiles(regions@, base, end) == tiles(regions@.take(i as int), base, stop),
        decreases i,
    {
        let last: SectionRegion = regions[i - 1];
        assert(regions@.take(i as int).drop_last() =~= regions@.take(i - 1));
        if last.start() >= last.end() || last.end() != stop {
            return false;
        }
        stop = last.start();
        i = i - 1;
    }
    base == stop
}

/// A DEX file. Maps are keyed by the file offset at which the item was found;
/// offsets held by other items refer to those keys.
#[derive(Debug)]
pub struct DexFile {
    pub header: DexHeader,
    pub strings: Vec<DexString>,
    /// Where the data of each string was found.
    pub string_data_offs: Vec<u32>,
    pub type_descriptors: Vec<String>,
    pub protos: Vec<ProtoIdItem>,
    pub fields: Vec<FieldIdItem>,
    pub methods: Vec<MethodIdItem>,
    pub class_defs: Vec<ClassDefItem>,
    pub type_lists: BTreeMap<u32, Vec<TypeIdx>>,
    pub class_datas: BTreeMap<u32, ClassData>,
    /// The bytes of class-data items as they were read.
    pub raw_class_data_bytes: BTreeMap<u32, Vec<u8>>,
    pub code_items: BTreeMap<u32, CodeItem>,
    pub annotations: BTreeMap<u32, AnnotationDirectoryItem>,
    pub annotation_sets: BTreeMap<u32, Vec<u32>>,
    pub annotation_set_ref_lists: BTreeMap<u32, Vec<u32>>,
    pub annotation_items: BTreeMap<u32, AnnotationItem>,
    /// The byte widths of the numbers in each annotation, in the order in which
    /// they stand.
    pub annotation_item_widths: BTreeMap<u32, Vec<u8>>,
    pub encoded_arrays: BTreeMap<u32, Vec<EncodedValue>>,
    /// The byte widths of the numbers in each array, in the order in which they
    /// stand.
    pub encoded_array_widths: BTreeMap<u32, Vec<u8>>,
    pub method_handles: Vec<MethodHandleItem>,
    /// The offset of the encoded array of each call site.
    pub call_site_ids: Vec<u32>,
    pub map_entries: Vec<MapEntry>,
    pub debug_info_raw_bytes: BTreeMap<u32, Vec<u8>>,
    pub debug_info_section_layout: Vec<SectionRegion>,
    pub annotation_set_section_layout: Vec<SectionRegion>,
    /// Whether the checksums in the header match the bytes that were read.
    pub input_checksums_canonical: bool,
    pub parse_errors: Vec<ParseFailure>,
}

/// A reference to a pool entry that does not exist.
#[derive(Debug, Clone, Copy, PartialEq, Eq, Structural)]
pub enum DexError {
    IndexOutOfBounds { index: u32, len: usize },
}

impl DexFile {
    /// The text of a string of the pool.
    pub open spec fn string_at(self, idx: StringIdx) -> Result<Seq<char>, DexError> {
        if idx.0 < self.strings@.len() {
            Ok(self.strings@[idx.0 as int].text())
        } else {
            Err(DexError::IndexOutOfBounds { index: idx.0, len: self.strings@.len() as usize })
        }
    }

    /// The descriptor of a type of the pool.
    pub open spec fn descriptor_at(self, idx: TypeIdx) -> Result<Seq<char>, DexError> {
        if idx.0 < self.type_descriptors@.len() {
            Ok(self.type_descriptors@[idx.0 as int]@)
        } else {
            Err(
                DexError::IndexOutOfBounds {
                    index: idx.0,
                    len: self.type_descriptors@.len() as usize,
                },
            )
        }
    }

    /// The text of a string of the pool.
    pub fn get_string(&self, idx: StringIdx) -> (r: Result<&str, DexError>)
        ensures
            gives_text(r, self.string_at(idx)),
    {
        if (idx.0 as usize) < self.strings.len() {
            Ok(self.strings[idx.0 as usize].as_str_lossy())
        } else {
            Err(DexError::IndexOutOfBounds { index: idx.0, len: self.strings.len() })
        }
    }

    /// The descriptor of a type of the pool.
    pub fn get_type_descriptor(&self, idx: TypeIdx) -> (r: Result<&str, DexError>)
        ensures
            gives_text(r, self.descriptor_at(idx)),
    {
        if (idx.0 as usize) < self.type_descriptors.len() {
            Ok(self.type_descriptors[idx.0 as usize].as_str())
        } else {
            Err(DexError::IndexOutOfBounds { index: idx.0, len: self.type_descriptors.len() })
        }
    }
}

impl DexFile {
    /// A field as text: its class, its name and its type.
    pub open spec fn field_text(self, idx: FieldIdx) -> Result<Seq<char>, DexError> {
        if idx.0 >= self.fields@.len() {
            Err(DexError::IndexOutOfBounds { index: idx.0, len: self.fields@.len() as usize })
        } else {
            let f = self.fields@[idx.0 as int];
            match self.descriptor_at(f.class_idx) {
                Err(e) => Err(e),
                Ok(class) => match self.string_at(f.name_idx) {
                    Err(e) => Err(e),
                    Ok(name) => match self.descriptor_at(f.type_idx) {
                        Err(e) => Err(e),
                        Ok(ty) => Ok(class + "->"@ + name + ":"@ + ty),
                    },
                },
            }
        }
    }

    /// The descriptors of the types from position `i` on, after `acc`.
    pub open spec fn descriptors_text(self, types: Seq<TypeIdx>, i: nat, acc: Seq<char>) -> Result<
        Seq<char>,
        DexError,
    >
        decreases types.len() - i,
    {
        if i >= types.len() {
            Ok(acc)
        } else {
            match self.descriptor_at(types[i as int]) {
                Err(e) => Err(e),
                Ok(d) => self.descriptors_text(types, i + 1, acc + d),
            }
        }
    }

    /// The type list at an offset; the empty one where there is none.
    pub open spec fn list_at(self, off: u32) -> Seq<TypeIdx> {
        if off != 0 && self.type_lists@.contains_key(off) {
            self.type_lists@[off]@
        } else {
            Seq::empty()
        }
    }

    /// A prototype as text: the parameter types in brackets, then the return type.
    pub open spec fn proto_text(self, idx: ProtoIdx) -> Result<Seq<char>, DexError> {
        if idx.0 >= self.protos@.len() {
            Err(DexError::IndexOutOfBounds { index: idx.0, len: self.protos@.len() as usize })
        } else {
            let p = self.protos@[idx.0 as int];
            match self.descriptors_text(self.list_at(p.parameters_off), 0, "("@) {
                Err(e) => Err(e),
                Ok(params) => match self.descriptor_at(p.return_type_idx) {
                    Err(e) => Err(e),
                    Ok(ty) => Ok(params + ")"@ + ty),
                },
            }
        }
    }

    /// A method as text: its class, its name and its prototype.
    pub open spec fn method_text(self, idx: MethodIdx) -> Result<Seq<char>, DexError> {
        if idx.0 >= self.methods@.len() {
            Err(DexError::IndexOutOfBounds { index: idx.0, len: self.methods@.len() as usize })
        } else {
            let m = self.methods@[idx.0 as int];
            match self.descriptor_at(m.class_idx) {
                Err(e) => Err(e),
                Ok(class) => match self.string_at(m.name_idx) {
                    Err(e) => Err(e),
                    Ok(name) => match self.proto_text(m.proto_idx) {
                        Err(e) => Err(e),
                        Ok(proto) => Ok(class + "->"@ + name + proto),
                    },
                },
            }
        }
    }

    /// A field as text: its class, its name and its type.
    pub fn format_field(&self, idx: FieldIdx) -> (r: Result<String, DexError>)
        ensures
            gives_string(r, self.field_text(idx)),
    {
        if idx.0 as usize >= self.fields.len() {
            return Err(DexError::IndexOutOfBounds { index: idx.0, len: self.fields.len() });
        }
        let f: FieldIdItem = self.fields[idx.0 as usize];
        let class = self.get_type_descriptor(f.class_idx)?;
        let name = self.get_string(f.name_idx)?;
        let ty = self.get_type_descriptor(f.type_idx)?;
        let mut s = String::from_str(class);
        s.append("->");
        s.append(name);
        s.append(":");
        s.append(ty);
        Ok(s)
    }

    fn format_proto(&self, idx: ProtoIdx) -> (r: Result<String, DexError>)
        ensures
            gives_string(r, self.proto_text(idx)),
    {
        if idx.0 as usize >= self.protos.len() {
            return Err(DexError::IndexOutOfBounds { index: idx.0, len: self.protos.len() });
        }
        let p: ProtoIdItem = self.protos[idx.0 as usize];
        let mut s = String::from_str("(");
        let ghost types = self.list_at(p.parameters_off);
        if p.parameters_off != 0 {
            match bound(&self.type_lists, p.parameters_off) {
                None => {},
                Some(list) => {
                    let ghost whole = self.descriptors_text(types, 0, "("@);
                    let mut i: usize = 0;
                    while i < list.len()
                        invariant
                            i <= list@.len(),
                            list@ == types,
                            idx.0 < self.protos@.len(),
                            p == self.protos@[idx.0 as int],
                            types == self.list_at(p.parameters_off),
                            whole == self.descriptors_text(types, 0, "("@),
                            whole == self.descriptors_text(types, i as nat, s@),
                        decreases list@.len() - i,
                    {
                        let d = self.get_type_descriptor(list[i])?;
                        s.append(d);
                        i = i + 1;
                    }
                },
            }
        }
        assert(self.descriptors_text(types, 0, "("@) == Ok::<Seq<char>, DexError>(s@));
        let ty = self.get_type_descriptor(p.return_type_idx)?;
        s.append(")");
        s.append(ty);
        Ok(s)
    }

    /// A method as text: its class, its name and its prototype.
    pub fn format_method(&self, idx: MethodIdx) -> (r: Result<String, DexError>)
        ensures
            gives_string(r, self.method_text(idx)),
    {
        if idx.0 as usize >= self.methods.len() {
            return Err(DexError::IndexOutOfBounds { index: idx.0, len: self.methods.len() });
        }
        let m: MethodIdItem = self.methods[idx.0 as usize];
        let class = self.get_type_descriptor(m.class_idx)?;
        let name = self.get_string(m.name_idx)?;
        let proto = self.format_proto(m.proto_idx)?;
        let mut s = String::from_str(class);
        s.append("->");
        s.append(name);
        s.append(proto.as_str());
        Ok(s)
    }
}

/// A function that returns a string returns that of `expected`, or its error.
pub open spec fn gives_string(
    r: Result<String, DexError>,
    expected: Result<Seq<char>, DexError>,
) -> bool {
    match expected {
        Ok(t) => r matches Ok(s) && s@ == t,
        Err(e) => r == Err::<String, DexError>(e),
    }
}

/// A function that returns text returns that of `expected`, or its error.
pub open spec fn gives_text(r: Result<&str, DexError>, expected: Result<Seq<char>, DexError>) -> bool {
    match expected {
        Ok(t) => r matches Ok(s) && s@ == t,
        Err(e) => r == Err::<&str, DexError>(e),
    }
}

} // verus!
