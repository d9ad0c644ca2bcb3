//! What a caller may ask of serialization, and what it reports.
use vstd::prelude::*;

use crate::dex_file::DexFile;
use crate::emit_dex::map_list::{input_offset_by_code, section_start};
use crate::emit_dex::map_type;

verus! {

/// Options for one run. By default everything is off: a file of which parts were
/// lost is refused, and the output is in canonical form.
#[derive(Debug, Clone, Copy, PartialEq, Eq, Structural)]
pub struct EmitConfig {
    /// Go on although parts of the file were lost when it was read.
    pub permit_partial_ir: bool,
    /// Keep the order of the file's own map list.
    pub preserve_map_list_order: bool,
    /// Write numbers at the widths at which they were read.
    pub preserve_encoded_value_width: bool,
    /// Put each section where the file's own map list has it, if it has them all.
    pub preserve_data_section_layout: bool,
    /// Keep the checksum and the digest of the header that was read, even where
    /// they are wrong.
    pub preserve_input_checksums: bool,
}

/// The options by default.
pub open spec fn strict() -> EmitConfig {
    EmitConfig {
        permit_partial_ir: false,
        preserve_map_list_order: false,
        preserve_encoded_value_width: false,
        preserve_data_section_layout: false,
        preserve_input_checksums: false,
    }
}

impl Default for EmitConfig {
    fn default() -> (r: EmitConfig)
        ensures
            r == strict(),
    {
        EmitConfig {
            permit_partial_ir: false,
            preserve_map_list_order: false,
            preserve_encoded_value_width: false,
            preserve_data_section_layout: false,
            preserve_input_checksums: false,
        }
    }
}

/// A section that has to start at a multiple of four.
#[derive(Debug, Clone, Copy, PartialEq, Eq, Hash, Structural)]
#[non_exhaustive]
pub enum AlignmentSection {
    CodeItem,
    AnnotationSet,
    AnnotationSetRefList,
    AnnotationDirectory,
    TypeList,
    MapList,
}

impl AlignmentSection {
    /// The section's code in the map list.
    pub open spec fn code(self) -> u16 {
        match self {
            AlignmentSection::CodeItem => map_type::CODE_ITEM,
            AlignmentSection::AnnotationSet => map_type::ANNOTATION_SET_ITEM,
            AlignmentSection::AnnotationSetRefList => map_type::ANNOTATION_SET_REF_LIST,
            AlignmentSection::AnnotationDirectory => map_type::ANNOTATION_DIRECTORY_ITEM,
            AlignmentSection::TypeList => map_type::TYPE_LIST,
            AlignmentSection::MapList => map_type::MAP_LIST,
        }
    }

    /// The section's code in the map list.
    pub fn map_type_code(self) -> (r: Option<u16>)
        ensures
            r == Some(self.code()),
    {
        match self {
            AlignmentSection::CodeItem => Some(map_type::CODE_ITEM),
            AlignmentSection::AnnotationSet => Some(map_type::ANNOTATION_SET_ITEM),
            AlignmentSection::AnnotationSetRefList => Some(map_type::ANNOTATION_SET_REF_LIST),
            AlignmentSection::AnnotationDirectory => Some(map_type::ANNOTATION_DIRECTORY_ITEM),
            AlignmentSection::TypeList => Some(map_type::TYPE_LIST),
            AlignmentSection::MapList => Some(map_type::MAP_LIST),
        }
    }
}

/// A change that serialization made on the way to canonical form.
#[derive(Debug, Clone, Copy, PartialEq, Eq, Hash, Structural)]
#[non_exhaustive]
pub enum CanonicalTransform {
    /// Debug info was removed. Never reported: debug info is kept.
    DebugInfoStripped,
    /// The string pool was put into UTF-16 order. Never reported: strings are written in
    /// the order in which they were read, whether that is theirs or not.
    StringPoolReordered,
    /// Zero bytes went in before a section, which now starts elsewhere.
    AlignmentPaddingInserted { section: AlignmentSection, byte_count: u32 },
    /// The map list is in another order.
    MapListReordered,
    /// Numbers in encoded arrays were written in fewer bytes than they had.
    EncodedValueReencoded { count: u32 },
    /// The data sections are in another order.
    DataSectionLayoutReordered,
    /// The checksums of the header were wrong and have been recomputed.
    InputChecksumNormalized,
}

/// A serialized file, and the changes made on the way.
#[derive(Debug, Clone)]
#[non_exhaustive]
pub struct EmitOutput {
    pub bytes: Vec<u8>,
    pub applied_transformations: Vec<CanonicalTransform>,
}

/// Where a section was found.
pub fn input_section_offset(dex: &DexFile, section: AlignmentSection) -> (r: Option<u32>)
    ensures
        r == section_start(dex.map_entries@, section.code(), 0),
{
    match section.map_type_code() {
        Some(code) => input_offset_by_code(dex.map_entries.as_slice(), code),
        None => None,
    }
}

/// The report that zero bytes went in between `off` and the start of a section at
/// `base`. There is none where nothing went in, where the section stays where it was,
/// and where it is not known where it was.
pub open spec fn padding_report(dex: DexFile, section: AlignmentSection, off: u32, base: u32) -> Seq<
    CanonicalTransform,
> {
    match section_start(dex.map_entries@, section.code(), 0) {
        Some(was) if base > off && was != base => seq![
            CanonicalTransform::AlignmentPaddingInserted {
                section,
                byte_count: (base - off) as u32,
            },
        ],
        _ => Seq::empty(),
    }
}

/// Adds the report that zero bytes went in before a section, if they did.
pub fn report_padding(
    reports: &mut Vec<CanonicalTransform>,
    dex: &DexFile,
    section: AlignmentSection,
    off: u32,
    base: u32,
)
    ensures
        final(reports)@ == old(reports)@ + padding_report(*dex, section, off, base),
{
    let moved: bool = match input_section_offset(dex, section) {
        Some(was) => was != base,
        None => false,
    };
    if base > off && moved {
        reports.push(
            CanonicalTransform::AlignmentPaddingInserted { section, byte_count: base - off },
        );
    }
    assert(reports@ =~= old(reports)@ + padding_report(*dex, section, off, base));
}

} // verus!
