//! Serialization of a DEX file.
pub mod assembly;
pub mod canonical;
pub mod checksum;
pub mod class_data;
pub mod code_item;
pub mod config;
pub mod directory;
pub mod emit;
pub mod encoded_value;
pub mod error;
pub mod in_place;
pub mod instruction;
pub mod laws;
pub mod layout;
pub mod map_list;
pub mod map_type;
pub mod ordering;
pub mod partial;
pub mod payload;
pub mod pools;
pub mod preserve;
pub mod sections;
pub mod widths;
pub mod written;

pub use crate::emit_dex::checksum::{HeaderLayout, emit_header, finalize_checksums};
pub use crate::emit_dex::class_data::emit_class_data_item;
pub use crate::emit_dex::code_item::emit_code_item_container;
pub use crate::emit_dex::config::{AlignmentSection, CanonicalTransform, EmitConfig, EmitOutput};
pub use crate::emit_dex::directory::emit_annotation_directory_section;
pub use crate::emit_dex::emit::{emit_dex, emit_dex_collect, emit_dex_with_config};
pub use crate::emit_dex::encoded_value::emit_encoded_value;
pub use crate::emit_dex::error::DexEmitError;
pub use crate::emit_dex::instruction::emit_instruction;
pub use crate::emit_dex::map_list::{MapItem, emit_map_list};
pub use crate::emit_dex::ordering::{NonDecreasing, OrderingViolation, StrictlyAscending};
pub use crate::emit_dex::payload::{
    emit_fill_array_data_payload, emit_packed_switch_payload, emit_payload,
    emit_sparse_switch_payload,
};
pub use crate::emit_dex::pools::{
    emit_call_site_id_section, emit_class_def_pool, emit_field_pool, emit_method_handle_section,
    emit_method_pool, emit_proto_pool, emit_string_pool, emit_string_pool_preserve_layout,
    emit_type_list, emit_type_pool, verify_utf16_sorted,
};
pub use crate::emit_dex::sections::{
    emit_annotation_item_section, emit_annotation_set_ref_list_section, emit_annotation_set_section,
    emit_class_data_section, emit_code_item_section, emit_debug_info_section,
    emit_encoded_array_section, emit_encoded_array_section_with_widths, emit_type_list_section,
};
pub use crate::emit_dex::widths::{
    emit_annotation_item_with_widths, emit_encoded_annotation, emit_encoded_annotation_with_widths,
    emit_encoded_array, emit_encoded_array_with_widths,
};
pub use crate::mutf8::{encode_mutf8_into, utf16_unit_count};
