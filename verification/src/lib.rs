//! Serialization, execution and analysis of DEX files, the executables of Android.
pub mod annotation;
pub mod bytes;
pub mod cfg;
pub mod classes;
pub mod collections;
pub mod decode;
pub mod dex_file;
pub mod dex_string;
pub mod emit_dex;
pub mod emulator;
pub mod header;
pub mod ids;
pub mod instruction_set;
pub mod leb128;
pub mod mutf8;
pub mod opcodes;
pub mod spr;
pub mod ssa;
pub mod text;
