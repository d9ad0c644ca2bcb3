//! Instruction streams as tokens that survive renaming.
pub mod ancestors;
pub mod laws;
pub mod meaning;
pub mod supertypes;
pub mod token;

pub use crate::spr::token::{encode_method, encode_method_string, Branch, Level, Token, Unencodable};
