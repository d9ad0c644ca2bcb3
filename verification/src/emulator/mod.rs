//! Execution of single methods without side effects.
pub mod error;
pub mod execution;
pub mod faults;
pub mod laws;
pub mod machine;
pub mod operation;
pub mod value;

pub use crate::emulator::execution::{make_code_item, make_code_item_with_payloads, EmulatorCore};
pub use crate::emulator::error::EmulatorError;
pub use crate::emulator::value::Value;
