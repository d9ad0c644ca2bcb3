//! Methods with a name of its own for every value.
pub mod answers;
pub mod asking;
pub mod body;
pub mod laws;
pub mod naming;
pub mod phis;
pub mod registers;
pub mod renaming;
pub mod uses;

pub use crate::ssa::body::{PhiNode, SsaBlock, SsaBody, SsaInsn, VarId};
