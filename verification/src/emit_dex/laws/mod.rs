//! Properties of the serialized form.
pub mod accepted;
pub mod changes;
pub mod code;
pub mod contents;
pub mod file;
pub mod gaps;
pub mod instructions;
pub mod kept;
pub mod kinds;
pub mod linked;
pub mod links;
pub mod map;
pub mod members;
pub mod notes;
pub mod operands;
pub mod payloads;
pub mod place;
pub mod placed;
pub mod pools;
pub mod preserve;
pub mod refusals;
pub mod renumbering;
pub mod reports;
pub mod round_trip;
pub mod says;
pub mod sections;
pub mod unchanged;
pub mod values;
pub mod widths;
pub mod whole;
