//! Indices into the id pools, and the pool items themselves.
use vstd::prelude::*;

verus! {

/// Index into the string pool.
#[derive(Debug, Clone, Copy, PartialEq, Eq, Structural, PartialOrd, Ord, Hash)]
pub struct StringIdx(pub u32);

/// Index into the type pool.
#[derive(Debug, Clone, Copy, PartialEq, Eq, Structural, PartialOrd, Ord, Hash)]
pub struct TypeIdx(pub u32);

/// Index into the prototype pool.
#[derive(Debug, Clone, Copy, PartialEq, Eq, Structural, PartialOrd, Ord, Hash)]
pub struct ProtoIdx(pub u32);

/// Index into the field pool.
#[derive(Debug, Clone, Copy, PartialEq, Eq, Structural, PartialOrd, Ord, Hash)]
pub struct FieldIdx(pub u32);

/// Index into the method pool.
#[derive(Debug, Clone, Copy, PartialEq, Eq, Structural, PartialOrd, Ord, Hash)]
pub struct MethodIdx(pub u32);

/// Index into the call-site pool.
#[derive(Debug, Clone, Copy, PartialEq, Eq, Structural, PartialOrd, Ord, Hash)]
pub struct CallSiteIdx(pub u32);

/// Index into the method-handle pool.
#[derive(Debug, Clone, Copy, PartialEq, Eq, Structural, PartialOrd, Ord, Hash)]
pub struct MethodHandleIdx(pub u32);

/// A method prototype: return type and parameter types.
#[derive(Debug, Clone, Copy, PartialEq, Eq, Structural)]
pub struct ProtoIdItem {
    pub shorty_idx: StringIdx,
    pub return_type_idx: TypeIdx,
    /// Offset of the parameter type list, 0 for none.
    pub parameters_off: u32,
}

/// A reference to a field.
#[derive(Debug, Clone, Copy, PartialEq, Eq, Structural)]
pub struct FieldIdItem {
    pub class_idx: TypeIdx,
    pub type_idx: TypeIdx,
    pub name_idx: StringIdx,
}

/// A reference to a method.
#[derive(Debug, Clone, Copy, PartialEq, Eq, Structural)]
pub struct MethodIdItem {
    pub class_idx: TypeIdx,
    pub proto_idx: ProtoIdx,
    pub name_idx: StringIdx,
}

/// A class definition. An offset of 0 means that the class has no such section.
#[derive(Debug, Clone, Copy, PartialEq, Eq)]
pub struct ClassDefItem {
    pub class_idx: TypeIdx,
    pub access_flags: u32,
    pub superclass_idx: Option<TypeIdx>,
    pub interfaces_off: u32,
    pub source_file_idx: Option<StringIdx>,
    pub annotations_off: u32,
    pub class_data_off: u32,
    pub static_values_off: u32,
}

} // verus!
