//! Annotations and encoded constant values.
use std::collections::BTreeMap;
use vstd::prelude::*;

use crate::ids::{FieldIdx, MethodHandleIdx, MethodIdx, ProtoIdx, StringIdx, TypeIdx};

verus! {

/// A constant. Floating-point values are held as their bit patterns.
#[derive(Debug, PartialEq, Eq)]
pub enum EncodedValue {
    Byte(i8),
    Short(i16),
    Char(u16),
    Int(i32),
    Long(i64),
    /// The bits of a single-precision number.
    Float(u32),
    /// The bits of a double-precision number.
    Double(u64),
    String(StringIdx),
    Type(TypeIdx),
    Field(FieldIdx),
    Method(MethodIdx),
    Enum(FieldIdx),
    MethodType(ProtoIdx),
    MethodHandle(MethodHandleIdx),
    Array(Vec<EncodedValue>),
    Annotation(EncodedAnnotation),
    Null,
    Boolean(bool),
}

/// An annotation: its type and its elements by the string index of their names.
#[derive(Debug, PartialEq, Eq)]
pub struct EncodedAnnotation {
    pub type_idx: TypeIdx,
    pub elements: BTreeMap<u32, EncodedValue>,
}

/// An annotation with its visibility.
#[derive(Debug, PartialEq, Eq)]
pub struct AnnotationItem {
    pub visibility: u8,
    pub annotation: EncodedAnnotation,
}

/// The annotation set of a field.
#[derive(Debug, Clone, Copy, PartialEq, Eq, Structural)]
pub struct FieldAnnotation {
    pub field_idx: FieldIdx,
    pub annotations_off: u32,
}

/// The annotation set of a method.
#[derive(Debug, Clone, Copy, PartialEq, Eq, Structural)]
pub struct MethodAnnotation {
    pub method_idx: MethodIdx,
    pub annotations_off: u32,
}

/// The annotation sets of a method's parameters.
#[derive(Debug, Clone, Copy, PartialEq, Eq, Structural)]
pub struct ParameterAnnotation {
    pub method_idx: MethodIdx,
    pub annotations_off: u32,
}

/// The annotations of a class and of its members.
#[derive(Debug, Clone, PartialEq, Eq)]
pub struct AnnotationDirectoryItem {
    pub class_annotations_off: u32,
    pub fields: Vec<FieldAnnotation>,
    pub methods: Vec<MethodAnnotation>,
    pub parameters: Vec<ParameterAnnotation>,
}

} // verus!
