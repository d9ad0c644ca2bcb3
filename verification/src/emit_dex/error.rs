//! Failures of serialization.
use vstd::prelude::*;

use crate::dex_file::{ParseFailureKind, PoolKind};
use crate::text::{decimal, numeral, push_decimal, push_hex};

verus! {

/// Why a file could not be serialized.
#[derive(Debug, Clone, Copy)]
pub enum DexEmitError {
    /// A count or size does not fit its field.
    SizeOverflow { layer: &'static str, context: &'static str },
    /// An offset does not fit its field.
    OffsetOverflow { section: &'static str, context: &'static str },
    /// A recomputed checksum does not match the bytes that were written.
    ChecksumRecomputeFailed(&'static str),
    /// The file holds something that the format cannot express.
    UnrepresentableIR { why: &'static str },
    /// The layout computed beforehand and the bytes disagree.
    InvariantViolated { why: &'static str },
    /// A section that is not supported.
    NotImplemented,
    /// Parts of the file were lost when it was read.
    PartialIR { count: usize, first_kind: ParseFailureKind, first_offset: u32 },
}

pub open spec fn pool_name(p: PoolKind) -> Seq<char> {
    match p {
        PoolKind::StringIds => "StringIds"@,
        PoolKind::TypeIds => "TypeIds"@,
        PoolKind::ProtoIds => "ProtoIds"@,
        PoolKind::FieldIds => "FieldIds"@,
        PoolKind::MethodIds => "MethodIds"@,
    }
}

pub open spec fn kind_name(k: ParseFailureKind) -> Seq<char> {
    match k {
        ParseFailureKind::OutOfOrder { pool } => "OutOfOrder { pool: "@ + pool_name(pool) + " }"@,
        ParseFailureKind::DuplicateClassDef => "DuplicateClassDef"@,
        ParseFailureKind::NonTopologicalClassOrder => "NonTopologicalClassOrder"@,
        ParseFailureKind::ReservedBits => "ReservedBits"@,
        ParseFailureKind::TypeList => "TypeList"@,
        ParseFailureKind::ClassData => "ClassData"@,
        ParseFailureKind::CodeItem => "CodeItem"@,
        ParseFailureKind::DebugInfo => "DebugInfo"@,
        ParseFailureKind::Annotation => "Annotation"@,
        ParseFailureKind::EncodedArray => "EncodedArray"@,
    }
}

fn append_kind(s: &mut String, k: ParseFailureKind)
    ensures
        final(s)@ == old(s)@ + kind_name(k),
{
    match k {
        ParseFailureKind::OutOfOrder { pool } => {
            s.append("OutOfOrder { pool: ");
            match pool {
                PoolKind::StringIds => s.append("StringIds"),
                PoolKind::TypeIds => s.append("TypeIds"),
                PoolKind::ProtoIds => s.append("ProtoIds"),
                PoolKind::FieldIds => s.append("FieldIds"),
                PoolKind::MethodIds => s.append("MethodIds"),
            }
            s.append(" }");
        },
        ParseFailureKind::DuplicateClassDef => s.append("DuplicateClassDef"),
        ParseFailureKind::NonTopologicalClassOrder => s.append("NonTopologicalClassOrder"),
        ParseFailureKind::ReservedBits => s.append("ReservedBits"),
        ParseFailureKind::TypeList => s.append("TypeList"),
        ParseFailureKind::ClassData => s.append("ClassData"),
        ParseFailureKind::CodeItem => s.append("CodeItem"),
        ParseFailureKind::DebugInfo => s.append("DebugInfo"),
        ParseFailureKind::Annotation => s.append("Annotation"),
        ParseFailureKind::EncodedArray => s.append("EncodedArray"),
    }
    assert(s@ =~= old(s)@ + kind_name(k));
}

impl DexEmitError {
    /// The text of the error.
    pub open spec fn text(self) -> Seq<char> {
        match self {
            DexEmitError::SizeOverflow { layer, context } => "emit: size overflow in "@ + layer@
                + ": "@ + context@,
            DexEmitError::OffsetOverflow { section, context } =>
                "emit: offset overflow in section "@ + section@ + ": "@ + context@,
            DexEmitError::ChecksumRecomputeFailed(what) => "emit: checksum recompute failed: "@
                + what@,
            DexEmitError::UnrepresentableIR { why } => "emit: unrepresentable IR: "@ + why@,
            DexEmitError::InvariantViolated { why } => "emit: internal invariant violated: "@
                + why@,
            DexEmitError::NotImplemented => "emit: not yet implemented (staged impl)"@,
            DexEmitError::PartialIR { count, first_kind, first_offset } => "emit: input IR has "@
                + decimal(count as nat) + " parse error(s); first = "@ + kind_name(first_kind)
                + " at offset 0x"@ + numeral(first_offset as nat, 16)
                + "; set EmitConfig::permit_partial_ir = true to proceed"@,
        }
    }

    /// The text of the error.
    pub fn message(&self) -> (r: String)
        ensures
            r@ == self.text(),
    {
        let mut s = String::new();
        match self {
            DexEmitError::SizeOverflow { layer, context } => {
                s.append("emit: size overflow in ");
                s.append(layer);
                s.append(": ");
                s.append(context);
            },
            DexEmitError::OffsetOverflow { section, context } => {
                s.append("emit: offset overflow in section ");
                s.append(section);
                s.append(": ");
                s.append(context);
            },
            DexEmitError::ChecksumRecomputeFailed(what) => {
                s.append("emit: checksum recompute failed: ");
                s.append(what);
            },
            DexEmitError::UnrepresentableIR { why } => {
                s.append("emit: unrepresentable IR: ");
                s.append(why);
            },
            DexEmitError::InvariantViolated { why } => {
                s.append("emit: internal invariant violated: ");
                s.append(why);
            },
            DexEmitError::NotImplemented => {
                s.append("emit: not yet implemented (staged impl)");
            },
            DexEmitError::PartialIR { count, first_kind, first_offset } => {
                s.append("emit: input IR has ");
                push_decimal(&mut s, *count as u64);
                s.append(" parse error(s); first = ");
                append_kind(&mut s, *first_kind);
                s.append(" at offset 0x");
                push_hex(&mut s, *first_offset as u64);
                s.append("; set EmitConfig::permit_partial_ir = true to proceed");
            },
        }
        assert(s@ =~= self.text());
        s
    }
}

} // verus!
