//! Serializing a file.
use vstd::prelude::*;

use crate::dex_file::DexFile;
use crate::emit_dex::assembly::{canonical_file, emit_canonical, gives_file, Emitted, EmittedBytes};
use crate::emit_dex::config::{strict, CanonicalTransform, EmitConfig, EmitOutput};
use crate::emit_dex::error::DexEmitError;
use crate::emit_dex::partial::{check_partial, partial};
use crate::emit_dex::preserve::{emit_dex_inner_preserve_layout, preserved_file};
use crate::emit_dex::widths::{
    capped, count_encoded_value_width_divergences, width_divergences,
};
use crate::emit_dex::written::gives;

verus! {

/// The serialized file and the reports about its layout.
pub open spec fn laid_out_file(dex: DexFile, config: EmitConfig) -> Result<
    Emitted,
    DexEmitError,
> {
    match partial(dex.parse_errors@) {
        Some(e) if !config.permit_partial_ir => Err(e),
        _ => if config.preserve_data_section_layout {
            preserved_file(dex, config)
        } else {
            canonical_file(dex, config)
        },
    }
}

fn emit_dex_inner(dex: &DexFile, config: &EmitConfig) -> (r: Result<EmittedBytes, DexEmitError>)
    ensures
        gives_file(r, laid_out_file(*dex, *config)),
{
    if !config.permit_partial_ir {
        check_partial(dex.parse_errors.as_slice())?;
    }
    if config.preserve_data_section_layout {
        emit_dex_inner_preserve_layout(dex, config)
    } else {
        emit_canonical(dex, config)
    }
}

/// The reports about what the file holds, whatever its layout. The pools are written in
/// the order in which they were read, so there is none about them.
pub open spec fn content_reports(dex: DexFile, config: EmitConfig) -> Seq<CanonicalTransform> {
    (if !config.preserve_encoded_value_width && width_divergences(dex) > 0 {
        seq![
            CanonicalTransform::EncodedValueReencoded { count: capped(width_divergences(dex)) },
        ]
    } else {
        Seq::empty()
    }) + (if !dex.input_checksums_canonical && !config.preserve_input_checksums {
        seq![CanonicalTransform::InputChecksumNormalized]
    } else {
        Seq::empty()
    })
}

/// The reports about what the file holds, whatever its layout.
pub fn derive_applied_transformations(dex: &DexFile, config: &EmitConfig) -> (r: Vec<
    CanonicalTransform,
>)
    ensures
        r@ == content_reports(*dex, *config),
{
    let mut out: Vec<CanonicalTransform> = Vec::new();
    if !config.preserve_encoded_value_width {
        let count: u32 = count_encoded_value_width_divergences(dex);
        if count > 0 {
            out.push(CanonicalTransform::EncodedValueReencoded { count });
        }
    }
    if !dex.input_checksums_canonical && !config.preserve_input_checksums {
        out.push(CanonicalTransform::InputChecksumNormalized);
    }
    assert(out@ =~= content_reports(*dex, *config));
    out
}

/// The serialized file and all reports.
pub open spec fn emitted_file(dex: DexFile, config: EmitConfig) -> Result<Emitted, DexEmitError> {
    match laid_out_file(dex, config) {
        Err(e) => Err(e),
        Ok(f) => Ok(
            Emitted {
                bytes: f.bytes,
                reports: f.reports + content_reports(dex, config),
            },
        ),
    }
}

/// Serializes a file and reports what was changed on the way.
pub fn emit_dex_collect(dex: &DexFile, config: &EmitConfig) -> (r: Result<
    EmitOutput,
    DexEmitError,
>)
    ensures
        match emitted_file(*dex, *config) {
            Ok(f) => r matches Ok(o) && o.bytes@ == f.bytes && o.applied_transformations@
                == f.reports,
            Err(e) => r == Err::<EmitOutput, DexEmitError>(e),
        },
{
    let (bytes, layout) = emit_dex_inner(dex, config)?;
    let mut applied_transformations = layout;
    let content = derive_applied_transformations(dex, config);
    applied_transformations.extend_from_slice(content.as_slice());
    assert(applied_transformations@ =~= layout@ + content@);
    Ok(EmitOutput { bytes, applied_transformations })
}

/// The bytes of a serialized file.
pub open spec fn emitted_bytes(dex: DexFile, config: EmitConfig) -> Result<
    Seq<u8>,
    DexEmitError,
> {
    match laid_out_file(dex, config) {
        Err(e) => Err(e),
        Ok(f) => Ok(f.bytes),
    }
}

/// Serializes a file.
pub fn emit_dex_with_config(dex: &DexFile, config: &EmitConfig) -> (r: Result<
    Vec<u8>,
    DexEmitError,
>)
    ensures
        gives(r, emitted_bytes(*dex, *config)),
{
    match emit_dex_collect(dex, config) {
        Ok(o) => Ok(o.bytes),
        Err(e) => Err(e),
    }
}

/// Serializes a file with default options.
pub fn emit_dex(dex: &DexFile) -> (r: Result<Vec<u8>, DexEmitError>)
    ensures
        gives(r, emitted_bytes(*dex, strict())),
{
    emit_dex_with_config(dex, &EmitConfig::default())
}

} // verus!
