//! Files of which something was lost when they were read.
use vstd::prelude::*;

use crate::dex_file::{DexFile, ParseFailure};
use crate::emit_dex::assembly::{canonical_file, emit_canonical, gives_file, Emitted, EmittedBytes};
use crate::emit_dex::config::EmitConfig;
use crate::emit_dex::error::DexEmitError;

verus! {

/// How many of the first `n` failures lost data.
pub open spec fn losses(failures: Seq<ParseFailure>, n: nat) -> nat
    decreases n,
{
    if n == 0 {
        0
    } else {
        losses(failures, (n - 1) as nat) + if failures[n - 1].kind.loses_data() {
            1nat
        } else {
            0nat
        }
    }
}

/// The first failure from position `i` on that lost data.
pub open spec fn first_loss(failures: Seq<ParseFailure>, i: nat) -> Option<ParseFailure>
    decreases failures.len() - i,
{
    if i >= failures.len() {
        None
    } else if failures[i as int].kind.loses_data() {
        Some(failures[i as int])
    } else {
        first_loss(failures, i + 1)
    }
}

/// The complaint about data that was lost when the file was read.
pub open spec fn partial(failures: Seq<ParseFailure>) -> Option<DexEmitError> {
    match first_loss(failures, 0) {
        None => None,
        Some(f) => Some(
            DexEmitError::PartialIR {
                count: losses(failures, failures.len()) as usize,
                first_kind: f.kind,
                first_offset: f.offset,
            },
        ),
    }
}

/// Fails where data was lost when the file was read.
pub fn check_partial(failures: &[ParseFailure]) -> (r: Result<(), DexEmitError>)
    ensures
        match partial(failures@) {
            None => r is Ok,
            Some(e) => r == Err::<(), DexEmitError>(e),
        },
{
    let mut first: Option<ParseFailure> = None;
    let mut count: usize = 0;
    let mut i: usize = 0;
    while i < failures.len()
        invariant
            i <= failures@.len(),
            count <= i,
            count == losses(failures@, i as nat),
            first_loss(failures@, 0) == (if first is Some {
                first
            } else {
                first_loss(failures@, i as nat)
            }),
        decreases failures@.len() - i,
    {
        if failures[i].kind.is_completeness() {
            count = count + 1;
            if first.is_none() {
                first = Some(failures[i]);
            }
        }
        i = i + 1;
    }
    match first {
        None => Ok(()),
        Some(f) => Err(
            DexEmitError::PartialIR { count, first_kind: f.kind, first_offset: f.offset },
        ),
    }
}

/// The file in canonical form; one of which something was lost is refused, unless
/// that is permitted.
pub open spec fn complete_file(dex: DexFile, config: EmitConfig) -> Result<
    Emitted,
    DexEmitError,
> {
    match partial(dex.parse_errors@) {
        Some(e) if !config.permit_partial_ir => Err(e),
        _ => canonical_file(dex, config),
    }
}

/// Serializes a file in canonical form, unless something of it was lost.
pub fn emit_complete(dex: &DexFile, config: &EmitConfig) -> (r: Result<EmittedBytes, DexEmitError>)
    ensures
        gives_file(r, complete_file(*dex, *config)),
{
    if !config.permit_partial_ir {
        check_partial(dex.parse_errors.as_slice())?;
    }
    emit_canonical(dex, config)
}

} // verus!
