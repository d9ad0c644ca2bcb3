//! The fixed header, and the digest and checksum that it holds.
use sha1::Digest;
use vstd::prelude::*;

use crate::bytes::{le32, overlay, push_u32, push_zeros, write_over, zeros};
use crate::emit_dex::error::DexEmitError;

verus! {

/// Size of the header in bytes.
pub const DEX_HEADER_SIZE: u32 = 112;

/// Marks the file as little-endian.
pub const DEX_ENDIAN_TAG: u32 = 0x1234_5678;

/// Everything the header says about the layout of the file. Sizes count items,
/// offsets count bytes from the start of the file.
#[derive(Debug, Clone, Copy, PartialEq, Eq)]
pub struct HeaderLayout {
    /// The format version, three digits.
    pub version: [u8; 3],
    pub file_size: u32,
    pub map_off: u32,
    pub string_ids_size: u32,
    pub string_ids_off: u32,
    pub type_ids_size: u32,
    pub type_ids_off: u32,
    pub proto_ids_size: u32,
    pub proto_ids_off: u32,
    pub field_ids_size: u32,
    pub field_ids_off: u32,
    pub method_ids_size: u32,
    pub method_ids_off: u32,
    pub class_defs_size: u32,
    pub class_defs_off: u32,
    pub data_size: u32,
    pub data_off: u32,
}

/// The magic bytes with the version, then room for checksum and digest.
pub open spec fn header_front(version: Seq<u8>) -> Seq<u8> {
    seq![0x64u8, 0x65u8, 0x78u8, 0x0Au8] + version + seq![0u8] + zeros(24)
}

/// The part of the header between the digest and the pools.
pub open spec fn header_middle(l: HeaderLayout) -> Seq<u8> {
    le32(l.file_size) + le32(DEX_HEADER_SIZE) + le32(DEX_ENDIAN_TAG) + le32(0) + le32(0) + le32(
        l.map_off,
    )
}

/// The part of the header about the pools and the data.
pub open spec fn header_pools(l: HeaderLayout) -> Seq<u8> {
    le32(l.string_ids_size) + le32(l.string_ids_off) + le32(l.type_ids_size) + le32(
        l.type_ids_off,
    ) + le32(l.proto_ids_size) + le32(l.proto_ids_off) + le32(l.field_ids_size) + le32(
        l.field_ids_off,
    ) + le32(l.method_ids_size) + le32(l.method_ids_off) + le32(l.class_defs_size) + le32(
        l.class_defs_off,
    ) + le32(l.data_size) + le32(l.data_off)
}

/// The header, with checksum and digest left zero.
#[verifier::opaque]
pub open spec fn header_bytes(l: HeaderLayout) -> Seq<u8> {
    header_front(l.version@) + header_middle(l) + header_pools(l)
}

/// The header, with checksum and digest left zero.
pub fn emit_header(layout: &HeaderLayout) -> (r: Vec<u8>)
    ensures
        r@ == header_bytes(*layout),
        r@.len() == DEX_HEADER_SIZE,
{
    proof {
        reveal(header_bytes);
    }
    let mut out: Vec<u8> = Vec::new();
    out.push(0x64);
    out.push(0x65);
    out.push(0x78);
    out.push(0x0A);
    out.push(layout.version[0]);
    out.push(layout.version[1]);
    out.push(layout.version[2]);
    out.push(0);
    push_zeros(&mut out, 24);
    assert(out@ =~= header_front(layout.version@));
    push_u32(&mut out, layout.file_size);
    push_u32(&mut out, DEX_HEADER_SIZE);
    push_u32(&mut out, DEX_ENDIAN_TAG);
    push_u32(&mut out, 0);
    push_u32(&mut out, 0);
    push_u32(&mut out, layout.map_off);
    let ghost upto = header_front(layout.version@) + header_middle(*layout);
    assert(out@ =~= upto);
    push_u32(&mut out, layout.string_ids_size);
    push_u32(&mut out, layout.string_ids_off);
    push_u32(&mut out, layout.type_ids_size);
    push_u32(&mut out, layout.type_ids_off);
    push_u32(&mut out, layout.proto_ids_size);
    push_u32(&mut out, layout.proto_ids_off);
    push_u32(&mut out, layout.field_ids_size);
    push_u32(&mut out, layout.field_ids_off);
    push_u32(&mut out, layout.method_ids_size);
    push_u32(&mut out, layout.method_ids_off);
    push_u32(&mut out, layout.class_defs_size);
    push_u32(&mut out, layout.class_defs_off);
    push_u32(&mut out, layout.data_size);
    push_u32(&mut out, layout.data_off);
    assert(out@ =~= upto + header_pools(*layout));
    out
}

/// The SHA-1 digest of a byte sequence.
pub uninterp spec fn sha1_digest(data: Seq<u8>) -> Seq<u8>;

/// Calls `Digest::digest` of the `sha1` crate for `Sha1`. Claimed of it: the twenty
/// bytes it returns depend on the data alone. Data so long that its length in bits
/// does not fit in 64 bits is left out.
#[verifier::external_body]
fn sha1_of(data: &[u8]) -> (r: [u8; 20])
    requires
        data@.len() < 0x2000_0000_0000_0000,
    ensures
        r@ == sha1_digest(data@),
{
    sha1::Sha1::digest(data).into()
}

/// One plus the sum of the bytes, modulo 65521.
pub open spec fn adler_low(s: Seq<u8>) -> nat
    decreases s.len(),
{
    if s.len() == 0 {
        1
    } else {
        ((adler_low(s.drop_last()) + s.last()) % 65521) as nat
    }
}

/// The sum of the low halves of all non-empty prefixes, modulo 65521.
pub open spec fn adler_high(s: Seq<u8>) -> nat
    decreases s.len(),
{
    if s.len() == 0 {
        0
    } else {
        (adler_high(s.drop_last()) + adler_low(s)) % 65521
    }
}

/// The Adler-32 checksum of a byte sequence.
pub open spec fn adler32(s: Seq<u8>) -> u32 {
    (adler_high(s) * 65536 + adler_low(s)) as u32
}

/// Calls `adler2::adler32_slice`. Claimed of it: it returns the Adler-32 checksum,
/// which is to start from 1 and 0, for every byte to add the byte to the low half
/// and the low half to the high half, both modulo 65521.
#[verifier::external_body]
fn adler32_of(data: &[u8]) -> (r: u32)
    ensures
        r == adler32(data@),
{
    adler2::adler32_slice(data)
}

/// A file with `digest` in place, and the checksum over the digest and what follows
/// it.
pub open spec fn with_digest(file: Seq<u8>, digest: Seq<u8>) -> Seq<u8> {
    let signed = overlay(file, 12, digest);
    overlay(signed, 8, le32(adler32(signed.skip(12))))
}

/// The twenty bytes of the digest of `data`.
pub open spec fn digest_of(data: Seq<u8>) -> Seq<u8> {
    Seq::new(20, |i: int| sha1_digest(data)[i])
}

/// A file with its digest, over everything after the first 32 bytes, and its
/// checksum in place.
pub open spec fn finalized(file: Seq<u8>) -> Seq<u8> {
    with_digest(file, digest_of(file.skip(32)))
}

/// Puts `digest` and the checksum into a file.
pub fn write_digest(bytes: &mut [u8], digest: &[u8; 20])
    requires
        old(bytes)@.len() >= 32,
    ensures
        final(bytes)@ == with_digest(old(bytes)@, digest@),
{
    write_over(bytes, 12, digest.as_slice());
    let n: usize = bytes.len();
    let checksum: u32 = adler32_of(vstd::slice::slice_subrange(&*bytes, 12, n));
    assert(bytes@.subrange(12, n as int) =~= bytes@.skip(12));
    let mut field: Vec<u8> = Vec::new();
    push_u32(&mut field, checksum);
    assert(field@ =~= le32(checksum));
    write_over(bytes, 8, field.as_slice());
}

/// Computes the digest and the checksum of a complete file and puts them into its
/// header.
pub fn finalize_checksums(bytes: &mut [u8]) -> (r: Result<(), DexEmitError>)
    requires
        old(bytes)@.len() < 0x2000_0000_0000_0000,
    ensures
        if old(bytes)@.len() < 32 {
            r == Err::<(), DexEmitError>(
                DexEmitError::OffsetOverflow {
                    section: "header",
                    context: "finalize_checksums: file shorter than 32 bytes (can't fit magic + checksum + signature fields)",
                },
            ) && final(bytes)@ == old(bytes)@
        } else {
            r is Ok && final(bytes)@ == finalized(old(bytes)@)
        },
{
    if bytes.len() < 32 {
        return Err(
            DexEmitError::OffsetOverflow {
                section: "header",
                context: "finalize_checksums: file shorter than 32 bytes (can't fit magic + checksum + signature fields)",
            },
        );
    }
    let n: usize = bytes.len();
    let digest: [u8; 20] = sha1_of(vstd::slice::slice_subrange(&*bytes, 32, n));
    assert(bytes@.subrange(32, n as int) =~= bytes@.skip(32));
    assert(digest@ =~= digest_of(bytes@.skip(32)));
    write_digest(bytes, &digest);
    Ok(())
}

/// Both halves of a checksum are below 65521, so it fits in 32 bits.
pub proof fn adler32_halves(s: Seq<u8>)
    ensures
        adler_low(s) < 65521,
        adler_high(s) < 65521,
        adler32(s) == adler_high(s) * 65536 + adler_low(s),
    decreases s.len(),
{
    if s.len() > 0 {
        adler32_halves(s.drop_last());
    }
}

/// Finalizing a file changes nothing outside the 24 bytes of checksum and digest.
pub proof fn finalizing_keeps_the_rest(file: Seq<u8>, i: int)
    requires
        file.len() >= 32,
        0 <= i < file.len(),
        i < 8 || i >= 32,
    ensures
        finalized(file).len() == file.len(),
        finalized(file)[i] == file[i],
{
}

/// Finalizing a finalized file again changes nothing.
pub proof fn finalizing_again_changes_nothing(file: Seq<u8>)
    requires
        file.len() >= 32,
    ensures
        finalized(finalized(file)) == finalized(file),
{
    let once = finalized(file);
    assert(once.skip(32) =~= file.skip(32));
    let digest = digest_of(file.skip(32));
    let a = overlay(file, 12, digest);
    let b = overlay(once, 12, digest);
    assert(a.skip(12) =~= b.skip(12));
    assert(with_digest(once, digest) =~= once);
}

/// A finalized file holds the digest of what follows the digest, and the checksum
/// of the digest and what follows it.
pub proof fn finalized_file_is_valid(file: Seq<u8>)
    requires
        file.len() >= 32,
    ensures
        ({
            let out = finalized(file);
            &&& out.subrange(12, 32) == digest_of(out.skip(32))
            &&& out.subrange(8, 12) == le32(adler32(out.skip(12)))
        }),
{
    let out = finalized(file);
    let digest = digest_of(file.skip(32));
    let signed = overlay(file, 12, digest);
    assert(out.skip(32) =~= file.skip(32));
    assert(out.skip(12) =~= signed.skip(12));
    assert(out.subrange(12, 32) =~= digest);
    assert(out.subrange(8, 12) =~= le32(adler32(signed.skip(12))));
}

} // verus!
