//! Little-endian integers in byte sequences.
use vstd::prelude::*;

verus! {

/// The two bytes of `v`, low byte first.
pub open spec fn le16(v: u16) -> Seq<u8> {
    seq![(v % 256) as u8, (v / 256) as u8]
}

/// The four bytes of `v`, low byte first.
pub open spec fn le32(v: u32) -> Seq<u8> {
    seq![
        (v % 256) as u8,
        (v / 256 % 256) as u8,
        (v / 65536 % 256) as u8,
        (v / 16777216) as u8,
    ]
}

/// The `n` low bytes of `v`, lowest first.
pub open spec fn le_low(v: u64, n: nat) -> Seq<u8>
    decreases n,
{
    if n == 0 {
        Seq::empty()
    } else {
        seq![(v % 256) as u8] + le_low(v / 256, (n - 1) as nat)
    }
}

/// `n` zero bytes.
pub open spec fn zeros(n: nat) -> Seq<u8> {
    Seq::new(n, |i: int| 0u8)
}

/// `base` with the bytes from `at` on replaced by `part`.
pub open spec fn overlay(base: Seq<u8>, at: int, part: Seq<u8>) -> Seq<u8> {
    base.take(at) + part + base.skip(at + part.len())
}

/// The unsigned number with the same 32-bit two's-complement pattern as `v`.
pub open spec fn twos32(v: int) -> u32 {
    if v < 0 {
        (v + 0x1_0000_0000) as u32
    } else {
        v as u32
    }
}

/// The unsigned number with the same 16-bit two's-complement pattern as `v`.
pub open spec fn twos16(v: int) -> u16 {
    if v < 0 {
        (v + 0x1_0000) as u16
    } else {
        v as u16
    }
}

/// The unsigned number with the same 8-bit two's-complement pattern as `v`.
pub open spec fn twos8(v: int) -> u8 {
    if v < 0 {
        (v + 0x100) as u8
    } else {
        v as u8
    }
}

/// The unsigned number with the same 64-bit two's-complement pattern as `v`.
pub open spec fn twos64(v: int) -> u64 {
    if v < 0 {
        (v + 0x1_0000_0000_0000_0000) as u64
    } else {
        v as u64
    }
}

/// The number that four little-endian bytes at `at` stand for.
pub open spec fn read_le32(s: Seq<u8>, at: int) -> int {
    s[at] + 256 * s[at + 1] + 65536 * s[at + 2] + 16777216 * s[at + 3]
}

/// The number that two little-endian bytes at `at` stand for.
pub open spec fn read_le16(s: Seq<u8>, at: int) -> int {
    s[at] + 256 * s[at + 1]
}

/// Four bytes written low byte first read back as the number, wherever they stand.
pub proof fn le32_reads_back(before: Seq<u8>, v: u32, after: Seq<u8>)
    ensures
        read_le32(before + le32(v) + after, before.len() as int) == v,
{
    let s = before + le32(v) + after;
    let n = before.len() as int;
    assert(s[n] == le32(v)[0]);
    assert(s[n + 1] == le32(v)[1]);
    assert(s[n + 2] == le32(v)[2]);
    assert(s[n + 3] == le32(v)[3]);
}

/// Two bytes written low byte first read back as the number, wherever they stand.
pub proof fn le16_reads_back(before: Seq<u8>, v: u16, after: Seq<u8>)
    ensures
        read_le16(before + le16(v) + after, before.len() as int) == v,
{
    let s = before + le16(v) + after;
    let n = before.len() as int;
    assert(s[n] == le16(v)[0]);
    assert(s[n + 1] == le16(v)[1]);
}

/// Appends `val` low byte first.
pub fn push_u16(out: &mut Vec<u8>, val: u16)
    ensures
        final(out)@ == old(out)@ + le16(val),
{
    out.push((val % 256) as u8);
    out.push((val / 256) as u8);
    assert(out@ =~= old(out)@ + le16(val));
}

/// Appends `val` low byte first.
pub fn push_u32(out: &mut Vec<u8>, val: u32)
    ensures
        final(out)@ == old(out)@ + le32(val),
{
    out.push((val % 256) as u8);
    out.push((val / 256 % 256) as u8);
    out.push((val / 65536 % 256) as u8);
    out.push((val / 16777216) as u8);
    assert(out@ =~= old(out)@ + le32(val));
}

/// Appends the two's-complement bytes of `val`, low byte first.
pub fn push_i32(out: &mut Vec<u8>, val: i32)
    ensures
        final(out)@ == old(out)@ + le32(twos32(val as int)),
{
    push_u32(out, i32_bits(val));
}

/// The 32-bit pattern of `val`.
pub fn i32_bits(val: i32) -> (r: u32)
    ensures
        r == twos32(val as int),
{
    if val < 0 {
        (val as i64 + 0x1_0000_0000) as u32
    } else {
        val as u32
    }
}

/// The 64-bit pattern of `val`.
pub fn i64_bits(val: i64) -> (r: u64)
    ensures
        r == twos64(val as int),
{
    if val < 0 {
        (val as i128 + 0x1_0000_0000_0000_0000) as u64
    } else {
        val as u64
    }
}

/// Appends the `size` low bytes of `val`, lowest first; at most eight.
pub fn write_le_bytes(out: &mut Vec<u8>, val: u64, size: usize)
    ensures
        final(out)@ == old(out)@ + le_low(val, if size <= 8 { size as nat } else { 8 }),
{
    let n: usize = if size <= 8 { size } else { 8 };
    let mut rest: u64 = val;
    let mut i: usize = 0;
    while i < n
        invariant
            i <= n,
            old(out)@ + le_low(val, n as nat) =~= out@ + le_low(rest, (n - i) as nat),
        decreases n - i,
    {
        out.push((rest % 256) as u8);
        rest = rest / 256;
        i = i + 1;
    }
}

/// Appends `n` zero bytes.
pub fn push_zeros(out: &mut Vec<u8>, n: usize)
    ensures
        final(out)@ == old(out)@ + zeros(n as nat),
{
    let mut i: usize = 0;
    while i < n
        invariant
            i <= n,
            out@ =~= old(out)@ + zeros(i as nat),
        decreases n - i,
    {
        out.push(0);
        i = i + 1;
    }
}

/// Replaces the bytes of `buf` from `at` on by `part`.
pub fn write_over(buf: &mut [u8], at: usize, part: &[u8])
    requires
        at + part@.len() <= old(buf)@.len(),
    ensures
        final(buf)@ == overlay(old(buf)@, at as int, part@),
{
    let total: usize = buf.len();
    let mut i: usize = 0;
    while i < part.len()
        invariant
            i <= part@.len(),
            at + part@.len() <= total == old(buf)@.len(),
            buf@.len() == total,
            buf@ =~= overlay(old(buf)@, at as int, part@.take(i as int)),
        decreases part.len() - i,
    {
        buf[at + i] = part[i];
        i = i + 1;
        assert(part@.take(i as int) =~= part@.take(i - 1).push(part@[i - 1]));
    }
    assert(part@.take(i as int) =~= part@);
}

} // verus!
