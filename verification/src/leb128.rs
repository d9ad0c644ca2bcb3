//! Variable-length integers: seven bits per byte, lowest group first, the top
//! bit set on every byte but the last.
use vstd::prelude::*;

verus! {

/// The unsigned encoding of `v`.
pub open spec fn uleb(v: nat) -> Seq<u8>
    decreases v,
{
    if v < 128 {
        seq![v as u8]
    } else {
        seq![(v % 128 + 128) as u8] + uleb(v / 128)
    }
}

/// The signed encoding of `v`: it stops at the first group whose top bit already
/// is the sign of what is left.
pub open spec fn sleb(v: int) -> Seq<u8>
    decreases (if v < 0 { -v } else { v }),
{
    if -64 <= v < 64 {
        seq![(v % 128) as u8]
    } else {
        seq![(v % 128 + 128) as u8] + sleb(v / 128)
    }
}

/// The unsigned number that starts `s`, and how many bytes it takes.
pub open spec fn uleb_read(s: Seq<u8>) -> Option<(nat, nat)>
    decreases s.len(),
{
    if s.len() == 0 {
        None
    } else if s[0] < 128 {
        Some((s[0] as nat, 1))
    } else {
        match uleb_read(s.skip(1)) {
            Some((v, n)) => Some(((s[0] - 128 + 128 * v) as nat, n + 1)),
            None => None,
        }
    }
}

/// The signed number that starts `s`, and how many bytes it takes.
pub open spec fn sleb_read(s: Seq<u8>) -> Option<(int, nat)>
    decreases s.len(),
{
    if s.len() == 0 {
        None
    } else if s[0] < 128 {
        Some((if s[0] < 64 { s[0] as int } else { s[0] - 128 }, 1))
    } else {
        match sleb_read(s.skip(1)) {
            Some((v, n)) => Some((s[0] - 128 + 128 * v, n + 1)),
            None => None,
        }
    }
}

/// Reading the unsigned encoding of a number gives the number back, whatever
/// follows it, and consumes exactly the encoding.
pub proof fn uleb_reads_back(v: nat, rest: Seq<u8>)
    ensures
        uleb_read(uleb(v) + rest) == Some((v, uleb(v).len())),
    decreases v,
{
    let s = uleb(v) + rest;
    if v >= 128 {
        uleb_reads_back(v / 128, rest);
        assert(s.skip(1) =~= uleb(v / 128) + rest);
        assert(s[0] == v % 128 + 128);
    } else {
        assert(s[0] == v);
    }
}

/// Reading the signed encoding of a number gives the number back, whatever
/// follows it, and consumes exactly the encoding.
pub proof fn sleb_reads_back(v: int, rest: Seq<u8>)
    ensures
        sleb_read(sleb(v) + rest) == Some((v, sleb(v).len())),
    decreases (if v < 0 { -v } else { v }),
{
    let s = sleb(v) + rest;
    if -64 <= v < 64 {
        assert(s[0] == v % 128);
    } else {
        sleb_reads_back(v / 128, rest);
        assert(s.skip(1) =~= sleb(v / 128) + rest);
        assert(s[0] == v % 128 + 128);
    }
}

/// A 32-bit number takes one to five bytes.
pub proof fn uleb_len(v: u32)
    ensures
        1 <= uleb(v as nat).len() <= 5,
{
    reveal_with_fuel(uleb, 6);
}

/// No shorter encoding says the same: the last group of the unsigned encoding is not zero where
/// there is another before it.
pub proof fn uleb_is_shortest(v: nat)
    ensures
        uleb(v).len() >= 1,
        uleb(v).len() > 1 ==> uleb(v).last() != 0,
        uleb(v).last() < 128,
        forall|i: int| 0 <= i < uleb(v).len() - 1 ==> #[trigger] uleb(v)[i] >= 128,
    decreases v,
{
    if v >= 128 {
        let rest = uleb(v / 128);
        uleb_is_shortest(v / 128);
        assert(uleb(v).last() == rest.last());
        if rest.len() == 1 {
            assert(v / 128 < 128) by {
                if v / 128 >= 128 {
                    uleb_is_shortest(v / 128 / 128);
                }
            }
        }
        assert forall|i: int| 0 <= i < uleb(v).len() - 1 implies #[trigger] uleb(v)[i] >= 128 by {
            if i > 0 {
                assert(uleb(v)[i] == rest[i - 1]);
            }
        }
    }
}

/// No shorter encoding says the same: the last group of the signed encoding does more than
/// repeat the sign of the one before it.
pub proof fn sleb_is_shortest(v: int)
    ensures
        ({
            let s = sleb(v);
            let n = s.len() as int;
            &&& n >= 1
            &&& s[n - 1] < 128
            &&& n > 1 ==> !(s[n - 1] == 0 && s[n - 2] < 128 + 64) && !(s[n - 1] == 127 && s[n - 2]
                >= 128 + 64)
            &&& forall|i: int| 0 <= i < n - 1 ==> #[trigger] s[i] >= 128
        }),
    decreases (if v < 0 { -v } else { v }),
{
    if !(-64 <= v < 64) {
        let rest = sleb(v / 128);
        let s = sleb(v);
        let n = s.len() as int;
        sleb_is_shortest(v / 128);
        assert(s[n - 1] == rest[n - 2]);
        if n == 2 {
            assert(-64 <= v / 128 < 64) by {
                if !(-64 <= v / 128 < 64) {
                    sleb_is_shortest(v / 128 / 128);
                }
            }
            assert(s[0] == v % 128 + 128);
            assert(s[1] == (v / 128) % 128);
        } else {
            assert(s[n - 2] == rest[n - 3]);
        }
        assert forall|i: int| 0 <= i < n - 1 implies #[trigger] s[i] >= 128 by {
            if i > 0 {
                assert(s[i] == rest[i - 1]);
            }
        }
    }
}

/// Appends the unsigned encoding of `value`.
pub fn write_uleb128(out: &mut Vec<u8>, value: u32)
    ensures
        final(out)@ == old(out)@ + uleb(value as nat),
{
    let mut v: u32 = value;
    while v >= 128
        invariant
            old(out)@ + uleb(value as nat) =~= out@ + uleb(v as nat),
        decreases v,
    {
        out.push((v % 128 + 128) as u8);
        v = v / 128;
    }
    out.push(v as u8);
    assert(out@ =~= old(out)@ + uleb(value as nat));
}

/// Appends the signed encoding of `value`.
pub fn write_sleb128(out: &mut Vec<u8>, value: i32)
    ensures
        final(out)@ == old(out)@ + sleb(value as int),
{
    let mut v: i64 = value as i64;
    while !(-64 <= v && v < 64)
        invariant
            i32::MIN <= v <= i32::MAX,
            old(out)@ + sleb(value as int) =~= out@ + sleb(v as int),
        decreases (if v < 0 { -v } else { v as int }),
    {
        let shifted: u64 = (v + 0x1_0000_0000) as u64;
        out.push((shifted % 128 + 128) as u8);
        v = (shifted / 128) as i64 - 0x200_0000;
    }
    let shifted: u64 = (v + 0x1_0000_0000) as u64;
    out.push((shifted % 128) as u8);
    assert(out@ =~= old(out)@ + sleb(value as int));
}

} // verus!
