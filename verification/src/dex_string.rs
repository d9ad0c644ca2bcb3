//! Entries of the string pool.
use vstd::prelude::*;

use crate::mutf8::{cesu8_units, encode_mutf8_into, mutf8, utf16, utf16_unit_count};

verus! {

/// A string of the pool: its bytes as stored, its declared number of UTF-16 code
/// units, and the text they decode to.
#[derive(Debug, Clone, PartialEq, Eq)]
pub enum DexString {
    /// The bytes are well formed; `s` is what they say.
    Decoded { s: String, raw_bytes: Vec<u8>, declared_chars: u32 },
    /// The bytes are not well formed; `lossy` has replacement characters.
    MalformedMutf8 { lossy: String, raw_bytes: Vec<u8>, declared_chars: u32 },
}

impl DexString {
    /// The text, with replacement characters where the bytes are malformed.
    pub open spec fn text(self) -> Seq<char> {
        match self {
            DexString::Decoded { s, .. } => s@,
            DexString::MalformedMutf8 { lossy, .. } => lossy@,
        }
    }

    /// The bytes as stored.
    pub open spec fn stored(self) -> Seq<u8> {
        match self {
            DexString::Decoded { raw_bytes, .. } => raw_bytes@,
            DexString::MalformedMutf8 { raw_bytes, .. } => raw_bytes@,
        }
    }

    /// The declared number of UTF-16 code units.
    pub open spec fn declared(self) -> u32 {
        match self {
            DexString::Decoded { declared_chars, .. } => declared_chars,
            DexString::MalformedMutf8 { declared_chars, .. } => declared_chars,
        }
    }

    /// The UTF-16 code units by which the pool is ordered. Those of a malformed
    /// string come from its bytes, not from its lossy text.
    pub open spec fn sort_units(self) -> Seq<u16> {
        match self {
            DexString::Decoded { s, .. } => utf16(s@),
            DexString::MalformedMutf8 { raw_bytes, .. } => cesu8_units(raw_bytes@, 0),
        }
    }

    /// Whether the text is `other`.
    pub fn reads(&self, other: &String) -> (r: bool)
        ensures
            r == (self.text() == other@),
    {
        match self {
            DexString::Decoded { s, .. } => *s == *other,
            DexString::MalformedMutf8 { lossy, .. } => *lossy == *other,
        }
    }

    /// A string that decodes to `s` and declares its true length.
    pub fn from_decoded_str(s: &str) -> (r: DexString)
        ensures
            r is Decoded,
            r.text() == s@,
            r.stored() == mutf8(s@),
            r.declared() == (if utf16(s@).len() <= u32::MAX {
                utf16(s@).len() as int
            } else {
                u32::MAX as int
            }),
    {
        let mut raw_bytes: Vec<u8> = Vec::new();
        encode_mutf8_into(&mut raw_bytes, s);
        assert(raw_bytes@ =~= mutf8(s@));
        DexString::Decoded { s: s.to_owned(), raw_bytes, declared_chars: utf16_unit_count(s) }
    }

    /// The text, with replacement characters where the bytes are malformed.
    pub fn as_str_lossy(&self) -> (r: &str)
        ensures
            r@ == self.text(),
    {
        match self {
            DexString::Decoded { s, .. } => s.as_str(),
            DexString::MalformedMutf8 { lossy, .. } => lossy.as_str(),
        }
    }

    /// The bytes as stored.
    pub fn raw_bytes(&self) -> (r: &[u8])
        ensures
            r@ == self.stored(),
    {
        match self {
            DexString::Decoded { raw_bytes, .. } => raw_bytes.as_slice(),
            DexString::MalformedMutf8 { raw_bytes, .. } => raw_bytes.as_slice(),
        }
    }

    /// The declared number of UTF-16 code units.
    pub fn declared_chars(&self) -> (r: u32)
        ensures
            r == self.declared(),
    {
        match self {
            DexString::Decoded { declared_chars, .. } => *declared_chars,
            DexString::MalformedMutf8 { declared_chars, .. } => *declared_chars,
        }
    }
}

} // verus!
