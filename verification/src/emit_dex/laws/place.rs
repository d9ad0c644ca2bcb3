//! What stands where in a sequence of bytes.
use vstd::prelude::*;

use crate::bytes::{le16, le32, overlay, read_le16, read_le32};

verus! {

/// `part` stands in `file` at `at`.
pub open spec fn holds_at(file: Seq<u8>, at: int, part: Seq<u8>) -> bool {
    &&& 0 <= at
    &&& at + part.len() <= file.len()
    &&& file.subrange(at, at + part.len()) == part
}

/// The stretches `[a, a + m)` and `[b, b + n)` have nothing in common.
pub open spec fn apart(a: int, m: nat, b: int, n: nat) -> bool {
    a + m <= b || b + n <= a
}

/// A word of a part reads back from the file that the part stands in.
pub proof fn word_in(file: Seq<u8>, at: int, part: Seq<u8>, k: int, v: u32)
    requires
        holds_at(file, at, part),
        0 <= k,
        k + 4 <= part.len(),
        part.subrange(k, k + 4) == le32(v),
    ensures
        read_le32(file, at + k) == v,
{
    let w = part.subrange(k, k + 4);
    assert forall|j: int| 0 <= j < 4 implies file[at + k + j] == le32(v)[j] by {
        assert(file.subrange(at, at + part.len())[k + j] == part[k + j]);
        assert(w[j] == part[k + j]);
    }
    assert(file[at + k + 0] == le32(v)[0]);
    assert(file[at + k + 1] == le32(v)[1]);
    assert(file[at + k + 2] == le32(v)[2]);
    assert(file[at + k + 3] == le32(v)[3]);
}

/// A half-word of a part reads back from the file that the part stands in.
pub proof fn half_in(file: Seq<u8>, at: int, part: Seq<u8>, k: int, v: u16)
    requires
        holds_at(file, at, part),
        0 <= k,
        k + 2 <= part.len(),
        part.subrange(k, k + 2) == le16(v),
    ensures
        read_le16(file, at + k) == v,
{
    let w = part.subrange(k, k + 2);
    assert forall|j: int| 0 <= j < 2 implies file[at + k + j] == le16(v)[j] by {
        assert(file.subrange(at, at + part.len())[k + j] == part[k + j]);
        assert(w[j] == part[k + j]);
    }
    assert(file[at + k + 0] == le16(v)[0]);
    assert(file[at + k + 1] == le16(v)[1]);
}

/// What a word of a part says, the same word of the file says that the part stands in.
pub proof fn word_carries(file: Seq<u8>, at: int, part: Seq<u8>, k: int)
    requires
        holds_at(file, at, part),
        0 <= k,
        k + 4 <= part.len(),
    ensures
        read_le32(file, at + k) == read_le32(part, k),
{
    let s = file.subrange(at, at + part.len());
    assert(s[k] == part[k] && s[k + 1] == part[k + 1]);
    assert(s[k + 2] == part[k + 2] && s[k + 3] == part[k + 3]);
}

/// What a half-word of a part says, the same half-word of the file says that the part
/// stands in.
pub proof fn half_carries(file: Seq<u8>, at: int, part: Seq<u8>, k: int)
    requires
        holds_at(file, at, part),
        0 <= k,
        k + 2 <= part.len(),
    ensures
        read_le16(file, at + k) == read_le16(part, k),
{
    let s = file.subrange(at, at + part.len());
    assert(s[k] == part[k] && s[k + 1] == part[k + 1]);
}

/// What stands in a part of the file stands in the file.
pub proof fn holding_is_transitive(file: Seq<u8>, at: int, part: Seq<u8>, k: int, piece: Seq<u8>)
    requires
        holds_at(file, at, part),
        holds_at(part, k, piece),
    ensures
        holds_at(file, at + k, piece),
{
    assert forall|j: int| 0 <= j < piece.len() implies file[at + k + j] == piece[j] by {
        assert(file.subrange(at, at + part.len())[k + j] == part[k + j]);
        assert(part.subrange(k, k + piece.len())[j] == piece[j]);
    }
    assert(file.subrange(at + k, at + k + piece.len()) =~= piece);
}

/// What stands in the rest stands behind the first part.
pub proof fn in_rest(first: Seq<u8>, rest: Seq<u8>, at: int, item: Seq<u8>)
    requires
        holds_at(rest, at, item),
    ensures
        holds_at(first + rest, first.len() + at, item),
{
    let n = first.len() as int;
    assert((first + rest).subrange(n + at, n + at + item.len()) =~= rest.subrange(
        at,
        at + item.len(),
    ));
}

/// The first part stands at the start.
pub proof fn in_front(item: Seq<u8>, rest: Seq<u8>)
    ensures
        holds_at(item + rest, 0, item),
{
    assert((item + rest).subrange(0, item.len() as int) =~= item);
}

/// Writing elsewhere keeps what stands.
pub proof fn overlay_apart(base: Seq<u8>, at: int, part: Seq<u8>, other: int, piece: Seq<u8>)
    requires
        0 <= at,
        at + part.len() <= base.len(),
        holds_at(base, other, piece),
        apart(at, part.len(), other, piece.len()),
    ensures
        holds_at(overlay(base, at, part), other, piece),
{
    let now = overlay(base, at, part);
    assert forall|j: int| 0 <= j < piece.len() implies now[other + j] == piece[j] by {
        assert(base.subrange(other, other + piece.len())[j] == piece[j]);
    }
    assert(now.subrange(other, other + piece.len()) =~= piece);
}

/// What is written stands where it is written.
pub proof fn overlay_holds(base: Seq<u8>, at: int, part: Seq<u8>)
    requires
        0 <= at,
        at + part.len() <= base.len(),
    ensures
        holds_at(overlay(base, at, part), at, part),
{
    assert(overlay(base, at, part).subrange(at, at + part.len()) =~= part);
}

/// From where a part stands, the file is the part and what follows it.
pub proof fn rest_after(file: Seq<u8>, at: int, part: Seq<u8>)
    requires
        holds_at(file, at, part),
    ensures
        file.skip(at) == part + file.skip(at + part.len()),
{
    assert forall|j: int| 0 <= j < part.len() implies file[at + j] == part[j] by {
        assert(file.subrange(at, at + part.len())[j] == part[j]);
    }
    assert(file.skip(at) =~= part + file.skip(at + part.len()));
}

} // verus!
