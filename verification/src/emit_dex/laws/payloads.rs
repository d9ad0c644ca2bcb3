//! The data blocks of switch and array instructions read back.
use vstd::prelude::*;

use crate::bytes::{le16, le32, read_le16, read_le32, twos32};
use crate::decode::PayloadData;
use crate::emit_dex::code_item::{payload_units, sat32};
use crate::emit_dex::laws::instructions::signed_bits;
use crate::emit_dex::laws::place::{
    half_in, holding_is_transitive, holds_at, in_front, in_rest, word_in,
};
use crate::emit_dex::payload::{
    fill_array, keys_bytes, packed_switch, payload_written, sparse_switch, target_written,
    targets_written,
};

verus! {

proof fn lemma_targets_len(targets: Seq<u32>, pc: u32, i: nat)
    requires
        i <= targets.len(),
        targets_written(targets, pc, i).fault is None,
    ensures
        targets_written(targets, pc, i).bytes.len() == 4 * (targets.len() - i),
    decreases targets.len() - i,
{
    if i < targets.len() {
        lemma_targets_len(targets, pc, i + 1);
    }
}

proof fn lemma_target_at(targets: Seq<u32>, pc: u32, i: nat, j: int)
    requires
        i <= j < targets.len(),
        targets_written(targets, pc, i).fault is None,
    ensures
        -0x8000_0000 <= targets[j] - pc <= 0x7FFF_FFFF,
        holds_at(
            targets_written(targets, pc, i).bytes,
            4 * (j - i),
            le32(twos32(targets[j] - pc)),
        ),
    decreases targets.len() - i,
{
    let first = target_written(targets[i as int], pc).bytes;
    let rest = targets_written(targets, pc, i + 1).bytes;
    if i < j {
        lemma_target_at(targets, pc, i + 1, j);
        in_rest(first, rest, 4 * (j - i - 1), le32(twos32(targets[j] - pc)));
    } else {
        in_front(first, rest);
    }
}

proof fn lemma_keys_len(keys: Seq<i32>, n: nat)
    ensures
        keys_bytes(keys, n).len() == 4 * n,
    decreases n,
{
    if n > 0 {
        lemma_keys_len(keys, (n - 1) as nat);
    }
}

proof fn lemma_key_at(keys: Seq<i32>, n: nat, j: int)
    requires
        0 <= j < n <= keys.len(),
    ensures
        holds_at(keys_bytes(keys, n), 4 * j, le32(twos32(keys[j] as int))),
    decreases n,
{
    let before = keys_bytes(keys, (n - 1) as nat);
    let last = le32(twos32(keys[n - 1] as int));
    lemma_keys_len(keys, (n - 1) as nat);
    if j < n - 1 {
        lemma_key_at(keys, (n - 1) as nat, j);
        in_front(before, last);
        holding_is_transitive(before + last, 0, before, 4 * j, le32(twos32(keys[j] as int)));
    } else {
        in_front(last, Seq::empty());
        assert(last + Seq::<u8>::empty() =~= last);
        in_rest(before, last, 0, last);
    }
}

/// The signed word at `at`.
pub open spec fn signed_word(s: Seq<u8>, at: int) -> int {
    signed_bits(read_le32(s, at), 0x1_0000_0000)
}

proof fn lemma_signed_word(s: Seq<u8>, at: int, v: int)
    requires
        -0x8000_0000 <= v <= 0x7FFF_FFFF,
        holds_at(s, at, le32(twos32(v))),
    ensures
        signed_word(s, at) == v,
{
    let w = le32(twos32(v));
    assert(w.subrange(0, 4) =~= w);
    word_in(s, at, w, 0, twos32(v));
}

/// A switch block with keys that follow each other takes eight bytes and four for each
/// target. Its mark, the number of targets and the first key read back, and so does
/// every target, as its distance from the switch.
pub proof fn packed_switches_read_back(first_key: i32, targets: Seq<u32>, switch_pc: u32, j: int)
    requires
        packed_switch(first_key, targets, switch_pc).fault is None,
        0 <= j < targets.len(),
    ensures
        ({
            let b = packed_switch(first_key, targets, switch_pc).bytes;
            &&& b.len() == 8 + 4 * targets.len()
            &&& read_le16(b, 0) == 0x0100
            &&& read_le16(b, 2) == targets.len()
            &&& signed_word(b, 4) == first_key
            &&& switch_pc + signed_word(b, 8 + 4 * j) == targets[j]
        }),
{
    let n = targets.len() as u16;
    let key = twos32(first_key as int);
    let head = le16(0x0100) + le16(n) + le32(key);
    let body = targets_written(targets, switch_pc, 0).bytes;
    lemma_targets_len(targets, switch_pc, 0);
    lemma_target_at(targets, switch_pc, 0, j);
    in_front(head, body);
    assert(head.subrange(0, 2) =~= le16(0x0100));
    assert(head.subrange(2, 4) =~= le16(n));
    assert(head.subrange(4, 8) =~= le32(key));
    half_in(head + body, 0, head, 0, 0x0100);
    half_in(head + body, 0, head, 2, n);
    assert(holds_at(head, 4, le32(key)));
    holding_is_transitive(head + body, 0, head, 4, le32(key));
    lemma_signed_word(head + body, 4, first_key as int);
    in_rest(head, body, 4 * j, le32(twos32(targets[j] - switch_pc)));
    lemma_signed_word(head + body, 8 + 4 * j, targets[j] - switch_pc);
}

/// A switch block with a key for each target takes four bytes and eight for each of
/// them. Every key reads back, and so does every target, as its distance from the
/// switch.
pub proof fn sparse_switches_read_back(
    keys: Seq<i32>,
    targets: Seq<u32>,
    switch_pc: u32,
    j: int,
)
    requires
        sparse_switch(keys, targets, switch_pc).fault is None,
        0 <= j < targets.len(),
    ensures
        ({
            let b = sparse_switch(keys, targets, switch_pc).bytes;
            &&& b.len() == 4 + 8 * targets.len()
            &&& read_le16(b, 0) == 0x0200
            &&& read_le16(b, 2) == targets.len()
            &&& signed_word(b, 4 + 4 * j) == keys[j]
            &&& switch_pc + signed_word(b, 4 + 4 * keys.len() + 4 * j) == targets[j]
        }),
{
    let n = keys.len() as u16;
    let mark = le16(0x0200) + le16(n);
    let list = keys_bytes(keys, keys.len());
    let head = mark + list;
    let body = targets_written(targets, switch_pc, 0).bytes;
    lemma_targets_len(targets, switch_pc, 0);
    lemma_target_at(targets, switch_pc, 0, j);
    lemma_keys_len(keys, keys.len());
    lemma_key_at(keys, keys.len(), j);
    in_front(head, body);
    in_front(mark, list);
    assert(mark.subrange(0, 2) =~= le16(0x0200));
    assert(mark.subrange(2, 4) =~= le16(n));
    holding_is_transitive(head + body, 0, head, 0, mark);
    half_in(head + body, 0, mark, 0, 0x0200);
    half_in(head + body, 0, mark, 2, n);
    let key = le32(twos32(keys[j] as int));
    in_rest(mark, list, 4 * j, key);
    holding_is_transitive(head + body, 0, head, 4 + 4 * j, key);
    lemma_signed_word(head + body, 4 + 4 * j, keys[j] as int);
    in_rest(head, body, 4 * j, le32(twos32(targets[j] - switch_pc)));
    lemma_signed_word(head + body, 4 + 4 * keys.len() + 4 * j, targets[j] - switch_pc);
}

/// A block of array elements takes eight bytes and the data, made even. Its mark, the
/// width and the number of elements read back, and the data stand behind them.
pub proof fn array_blocks_read_back(width: u16, data: Seq<u8>)
    requires
        fill_array(width, data).fault is None,
    ensures
        ({
            let b = fill_array(width, data).bytes;
            &&& b.len() == 8 + data.len() + data.len() % 2
            &&& read_le16(b, 0) == 0x0300
            &&& read_le16(b, 2) == width
            &&& read_le32(b, 4) * width == data.len()
            &&& holds_at(b, 8, data)
        }),
{
    let count = (data.len() as int / width as int) as u32;
    let head = le16(0x0300) + le16(width) + le32(count);
    let pad = if data.len() % 2 == 1 {
        seq![0u8]
    } else {
        Seq::empty()
    };
    let b = fill_array(width, data).bytes;
    assert(b =~= head + (data + pad));
    in_front(head, data + pad);
    in_front(data, pad);
    in_rest(head, data + pad, 0, data);
    assert(head.subrange(0, 2) =~= le16(0x0300));
    assert(head.subrange(2, 4) =~= le16(width));
    assert(head.subrange(4, 8) =~= le32(count));
    half_in(b, 0, head, 0, 0x0300);
    half_in(b, 0, head, 2, width);
    word_in(b, 0, head, 4, count);
    if width == 1 {
    } else if width == 2 {
    } else if width == 4 {
    } else {
        assert(width == 8);
    }
}

proof fn lemma_packed_len(first_key: i32, targets: Seq<u32>, switch_pc: u32)
    requires
        packed_switch(first_key, targets, switch_pc).fault is None,
    ensures
        packed_switch(first_key, targets, switch_pc).bytes.len() == 8 + 4 * targets.len(),
        targets.len() <= 0xFFFF,
{
    lemma_targets_len(targets, switch_pc, 0);
}

proof fn lemma_sparse_len(keys: Seq<i32>, targets: Seq<u32>, switch_pc: u32)
    requires
        sparse_switch(keys, targets, switch_pc).fault is None,
    ensures
        sparse_switch(keys, targets, switch_pc).bytes.len() == 4 + 8 * keys.len(),
        keys.len() <= 0xFFFF,
{
    lemma_targets_len(targets, switch_pc, 0);
    lemma_keys_len(keys, keys.len());
}

proof fn lemma_even(len: nat)
    requires
        len < u32::MAX,
    ensures
        8 + len + len % 2 == 2 * sat32(4 + sat32(len as int + 1) / 2),
{
}

proof fn lemma_array_len(width: u16, data: Seq<u8>)
    requires
        fill_array(width, data).fault is None,
        data.len() < u32::MAX,
    ensures
        fill_array(width, data).bytes.len() == 2 * sat32(4 + sat32(data.len() as int + 1) / 2),
{
    array_blocks_read_back(width, data);
    lemma_even(data.len());
}

/// A data block takes as many code units as were counted for it. For array data of
/// `u32::MAX` bytes one unit less is counted than it takes.
pub proof fn payloads_fill_their_units(payload: PayloadData, switch_pc: u32)
    requires
        payload_written(payload, switch_pc).fault is None,
        payload_units(payload) is Ok,
        payload matches PayloadData::FillArrayData { data, .. } ==> data@.len() < u32::MAX,
    ensures
        payload_written(payload, switch_pc).bytes.len() == 2 * payload_units(payload)->Ok_0,
{
    match payload {
        PayloadData::PackedSwitch { first_key, targets } => {
            lemma_packed_len(first_key, targets@, switch_pc);
        },
        PayloadData::SparseSwitch { keys, targets } => {
            lemma_sparse_len(keys@, targets@, switch_pc);
        },
        PayloadData::FillArrayData { element_width, data } => {
            lemma_array_len(element_width, data@);
        },
    }
}

} // verus!
