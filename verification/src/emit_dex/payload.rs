//! Data blocks of switch and fill-array-data instructions.
use vstd::prelude::*;

use crate::bytes::{le16, le32, push_i32, push_u16, push_u32, twos32};
use crate::decode::PayloadData;
use crate::emit_dex::error::DexEmitError;
use crate::emit_dex::instruction::{branch32, branch_offset};
use crate::emit_dex::ordering::{strictly_ascending, StrictlyAscending};
use crate::emit_dex::written::{done, failed, remains, unrepresentable, Written};

verus! {

/// A switch target as its distance from the switch.
pub open spec fn target_written(target: u32, switch_pc: u32) -> Written {
    match branch32(target, switch_pc) {
        Ok(x) => done(le32(x as u32)),
        Err(e) => failed(e),
    }
}

/// The targets from position `i` on.
pub open spec fn targets_written(targets: Seq<u32>, switch_pc: u32, i: nat) -> Written
    decreases targets.len() - i,
{
    if i >= targets.len() {
        done(Seq::empty())
    } else {
        target_written(targets[i as int], switch_pc).and(
            targets_written(targets, switch_pc, i + 1),
        )
    }
}

/// The first `n` keys.
pub open spec fn keys_bytes(keys: Seq<i32>, n: nat) -> Seq<u8>
    decreases n,
{
    if n == 0 {
        Seq::empty()
    } else {
        keys_bytes(keys, (n - 1) as nat) + le32(twos32(keys[n - 1] as int))
    }
}

/// A switch block whose keys follow each other.
pub open spec fn packed_switch(first_key: i32, targets: Seq<u32>, switch_pc: u32) -> Written {
    if targets.len() > 0xFFFF {
        failed(
            DexEmitError::SizeOverflow {
                layer: "packed_switch_payload",
                context: "target count exceeds u16 (DEX spec §6)",
            },
        )
    } else {
        done(le16(0x0100) + le16(targets.len() as u16) + le32(twos32(first_key as int))).and(
            targets_written(targets, switch_pc, 0),
        )
    }
}

/// A switch block with a key for each target.
pub open spec fn sparse_switch(keys: Seq<i32>, targets: Seq<u32>, switch_pc: u32) -> Written {
    if keys.len() != targets.len() {
        unrepresentable("sparse_switch_payload: keys.len() != targets.len()")
    } else if keys.len() > 0xFFFF {
        failed(
            DexEmitError::SizeOverflow {
                layer: "sparse_switch_payload",
                context: "entry count exceeds u16",
            },
        )
    } else {
        done(le16(0x0200) + le16(keys.len() as u16) + keys_bytes(keys, keys.len())).and(
            targets_written(targets, switch_pc, 0),
        )
    }
}

/// A block of array elements, padded to a whole number of code units.
pub open spec fn fill_array(width: u16, data: Seq<u8>) -> Written {
    if width != 1 && width != 2 && width != 4 && width != 8 {
        unrepresentable(
            "fill_array_data_payload: element_width must be 1, 2, 4, or 8 (DEX spec §6)",
        )
    } else if data.len() as int % width as int != 0 {
        unrepresentable(
            "fill_array_data_payload: data length is not a multiple of element_width",
        )
    } else if data.len() as int / width as int > u32::MAX {
        failed(
            DexEmitError::SizeOverflow {
                layer: "fill_array_data_payload",
                context: "element count exceeds u32",
            },
        )
    } else {
        done(
            le16(0x0300) + le16(width) + le32((data.len() as int / width as int) as u32) + data
                + if data.len() % 2 == 1 {
                seq![0u8]
            } else {
                Seq::empty()
            },
        )
    }
}

/// The data block of an instruction at `switch_pc`.
pub open spec fn payload_written(payload: PayloadData, switch_pc: u32) -> Written {
    match payload {
        PayloadData::PackedSwitch { first_key, targets } => packed_switch(
            first_key,
            targets@,
            switch_pc,
        ),
        PayloadData::SparseSwitch { keys, targets } => if strictly_ascending(keys@) {
            sparse_switch(keys@, targets@, switch_pc)
        } else {
            unrepresentable("sparse_switch payload: keys not strictly ascending (spec §6)")
        },
        PayloadData::FillArrayData { element_width, data } => fill_array(element_width, data@),
    }
}

fn push_targets(out: &mut Vec<u8>, targets: &[u32], switch_pc: u32) -> (r: Result<(), DexEmitError>)
    ensures
        targets_written(targets@, switch_pc, 0).appends(old(out)@, final(out)@, r),
{
    let ghost whole = targets_written(targets@, switch_pc, 0);
    let mut i: usize = 0;
    while i < targets.len()
        invariant
            i <= targets@.len(),
            whole == targets_written(targets@, switch_pc, 0),
            remains(old(out)@, whole, out@, targets_written(targets@, switch_pc, i as nat)),
        decreases targets@.len() - i,
    {
        let diff: i64 = branch_offset(targets[i], switch_pc);
        if diff < -0x8000_0000 || diff > 0x7FFF_FFFF {
            return Err(
                DexEmitError::OffsetOverflow {
                    section: "instruction_branch",
                    context: "32-bit branch offset overflow (target and pc more than 2^31 code units apart)",
                },
            );
        }
        push_i32(out, diff as i32);
        i = i + 1;
    }
    Ok(())
}

/// Appends a switch block for the keys from `first_key` on. Targets are stored as
/// distances from the switch instruction at `switch_pc`.
pub fn emit_packed_switch_payload(
    out: &mut Vec<u8>,
    first_key: i32,
    targets: &[u32],
    switch_pc: u32,
) -> (r: Result<(), DexEmitError>)
    ensures
        packed_switch(first_key, targets@, switch_pc).appends(old(out)@, final(out)@, r),
{
    if targets.len() > 0xFFFF {
        assert(out@ =~= old(out)@ + Seq::<u8>::empty());
        return Err(
            DexEmitError::SizeOverflow {
                layer: "packed_switch_payload",
                context: "target count exceeds u16 (DEX spec §6)",
            },
        );
    }
    push_u16(out, 0x0100);
    push_u16(out, targets.len() as u16);
    push_i32(out, first_key);
    let r = push_targets(out, targets, switch_pc);
    assert(out@ =~= old(out)@ + packed_switch(first_key, targets@, switch_pc).bytes);
    r
}

/// Appends a switch block with one key per target. Targets are stored as distances
/// from the switch instruction at `switch_pc`.
pub fn emit_sparse_switch_payload(
    out: &mut Vec<u8>,
    keys: &StrictlyAscending<i32>,
    targets: &[u32],
    switch_pc: u32,
) -> (r: Result<(), DexEmitError>)
    ensures
        sparse_switch(keys@, targets@, switch_pc).appends(old(out)@, final(out)@, r),
{
    let list: &[i32] = keys.as_slice();
    if list.len() != targets.len() {
        assert(out@ =~= old(out)@ + Seq::<u8>::empty());
        return Err(
            DexEmitError::UnrepresentableIR {
                why: "sparse_switch_payload: keys.len() != targets.len()",
            },
        );
    }
    if list.len() > 0xFFFF {
        assert(out@ =~= old(out)@ + Seq::<u8>::empty());
        return Err(
            DexEmitError::SizeOverflow {
                layer: "sparse_switch_payload",
                context: "entry count exceeds u16",
            },
        );
    }
    push_u16(out, 0x0200);
    push_u16(out, list.len() as u16);
    let ghost head = out@;
    let mut i: usize = 0;
    while i < list.len()
        invariant
            i <= list@.len(),
            out@ =~= head + keys_bytes(list@, i as nat),
        decreases list@.len() - i,
    {
        push_i32(out, list[i]);
        i = i + 1;
    }
    let r = push_targets(out, targets, switch_pc);
    assert(out@ =~= old(out)@ + sparse_switch(list@, targets@, switch_pc).bytes);
    r
}

/// Appends a block of array elements of `element_width` bytes each.
pub fn emit_fill_array_data_payload(out: &mut Vec<u8>, element_width: u16, data: &[u8]) -> (r:
    Result<(), DexEmitError>)
    ensures
        fill_array(element_width, data@).appends(old(out)@, final(out)@, r),
{
    if element_width != 1 && element_width != 2 && element_width != 4 && element_width != 8 {
        assert(out@ =~= old(out)@ + Seq::<u8>::empty());
        return Err(
            DexEmitError::UnrepresentableIR {
                why: "fill_array_data_payload: element_width must be 1, 2, 4, or 8 (DEX spec §6)",
            },
        );
    }
    let width: usize = element_width as usize;
    if data.len() % width != 0 {
        assert(out@ =~= old(out)@ + Seq::<u8>::empty());
        return Err(
            DexEmitError::UnrepresentableIR {
                why: "fill_array_data_payload: data length is not a multiple of element_width",
            },
        );
    }
    let count: usize = data.len() / width;
    if count > u32::MAX as usize {
        assert(out@ =~= old(out)@ + Seq::<u8>::empty());
        return Err(
            DexEmitError::SizeOverflow {
                layer: "fill_array_data_payload",
                context: "element count exceeds u32",
            },
        );
    }
    push_u16(out, 0x0300);
    push_u16(out, element_width);
    push_u32(out, count as u32);
    out.extend_from_slice(data);
    if data.len() % 2 == 1 {
        out.push(0);
    }
    assert(out@ =~= old(out)@ + fill_array(element_width, data@).bytes);
    Ok(())
}

/// Appends a data block. `switch_pc` is the address of the switch it belongs to;
/// array data does not depend on it.
pub fn emit_payload(out: &mut Vec<u8>, payload: &PayloadData, switch_pc: u32) -> (r: Result<
    (),
    DexEmitError,
>)
    ensures
        payload_written(*payload, switch_pc).appends(old(out)@, final(out)@, r),
{
    match payload {
        PayloadData::PackedSwitch { first_key, targets } => emit_packed_switch_payload(
            out,
            *first_key,
            targets.as_slice(),
            switch_pc,
        ),
        PayloadData::SparseSwitch { keys, targets } => {
            match StrictlyAscending::from_verified(keys.clone()) {
                Ok(sorted) => emit_sparse_switch_payload(
                    out,
                    &sorted,
                    targets.as_slice(),
                    switch_pc,
                ),
                Err(_) => {
                    assert(out@ =~= old(out)@ + Seq::<u8>::empty());
                    Err(
                        DexEmitError::UnrepresentableIR {
                            why: "sparse_switch payload: keys not strictly ascending (spec §6)",
                        },
                    )
                },
            }
        },
        PayloadData::FillArrayData { element_width, data } => emit_fill_array_data_payload(
            out,
            *element_width,
            data.as_slice(),
        ),
    }
}

} // verus!
