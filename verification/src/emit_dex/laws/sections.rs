//! What a section owes its readers: every item stands, whole, at the place that
//! the offset map gives for it.
use vstd::prelude::*;

use crate::annotation::{AnnotationDirectoryItem, AnnotationItem, EncodedValue};
use crate::collections::{ascending, sorted_keys, sorted_keys_list};
use crate::decode::{ClassData, CodeItem};
use crate::emit_dex::directory::{
    annotation_directory_parts, annotation_directory_section, directory_part, Moved,
};
use crate::emit_dex::error::DexEmitError;
use crate::emit_dex::pools::{type_items, type_list};
use crate::emit_dex::sections::{
    annotation_item_part, annotation_item_parts, annotation_item_section, annotation_set_part,
    annotation_set_parts, annotation_set_ref_list_part, annotation_set_ref_list_parts,
    annotation_set_ref_list_section, annotation_set_section, class_data_part, class_data_parts,
    class_data_section, code_item_part, code_item_parts, code_item_section, debug_info_part,
    debug_info_parts, debug_info_section, encoded_array_parts, encoded_array_section, laid_out,
    nothing, padded, recorded_widths, section, section_overflow, type_list_part, type_list_parts,
    type_list_section, Section,
};
use crate::emit_dex::widths::array_written;
use crate::ids::TypeIdx;

verus! {

/// The item found at `key` has a place in the section, and `part` stands there.
pub open spec fn stands(s: Section, key: u32, part: Seq<u8>) -> bool {
    &&& s.remap.contains_key(key)
    &&& s.remap[key] + part.len() <= s.blob.len()
    &&& s.blob.subrange(s.remap[key] as int, s.remap[key] + part.len()) == part
}

/// The first `i` items stand in the section, in order and without overlap.
spec fn upto(
    keys: Seq<u32>,
    items: Seq<Result<Seq<u8>, DexEmitError>>,
    align: nat,
    i: nat,
    s: Section,
) -> bool {
    &&& s.remap.dom() =~= keys.take(i as int).to_set()
    &&& forall|j: int|
        #![trigger keys[j]]
        #![trigger items[j]]
        0 <= j < i ==> {
            &&& items[j] is Ok
            &&& stands(s, keys[j], items[j]->Ok_0)
            &&& align == 4 ==> s.remap[keys[j]] % 4 == 0
        }
    &&& forall|j: int, k: int|
        #![trigger keys[j], keys[k]]
        0 <= j < k < i ==> s.remap[keys[j]] + items[j]->Ok_0.len() <= s.remap[keys[k]]
}

proof fn lemma_laid_out(
    keys: Seq<u32>,
    items: Seq<Result<Seq<u8>, DexEmitError>>,
    align: nat,
    over: DexEmitError,
    i: nat,
    acc: Section,
)
    requires
        ascending(keys),
        items.len() == keys.len(),
        i <= keys.len(),
        upto(keys, items, align, i, acc),
        laid_out(keys, items, align, over, i, acc) is Ok,
    ensures
        upto(keys, items, align, keys.len(), laid_out(keys, items, align, over, i, acc)->Ok_0),
    decreases keys.len() - i,
{
    if i < keys.len() {
        let blob = padded(acc.blob, align);
        let part = items[i as int]->Ok_0;
        let now = Section {
            blob: blob + part,
            remap: acc.remap.insert(keys[i as int], blob.len() as u32),
        };
        let next = i + 1;
        assert(keys.take(next as int) =~= keys.take(i as int).push(keys[i as int]));
        assert(now.remap.dom() =~= keys.take(next as int).to_set()) by {
            assert forall|x: u32| keys.take(next as int).to_set().contains(x) implies now.remap.dom().contains(x) by {
                let j = choose|j: int| 0 <= j < next && keys.take(next as int)[j] == x;
                if j < i {
                    assert(keys.take(i as int)[j] == x);
                    assert(keys.take(i as int).to_set().contains(x));
                }
            }
            assert forall|x: u32| now.remap.dom().contains(x) implies keys.take(next as int).to_set().contains(x) by {
                if x == keys[i as int] {
                    assert(keys.take(next as int)[i as int] == x);
                } else {
                    assert(keys.take(i as int).to_set().contains(x));
                    let j = choose|j: int| 0 <= j < i && keys.take(i as int)[j] == x;
                    assert(keys.take(next as int)[j] == x);
                }
            }
        }
        assert forall|j: int| #![trigger keys[j]] #![trigger items[j]] 0 <= j < next implies {
            &&& items[j] is Ok
            &&& stands(now, keys[j], items[j]->Ok_0)
            &&& align == 4 ==> now.remap[keys[j]] % 4 == 0
        } by {
            if j < i {
                let p = items[j]->Ok_0;
                let at = acc.remap[keys[j]] as int;
                assert(stands(acc, keys[j], p));
                assert(now.blob.subrange(at, at + p.len()) =~= acc.blob.subrange(at, at + p.len()));
            } else {
                assert(now.blob.subrange(blob.len() as int, (blob.len() + part.len()) as int) =~= part);
            }
        }
        assert forall|j: int, k: int| #![trigger keys[j], keys[k]] 0 <= j < k < next implies now.remap[keys[j]]
            + items[j]->Ok_0.len() <= now.remap[keys[k]] by {
            assert(stands(acc, keys[j], items[j]->Ok_0));
        }
        lemma_laid_out(keys, items, align, over, next, now);
    }
}

/// In a section, every item stands whole at its place, behind the items before
/// it; nothing else has a place; where the section is aligned, so is the place.
pub proof fn items_stand_in_order(
    keys: Seq<u32>,
    items: Seq<Result<Seq<u8>, DexEmitError>>,
    align: nat,
    over: DexEmitError,
    j: int,
    k: int,
)
    requires
        ascending(keys),
        items.len() == keys.len(),
        section(keys, items, align, over) is Ok,
        0 <= j <= k < keys.len(),
    ensures
        ({
            let s = section(keys, items, align, over)->Ok_0;
            &&& s.remap.dom() == keys.to_set()
            &&& items[k] is Ok
            &&& stands(s, keys[k], items[k]->Ok_0)
            &&& align == 4 ==> s.remap[keys[k]] % 4 == 0
            &&& j < k ==> s.remap[keys[j]] + items[j]->Ok_0.len() <= s.remap[keys[k]]
        }),
{
    assert(keys.take(0).to_set() =~= Set::<u32>::empty()) by {
        assert(keys.take(0) =~= Seq::<u32>::empty());
    }
    lemma_laid_out(keys, items, align, over, 0, nothing());
    assert(keys.take(keys.len() as int) =~= keys);
}

/// Whether no key comes after `key`.
pub open spec fn last_key<V>(m: Map<u32, V>, key: u32) -> bool {
    forall|x: u32| m.contains_key(x) ==> x <= key
}

/// Every type list is found, whole, at the place that the offset map gives for it, and
/// nothing else has a place.
pub proof fn type_lists_are_found(lists: Map<u32, Vec<TypeIdx>>, key: u32)
    requires
        type_list_section(lists) is Ok,
        lists.contains_key(key),
    ensures
        ({
            let s = type_list_section(lists)->Ok_0;
            &&& s.remap.dom() == lists.dom()
            &&& type_list_part(lists[key]@, last_key(lists, key)) is Ok
            &&& stands(s, key, type_list_part(lists[key]@, last_key(lists, key))->Ok_0)
        }),
{
    let keys = sorted_keys(lists);
    sorted_keys_list(lists);
    assert(keys.contains(key));
    let k = choose|k: int| 0 <= k < keys.len() && keys[k] == key;
    let over = section_overflow("type_list_section", "type_list blob exceeds u32 byte offset");
    items_stand_in_order(keys, type_list_parts(lists), 1, over, k, k);
        assert(type_list_parts(lists)[k] == type_list_part(lists[key]@, k + 1 == keys.len()));
        assert(last_key(lists, key) <==> k + 1 == keys.len()) by {
            if k + 1 < keys.len() {
                assert(keys.contains(keys[k + 1]));
            } else {
                assert forall|x: u32| lists.contains_key(x) implies x <= key by {
                    assert(keys.contains(x));
                }
            }
        }
}

/// Every method body is found, whole, at the place that the offset map gives for it, and
/// nothing else has a place; the place is a multiple of four.
pub proof fn method_bodies_are_found(items: Map<u32, CodeItem>, key: u32)
    requires
        code_item_section(items) is Ok,
        items.contains_key(key),
    ensures
        ({
            let s = code_item_section(items)->Ok_0;
            &&& s.remap.dom() == items.dom()
            &&& code_item_part(items[key]) is Ok
            &&& stands(s, key, code_item_part(items[key])->Ok_0)
            &&& s.remap[key] % 4 == 0
        }),
{
    let keys = sorted_keys(items);
    sorted_keys_list(items);
    assert(keys.contains(key));
    let k = choose|k: int| 0 <= k < keys.len() && keys[k] == key;
    let over = section_overflow("code_item_section", "code_item blob exceeds u32 byte offset");
    items_stand_in_order(keys, code_item_parts(items), 4, over, k, k);
}

/// Every list of class members is found, whole, at the place that the offset map gives for it, and
/// nothing else has a place.
pub proof fn class_members_are_found(
    items: Map<u32, ClassData>,
    code_item_remap: Map<u32, u32>,
    code_item_base: u32, key: u32)
    requires
        class_data_section(items, code_item_remap, code_item_base) is Ok,
        items.contains_key(key),
    ensures
        ({
            let s = class_data_section(items, code_item_remap, code_item_base)->Ok_0;
            &&& s.remap.dom() == items.dom()
            &&& class_data_part(items[key], code_item_remap, code_item_base) is Ok
            &&& stands(s, key, class_data_part(items[key], code_item_remap, code_item_base)->Ok_0)
        }),
{
    let keys = sorted_keys(items);
    sorted_keys_list(items);
    assert(keys.contains(key));
    let k = choose|k: int| 0 <= k < keys.len() && keys[k] == key;
    let over = section_overflow("class_data_section", "class_data blob exceeds u32 byte offset");
    items_stand_in_order(keys, class_data_parts(items, code_item_remap, code_item_base), 1, over, k, k);
}

/// Every debug info is found, whole, at the place that the offset map gives for it, and
/// nothing else has a place.
pub proof fn debug_infos_are_found(items: Map<u32, Vec<u8>>, key: u32)
    requires
        debug_info_section(items) is Ok,
        items.contains_key(key),
    ensures
        ({
            let s = debug_info_section(items)->Ok_0;
            &&& s.remap.dom() == items.dom()
            &&& debug_info_part(items[key]) is Ok
            &&& stands(s, key, debug_info_part(items[key])->Ok_0)
        }),
{
    let keys = sorted_keys(items);
    sorted_keys_list(items);
    assert(keys.contains(key));
    let k = choose|k: int| 0 <= k < keys.len() && keys[k] == key;
    let over = section_overflow("debug_info_section", "debug_info blob exceeds u32 byte offset");
    items_stand_in_order(keys, debug_info_parts(items), 1, over, k, k);
}

/// Every encoded array is found, whole, at the place that the offset map gives for it, and
/// nothing else has a place.
pub proof fn encoded_arrays_are_found(
    items: Map<u32, Vec<EncodedValue>>,
    widths: Option<Map<u32, Vec<u8>>>, key: u32)
    requires
        encoded_array_section(items, widths) is Ok,
        items.contains_key(key),
    ensures
        ({
            let s = encoded_array_section(items, widths)->Ok_0;
            &&& s.remap.dom() == items.dom()
            &&& array_written(items[key]@, recorded_widths(widths, key)).result() is Ok
            &&& stands(s, key, array_written(items[key]@, recorded_widths(widths, key)).result()->Ok_0)
        }),
{
    let keys = sorted_keys(items);
    sorted_keys_list(items);
    assert(keys.contains(key));
    let k = choose|k: int| 0 <= k < keys.len() && keys[k] == key;
    let over = section_overflow("encoded_array_section", "encoded_array blob exceeds u32 byte offset");
    items_stand_in_order(keys, encoded_array_parts(items, widths), 1, over, k, k);
}

/// Every annotation is found, whole, at the place that the offset map gives for it, and
/// nothing else has a place.
pub proof fn annotations_are_found(items: Map<u32, AnnotationItem>, key: u32)
    requires
        annotation_item_section(items) is Ok,
        items.contains_key(key),
    ensures
        ({
            let s = annotation_item_section(items)->Ok_0;
            &&& s.remap.dom() == items.dom()
            &&& annotation_item_part(items[key]) is Ok
            &&& stands(s, key, annotation_item_part(items[key])->Ok_0)
        }),
{
    let keys = sorted_keys(items);
    sorted_keys_list(items);
    assert(keys.contains(key));
    let k = choose|k: int| 0 <= k < keys.len() && keys[k] == key;
    let over = section_overflow("annotation_item_section", "annotation_item blob exceeds u32 byte offset");
    items_stand_in_order(keys, annotation_item_parts(items), 1, over, k, k);
}

/// Every annotation set is found, whole, at the place that the offset map gives for it, and
/// nothing else has a place; the place is a multiple of four.
pub proof fn annotation_sets_are_found(
    items: Map<u32, Vec<u32>>,
    item_base: u32,
    item_remap: Map<u32, u32>, key: u32)
    requires
        annotation_set_section(items, item_base, item_remap) is Ok,
        items.contains_key(key),
    ensures
        ({
            let s = annotation_set_section(items, item_base, item_remap)->Ok_0;
            &&& s.remap.dom() == items.dom()
            &&& annotation_set_part(items[key], item_base, item_remap) is Ok
            &&& stands(s, key, annotation_set_part(items[key], item_base, item_remap)->Ok_0)
            &&& s.remap[key] % 4 == 0
        }),
{
    let keys = sorted_keys(items);
    sorted_keys_list(items);
    assert(keys.contains(key));
    let k = choose|k: int| 0 <= k < keys.len() && keys[k] == key;
    let over = section_overflow("annotation_set_section", "annotation_set blob exceeds u32 byte offset");
    items_stand_in_order(keys, annotation_set_parts(items, item_base, item_remap), 4, over, k, k);
}

/// Every list of annotation sets is found, whole, at the place that the offset map gives for it, and
/// nothing else has a place; the place is a multiple of four.
pub proof fn annotation_set_lists_are_found(
    items: Map<u32, Vec<u32>>,
    set_base: u32,
    set_remap: Map<u32, u32>, key: u32)
    requires
        annotation_set_ref_list_section(items, set_base, set_remap) is Ok,
        items.contains_key(key),
    ensures
        ({
            let s = annotation_set_ref_list_section(items, set_base, set_remap)->Ok_0;
            &&& s.remap.dom() == items.dom()
            &&& annotation_set_ref_list_part(items[key], set_base, set_remap) is Ok
            &&& stands(s, key, annotation_set_ref_list_part(items[key], set_base, set_remap)->Ok_0)
            &&& s.remap[key] % 4 == 0
        }),
{
    let keys = sorted_keys(items);
    sorted_keys_list(items);
    assert(keys.contains(key));
    let k = choose|k: int| 0 <= k < keys.len() && keys[k] == key;
    let over = section_overflow("annotation_set_ref_list_section", "annotation_set_ref_list blob exceeds u32 byte offset");
    items_stand_in_order(keys, annotation_set_ref_list_parts(items, set_base, set_remap), 4, over, k, k);
}

/// Every annotation directory is found, whole, at the place that the offset map gives for it, and
/// nothing else has a place; the place is a multiple of four.
pub proof fn directories_are_found(
    items: Map<u32, AnnotationDirectoryItem>,
    to: Moved, key: u32)
    requires
        annotation_directory_section(items, to) is Ok,
        items.contains_key(key),
    ensures
        ({
            let s = annotation_directory_section(items, to)->Ok_0;
            &&& s.remap.dom() == items.dom()
            &&& directory_part(items[key], to, false) is Ok
            &&& stands(s, key, directory_part(items[key], to, false)->Ok_0)
            &&& s.remap[key] % 4 == 0
        }),
{
    let keys = sorted_keys(items);
    sorted_keys_list(items);
    assert(keys.contains(key));
    let k = choose|k: int| 0 <= k < keys.len() && keys[k] == key;
    let over = section_overflow("annotation_directory_section", "annotation_directory blob exceeds u32 byte offset");
    items_stand_in_order(keys, annotation_directory_parts(items, to), 4, over, k, k);
}

proof fn lemma_type_items_len(idxs: Seq<TypeIdx>, i: nat)
    requires
        i <= idxs.len(),
        type_items(idxs, i).fault is None,
    ensures
        type_items(idxs, i).bytes.len() == 2 * (idxs.len() - i),
    decreases idxs.len() - i,
{
    if i < idxs.len() {
        lemma_type_items_len(idxs, i + 1);
    }
}

/// A type list takes four bytes and two for each entry.
pub proof fn type_list_len(idxs: Seq<TypeIdx>)
    requires
        type_list(idxs).fault is None,
    ensures
        type_list(idxs).bytes.len() == 4 + 2 * idxs.len(),
{
    lemma_type_items_len(idxs, 0);
}

proof fn lemma_aligned(
    keys: Seq<u32>,
    items: Seq<Result<Seq<u8>, DexEmitError>>,
    over: DexEmitError,
    i: nat,
    acc: Section,
)
    requires
        items.len() == keys.len(),
        i < keys.len() ==> acc.blob.len() % 4 == 0,
        forall|j: int| 0 <= j < keys.len() - 1 && items[j] is Ok ==> (#[trigger] items[j])->Ok_0.len() % 4 == 0,
        forall|x: u32| acc.remap.contains_key(x) ==> #[trigger] acc.remap[x] % 4 == 0,
        laid_out(keys, items, 1, over, i, acc) is Ok,
    ensures
        ({
            let s = laid_out(keys, items, 1, over, i, acc)->Ok_0;
            forall|x: u32| s.remap.contains_key(x) ==> #[trigger] s.remap[x] % 4 == 0
        }),
    decreases keys.len() - i,
{
    if i < keys.len() {
        let part = items[i as int]->Ok_0;
        let now = Section {
            blob: acc.blob + part,
            remap: acc.remap.insert(keys[i as int], acc.blob.len() as u32),
        };
        lemma_aligned(keys, items, over, i + 1, now);
    }
}

/// Every type list stands at a multiple of four.
pub proof fn type_lists_are_aligned(lists: Map<u32, Vec<TypeIdx>>, key: u32)
    requires
        type_list_section(lists) is Ok,
        lists.contains_key(key),
    ensures
        type_list_section(lists)->Ok_0.remap[key] % 4 == 0,
{
    let keys = sorted_keys(lists);
    let items = type_list_parts(lists);
    assert forall|j: int| 0 <= j < keys.len() - 1 && items[j] is Ok implies (#[trigger] items[j])->Ok_0.len() % 4 == 0 by {
        let idxs = lists[keys[j]]@;
        assert(items[j] == type_list_part(idxs, false));
        type_list_len(idxs);
    }
    let over = section_overflow("type_list_section", "type_list blob exceeds u32 byte offset");
    lemma_aligned(keys, items, over, 0, nothing());
    type_lists_are_found(lists, key);
}

} // verus!
