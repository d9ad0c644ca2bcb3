//! What the map list owes its readers.
use vstd::prelude::*;

use crate::bytes::{le16, le32, read_le16, read_le32};
use crate::dex_file::DexFile;
use crate::emit_dex::map_type;
use crate::emit_dex::assembly::{extents, file_map, Bases};
use crate::emit_dex::config::EmitConfig;
use crate::emit_dex::laws::place::{
    half_in, holding_is_transitive, holds_at, in_front, in_rest, word_in,
};
use crate::emit_dex::layout::PoolPlaces;
use crate::emit_dex::map_list::{
    as_items, by_offset_is_a_stable_sort, codes, in_order, kept, last_of, left_over, map_entries,
    map_item, map_list, offsets_ascend, order_differs, reordered, section_entries, Extent, MapItem,
};
use crate::emit_dex::pools::low32;

verus! {

proof fn lemma_entries_len(items: Seq<MapItem>, n: nat)
    ensures
        map_entries(items, n).len() == 12 * n,
    decreases n,
{
    if n > 0 {
        lemma_entries_len(items, (n - 1) as nat);
    }
}

proof fn lemma_entry_at(items: Seq<MapItem>, n: nat, i: int)
    requires
        0 <= i < n <= items.len(),
    ensures
        holds_at(map_entries(items, n), 12 * i, map_item(items[i])),
    decreases n,
{
    let before = map_entries(items, (n - 1) as nat);
    let last = map_item(items[n - 1]);
    lemma_entries_len(items, (n - 1) as nat);
    if i < n - 1 {
        lemma_entry_at(items, (n - 1) as nat, i);
        in_front(before, last);
        holding_is_transitive(before + last, 0, before, 12 * i, map_item(items[i]));
    } else {
        in_front(last, Seq::empty());
        assert(last + Seq::<u8>::empty() =~= last);
        in_rest(before, last, 0, last);
    }
}

/// The entry at `at`.
pub open spec fn entry_read(file: Seq<u8>, at: int) -> MapItem {
    MapItem {
        type_code: read_le16(file, at) as u16,
        size: read_le32(file, at + 4) as u32,
        offset: read_le32(file, at + 8) as u32,
    }
}

/// The map list takes four bytes and twelve for each entry; it starts with the number
/// of entries, and every entry reads back. Unless it may be unsorted, every entry
/// starts after those before it.
pub proof fn map_list_reads_back(items: Seq<MapItem>, permit_unsorted: bool, i: int)
    requires
        map_list(items, permit_unsorted) is Ok,
        0 <= i < items.len(),
    ensures
        ({
            let b = map_list(items, permit_unsorted)->Ok_0;
            &&& b.len() == 4 + 12 * items.len()
            &&& read_le32(b, 0) == items.len()
            &&& entry_read(b, 4 + 12 * i) == items[i]
            &&& permit_unsorted || offsets_ascend(items)
        }),
{
    let n = items.len();
    let head = le32(n as u32);
    let b = map_list(items, permit_unsorted)->Ok_0;
    let m = items[i];
    let item = map_item(m);
    let at = 4 + 12 * i;
    lemma_entries_len(items, n);
    lemma_entry_at(items, n, i);
    in_rest(head, map_entries(items, n), 12 * i, item);
    assert(item.subrange(0, 2) =~= le16(m.type_code));
    assert(item.subrange(4, 8) =~= le32(m.size));
    assert(item.subrange(8, 12) =~= le32(m.offset));
    half_in(b, at, item, 0, m.type_code);
    word_in(b, at, item, 4, m.size);
    word_in(b, at, item, 8, m.offset);
    in_front(head, map_entries(items, n));
    assert(head.subrange(0, 4) =~= head);
    word_in(b, 0, head, 0, n as u32);
}

/// Every section with something in it has an entry.
pub proof fn sections_are_listed(sections: Seq<Extent>, n: nat, k: int)
    requires
        0 <= k < n <= sections.len(),
        sections[k].count > 0,
    ensures
        section_entries(sections, n).contains(
            (MapItem {
                type_code: sections[k].type_code,
                size: low32(sections[k].count as nat),
                offset: sections[k].offset,
            }),
        ),
    decreases n,
{
    let front = section_entries(sections, (n - 1) as nat);
    let all = section_entries(sections, n);
    let m = MapItem {
        type_code: sections[k].type_code,
        size: low32(sections[k].count as nat),
        offset: sections[k].offset,
    };
    if k < n - 1 {
        sections_are_listed(sections, (n - 1) as nat, k);
        let j = choose|j: int| 0 <= j < front.len() && front[j] == m;
        assert(all[j] == m);
    } else {
        assert(all[front.len() as int] == m);
    }
}

/// No two items are of one kind.
pub open spec fn kinds_differ(items: Seq<MapItem>) -> bool {
    forall|i: int, j: int|
        0 <= i < j < items.len() ==> items[i].type_code != items[j].type_code
}

proof fn lemma_last_of(items: Seq<MapItem>, i: int)
    requires
        kinds_differ(items),
        0 <= i < items.len(),
    ensures
        last_of(items, items[i].type_code) == Some(items[i]),
    decreases items.len(),
{
    if i < items.len() - 1 {
        lemma_last_of(items.drop_last(), i);
    }
}

proof fn lemma_in_order(items: Seq<MapItem>, order: Seq<u16>, i: int)
    requires
        kinds_differ(items),
        0 <= i < items.len(),
        order.contains(items[i].type_code),
    ensures
        in_order(items, order).contains(items[i]),
    decreases order.len(),
{
    let before = order.drop_last();
    let front = in_order(items, before);
    let code = items[i].type_code;
    if before.contains(code) {
        lemma_in_order(items, before, i);
        let j = choose|j: int| 0 <= j < front.len() && front[j] == items[i];
        assert(in_order(items, order)[j] == items[i]);
    } else {
        let j = choose|j: int| 0 <= j < order.len() && order[j] == code;
        assert(j == order.len() - 1) by {
            if j < order.len() - 1 {
                assert(before[j] == code);
            }
        }
        lemma_last_of(items, i);
        assert(in_order(items, order)[front.len() as int] == items[i]);
    }
}

proof fn lemma_left_over(items: Seq<MapItem>, order: Seq<u16>, k: nat, i: int)
    requires
        kinds_differ(items),
        k <= i < items.len(),
        !order.contains(items[i].type_code),
    ensures
        left_over(items, order, k).contains(items[i]),
    decreases items.len() - k,
{
    let rest = left_over(items, order, k + 1);
    let code = items[k as int].type_code;
    let later = codes(items.skip(k as int + 1));
    assert(!later.contains(code)) by {
        if later.contains(code) {
            let j = choose|j: int| 0 <= j < later.len() && later[j] == code;
            assert(items[k + 1 + j].type_code == code);
        }
    }
    if k == i {
        assert(left_over(items, order, k)[0] == items[i]);
    } else {
        lemma_left_over(items, order, k + 1, i);
        let j = choose|j: int| 0 <= j < rest.len() && rest[j] == items[i];
        if order.contains(code) {
            assert(left_over(items, order, k)[j] == items[i]);
        } else {
            assert(left_over(items, order, k)[j + 1] == items[i]);
        }
    }
}

/// Putting the entries into another order loses none of them.
pub proof fn reordering_keeps_every_entry(items: Seq<MapItem>, order: Seq<u16>, i: int)
    requires
        kinds_differ(items),
        0 <= i < items.len(),
    ensures
        reordered(items, order).contains(items[i]),
{
    let front = in_order(items, order);
    let rest = left_over(items, order, 0);
    let all = reordered(items, order);
    if order.contains(items[i].type_code) {
        lemma_in_order(items, order, i);
        let j = choose|j: int| 0 <= j < front.len() && front[j] == items[i];
        assert(all[j] == items[i]);
    } else {
        lemma_left_over(items, order, 0, i);
        let j = choose|j: int| 0 <= j < rest.len() && rest[j] == items[i];
        assert(all[front.len() + j] == items[i]);
    }
}

proof fn lemma_last_is_one(items: Seq<MapItem>, code: u16)
    ensures
        last_of(items, code) is Some <==> codes(items).contains(code),
        last_of(items, code) matches Some(m) ==> m.type_code == code && items.contains(m),
    decreases items.len(),
{
    if items.len() > 0 {
        let front = items.drop_last();
        lemma_last_is_one(front, code);
        assert(codes(items)[items.len() - 1] == items.last().type_code);
        assert(items[items.len() - 1] == items.last());
        if codes(front).contains(code) {
            let j = choose|j: int| 0 <= j < codes(front).len() && codes(front)[j] == code;
            assert(codes(items)[j] == code);
        }
        if codes(items).contains(code) && items.last().type_code != code {
            let j = choose|j: int| 0 <= j < codes(items).len() && codes(items)[j] == code;
            assert(codes(front)[j] == code);
        }
        if let Some(m) = last_of(front, code) {
            let j = choose|j: int| 0 <= j < front.len() && front[j] == m;
            assert(items[j] == m);
        }
    }
}

/// No code comes twice.
pub open spec fn codes_differ(order: Seq<u16>) -> bool {
    forall|i: int, j: int| 0 <= i < j < order.len() ==> order[i] != order[j]
}

proof fn lemma_ordered_codes(items: Seq<MapItem>, order: Seq<u16>)
    requires
        codes_differ(order),
    ensures
        codes(in_order(items, order)) == kept(order, codes(items)),
    decreases order.len(),
{
    if order.len() == 0 {
        assert(codes(in_order(items, order)) =~= Seq::empty());
    } else {
        let before = order.drop_last();
        lemma_ordered_codes(items, before);
        lemma_last_is_one(items, order.last());
        if before.contains(order.last()) {
            let j = choose|j: int| 0 <= j < before.len() && before[j] == order.last();
            assert(order[j] == order[order.len() - 1]);
        }
        if let Some(m) = last_of(items, order.last()) {
            assert(codes(in_order(items, before).push(m)) =~= codes(in_order(items, before)).push(
                m.type_code,
            ));
        }
    }
}

proof fn lemma_in_order_items(items: Seq<MapItem>, order: Seq<u16>, k: int)
    requires
        0 <= k < in_order(items, order).len(),
    ensures
        items.contains(in_order(items, order)[k]),
        order.contains(in_order(items, order)[k].type_code),
        forall|l: int|
            0 <= l < k ==> in_order(items, order)[l].type_code != in_order(
                items,
                order,
            )[k].type_code,
    decreases order.len(),
{
    let before = order.drop_last();
    let front = in_order(items, before);
    let all = in_order(items, order);
    lemma_last_is_one(items, order.last());
    if k < front.len() {
        lemma_in_order_items(items, before, k);
        assert(all[k] == front[k]);
        let j = choose|j: int| 0 <= j < before.len() && before[j] == front[k].type_code;
        assert(order[j] == front[k].type_code);
        assert forall|l: int| 0 <= l < k implies all[l].type_code != all[k].type_code by {
            assert(all[l] == front[l]);
        }
    } else {
        assert(all[k].type_code == order.last());
        assert(order[order.len() - 1] == order.last());
        assert forall|l: int| 0 <= l < k implies all[l].type_code != all[k].type_code by {
            lemma_in_order_items(items, before, l);
            assert(all[l] == front[l]);
        }
    }
}

proof fn lemma_left_over_items(items: Seq<MapItem>, order: Seq<u16>, i: nat, k: int)
    requires
        0 <= k < left_over(items, order, i).len(),
    ensures
        exists|j: int|
            i <= j < items.len() && #[trigger] items[j] == left_over(items, order, i)[k],
        !order.contains(left_over(items, order, i)[k].type_code),
        forall|l: int|
            k < l < left_over(items, order, i).len() ==> left_over(items, order, i)[l].type_code
                != left_over(items, order, i)[k].type_code,
    decreases items.len() - i,
{
    let rest = left_over(items, order, i + 1);
    let all = left_over(items, order, i);
    let code = items[i as int].type_code;
    let later = codes(items.skip(i as int + 1));
    if order.contains(code) || later.contains(code) {
        lemma_left_over_items(items, order, i + 1, k);
    } else if k == 0 {
        assert(all[0] == items[i as int]);
        assert forall|l: int| 0 < l < all.len() implies all[l].type_code != code by {
            lemma_left_over_items(items, order, i + 1, l - 1);
            assert(all[l] == rest[l - 1]);
            let j = choose|j: int| i + 1 <= j < items.len() && #[trigger] items[j] == rest[l - 1];
            assert(later[j - i - 1] == items[j].type_code);
        }
    } else {
        lemma_left_over_items(items, order, i + 1, k - 1);
        assert(all[k] == rest[k - 1]);
        assert forall|l: int| k < l < all.len() implies all[l].type_code != all[k].type_code by {
            assert(all[l] == rest[l - 1]);
        }
    }
}

proof fn lemma_reordered_kinds(items: Seq<MapItem>, order: Seq<u16>)
    ensures
        kinds_differ(reordered(items, order)),
{
    let front = in_order(items, order);
    let rest = left_over(items, order, 0);
    let all = reordered(items, order);
    assert forall|i: int, j: int| 0 <= i < j < all.len() implies all[i].type_code
        != all[j].type_code by {
        if j < front.len() {
            lemma_in_order_items(items, order, j);
            assert(all[i] == front[i] && all[j] == front[j]);
        } else if i < front.len() {
            lemma_in_order_items(items, order, i);
            lemma_left_over_items(items, order, 0, j - front.len());
            assert(all[i] == front[i] && all[j] == rest[j - front.len()]);
        } else {
            lemma_left_over_items(items, order, 0, i - front.len());
            assert(all[i] == rest[i - front.len()] && all[j] == rest[j - front.len()]);
        }
    }
}

proof fn lemma_reordered_from(items: Seq<MapItem>, order: Seq<u16>, m: MapItem)
    requires
        reordered(items, order).contains(m),
    ensures
        items.contains(m),
{
    let front = in_order(items, order);
    let rest = left_over(items, order, 0);
    let all = reordered(items, order);
    let k = choose|k: int| 0 <= k < all.len() && all[k] == m;
    if k < front.len() {
        lemma_in_order_items(items, order, k);
    } else {
        lemma_left_over_items(items, order, 0, k - front.len());
    }
}

/// Putting the entries into another order neither loses nor adds nor repeats one.
pub proof fn reordering_is_a_permutation(items: Seq<MapItem>, order: Seq<u16>)
    requires
        kinds_differ(items),
    ensures
        reordered(items, order).to_multiset() == items.to_multiset(),
        reordered(items, order).len() == items.len(),
{
    let all = reordered(items, order);
    lemma_reordered_kinds(items, order);
    items.lemma_multiset_has_no_duplicates();
    all.lemma_multiset_has_no_duplicates();
    all.to_multiset_ensures();
    items.to_multiset_ensures();
    assert forall|m: MapItem| all.to_multiset().count(m) == items.to_multiset().count(m) by {
        if all.contains(m) {
            lemma_reordered_from(items, order, m);
        }
        if items.contains(m) {
            let i = choose|i: int| 0 <= i < items.len() && items[i] == m;
            reordering_keeps_every_entry(items, order, i);
        }
        assert(all.contains(m) == items.contains(m));
        assert(all.to_multiset().contains(m) == items.to_multiset().contains(m));
    }
    assert(all.to_multiset() =~= items.to_multiset());
}

/// After reordering, the kinds that the order has come first, and in that order; the
/// others follow.
pub proof fn reordering_follows_the_order(items: Seq<MapItem>, order: Seq<u16>)
    requires
        codes_differ(order),
    ensures
        ({
            let first = kept(order, codes(items));
            let all = codes(reordered(items, order));
            &&& first.len() <= all.len()
            &&& all.take(first.len() as int) == first
            &&& forall|k: int|
                first.len() <= k < all.len() ==> !order.contains(#[trigger] all[k])
        }),
{
    let front = in_order(items, order);
    let rest = left_over(items, order, 0);
    let all = codes(reordered(items, order));
    lemma_ordered_codes(items, order);
    assert(all.take(front.len() as int) =~= codes(front));
    assert forall|k: int| front.len() <= k < all.len() implies !order.contains(
        #[trigger] all[k],
    ) by {
        lemma_left_over_items(items, order, 0, k - front.len());
        assert(all[k] == rest[k - front.len()].type_code);
    }
}

proof fn lemma_kept_whole(a: Seq<u16>, b: Seq<u16>)
    requires
        forall|k: int| 0 <= k < a.len() ==> b.contains(#[trigger] a[k]),
    ensures
        kept(a, b) == a,
    decreases a.len(),
{
    if a.len() > 0 {
        lemma_kept_whole(a.drop_last(), b);
        assert(b.contains(a[a.len() - 1]));
        assert(a.drop_last().push(a.last()) =~= a);
    } else {
        assert(kept(a, b) =~= a);
    }
}

proof fn lemma_kept_front(a: Seq<u16>, b: Seq<u16>, n: int)
    requires
        0 <= n <= a.len(),
        forall|k: int| n <= k < a.len() ==> !b.contains(#[trigger] a[k]),
    ensures
        kept(a, b) == kept(a.take(n), b),
    decreases a.len(),
{
    if a.len() > n {
        assert(!b.contains(a[a.len() - 1]));
        lemma_kept_front(a.drop_last(), b, n);
        assert(a.drop_last().take(n) =~= a.take(n));
    } else {
        assert(a.take(n) =~= a);
    }
}

proof fn lemma_kept_same(a: Seq<u16>, b: Seq<u16>, c: Seq<u16>)
    requires
        forall|x: u16| b.contains(x) == c.contains(x),
    ensures
        kept(a, b) == kept(a, c),
    decreases a.len(),
{
    if a.len() > 0 {
        lemma_kept_same(a.drop_last(), b, c);
    }
}

proof fn lemma_kept_are_common(a: Seq<u16>, b: Seq<u16>)
    ensures
        forall|k: int| 0 <= k < kept(a, b).len() ==> a.contains(#[trigger] kept(a, b)[k]),
    decreases a.len(),
{
    if a.len() > 0 {
        let before = a.drop_last();
        lemma_kept_are_common(before, b);
        assert forall|k: int| 0 <= k < kept(a, b).len() implies a.contains(
            #[trigger] kept(a, b)[k],
        ) by {
            if k < kept(before, b).len() {
                assert(before.contains(kept(before, b)[k]));
                let j = choose|j: int| 0 <= j < before.len() && before[j] == kept(before, b)[k];
                assert(a[j] == kept(a, b)[k]);
            } else {
                assert(a[a.len() - 1] == kept(a, b)[k]);
            }
        }
    }
}

/// Entries that were put into the order of a list no longer come in another order than
/// there.
pub proof fn reordering_ends_the_difference(items: Seq<MapItem>, order: Seq<u16>)
    requires
        kinds_differ(items),
        codes_differ(order),
    ensures
        !order_differs(codes(reordered(items, order)), order),
{
    let first = kept(order, codes(items));
    let all = codes(reordered(items, order));
    reordering_follows_the_order(items, order);
    lemma_kept_are_common(order, codes(items));
    lemma_kept_front(all, order, first.len() as int);
    lemma_kept_whole(first, order);
    assert forall|x: u16| codes(items).contains(x) == all.contains(x) by {
        if codes(items).contains(x) {
            let i = choose|i: int| 0 <= i < items.len() && codes(items)[i] == x;
            reordering_keeps_every_entry(items, order, i);
            let j = choose|j: int|
                0 <= j < reordered(items, order).len() && reordered(items, order)[j] == items[i];
            assert(all[j] == x);
        }
        if all.contains(x) {
            let j = choose|j: int| 0 <= j < all.len() && all[j] == x;
            let m = reordered(items, order)[j];
            lemma_reordered_from(items, order, m);
            let i = choose|i: int| 0 <= i < items.len() && items[i] == m;
            assert(codes(items)[i] == x);
        }
    }
    lemma_kept_same(order, codes(items), all);
}

// The map list of a file

/// The position of a kind of section among all of them.
spec fn rank(code: u16) -> int {
    if code == map_type::HEADER_ITEM {
        0
    } else if code == map_type::STRING_ID_ITEM {
        1
    } else if code == map_type::TYPE_ID_ITEM {
        2
    } else if code == map_type::PROTO_ID_ITEM {
        3
    } else if code == map_type::FIELD_ID_ITEM {
        4
    } else if code == map_type::METHOD_ID_ITEM {
        5
    } else if code == map_type::CLASS_DEF_ITEM {
        6
    } else if code == map_type::CALL_SITE_ID_ITEM {
        7
    } else if code == map_type::METHOD_HANDLE_ITEM {
        8
    } else if code == map_type::STRING_DATA_ITEM {
        9
    } else if code == map_type::CODE_ITEM {
        10
    } else if code == map_type::CLASS_DATA_ITEM {
        11
    } else if code == map_type::ANNOTATION_ITEM {
        12
    } else if code == map_type::ANNOTATION_SET_ITEM {
        13
    } else if code == map_type::ANNOTATION_SET_REF_LIST {
        14
    } else if code == map_type::ANNOTATION_DIRECTORY_ITEM {
        15
    } else if code == map_type::ENCODED_ARRAY_ITEM {
        16
    } else if code == map_type::DEBUG_INFO_ITEM {
        17
    } else if code == map_type::TYPE_LIST {
        18
    } else {
        19
    }
}

proof fn lemma_ranks(dex: DexFile, p: PoolPlaces, b: Bases, i: int)
    requires
        0 <= i < extents(dex, p, b).len(),
    ensures
        rank(extents(dex, p, b)[i].type_code) == i,
{
    reveal(extents);
    let e = extents(dex, p, b);
    if i < 10 {
        assert(i == 0 || i == 1 || i == 2 || i == 3 || i == 4 || i == 5 || i == 6 || i == 7 || i
            == 8 || i == 9);
    } else {
        assert(i == 10 || i == 11 || i == 12 || i == 13 || i == 14 || i == 15 || i == 16 || i == 17
            || i == 18 || i == 19);
    }
}

/// The entry for a section.
pub open spec fn entry_of(s: Extent) -> MapItem {
    MapItem { type_code: s.type_code, size: low32(s.count as nat), offset: s.offset }
}

proof fn lemma_entry_from(sections: Seq<Extent>, n: nat, j: int)
    requires
        n <= sections.len(),
        0 <= j < section_entries(sections, n).len(),
    ensures
        exists|k: int|
            0 <= k < n && sections[k].count > 0 && section_entries(sections, n)[j] == entry_of(
                #[trigger] sections[k],
            ),
    decreases n,
{
    let front = section_entries(sections, (n - 1) as nat);
    if j < front.len() {
        lemma_entry_from(sections, (n - 1) as nat, j);
        let k = choose|k: int|
            0 <= k < n - 1 && sections[k].count > 0 && front[j] == entry_of(#[trigger] sections[k]);
        assert(section_entries(sections, n)[j] == entry_of(sections[k]));
    } else {
        assert(section_entries(sections, n)[j] == entry_of(sections[n - 1]));
    }
}

proof fn lemma_entry_kinds(sections: Seq<Extent>, n: nat)
    requires
        n <= sections.len(),
        forall|i: int, j: int|
            0 <= i < j < sections.len() ==> sections[i].type_code != sections[j].type_code,
    ensures
        kinds_differ(section_entries(sections, n)),
    decreases n,
{
    if n > 0 {
        let front = section_entries(sections, (n - 1) as nat);
        let all = section_entries(sections, n);
        lemma_entry_kinds(sections, (n - 1) as nat);
        assert forall|i: int, j: int| 0 <= i < j < all.len() implies all[i].type_code
            != all[j].type_code by {
            assert(all[i] == front[i]);
            if j < front.len() {
                assert(all[j] == front[j]);
            } else {
                lemma_entry_from(sections, (n - 1) as nat, i);
                let k = choose|k: int|
                    0 <= k < n - 1 && sections[k].count > 0 && front[i] == entry_of(
                        #[trigger] sections[k],
                    );
                assert(sections[k].type_code != sections[n - 1].type_code);
            }
        }
    }
}

/// The map list of a file has one entry for each section with something in it, and no
/// other; each kind of section occurs once.
pub proof fn the_map_lists_every_section_once(
    dex: DexFile,
    config: EmitConfig,
    p: PoolPlaces,
    b: Bases,
)
    ensures
        kinds_differ(file_map(dex, config, p, b)),
        forall|k: int|
            0 <= k < extents(dex, p, b).len() && (#[trigger] extents(dex, p, b)[k]).count > 0
                ==> file_map(dex, config, p, b).contains(entry_of(extents(dex, p, b)[k])),
        forall|m: MapItem| #[trigger]
            file_map(dex, config, p, b).contains(m) ==> exists|k: int|
                0 <= k < extents(dex, p, b).len() && (#[trigger] extents(dex, p, b)[k]).count > 0
                    && m == entry_of(extents(dex, p, b)[k]),
{
    reveal(file_map);
    let sections = extents(dex, p, b);
    let items = section_entries(sections, sections.len());
    let all = file_map(dex, config, p, b);
    let order = codes(as_items(dex.map_entries@));
    assert forall|i: int, j: int| 0 <= i < j < sections.len() implies sections[i].type_code
        != sections[j].type_code by {
        lemma_ranks(dex, p, b, i);
        lemma_ranks(dex, p, b, j);
    }
    lemma_entry_kinds(sections, sections.len());
    if config.preserve_map_list_order {
        reordering_is_a_permutation(items, order);
        lemma_reordered_kinds(items, order);
    } else {
        by_offset_is_a_stable_sort(items);
        lemma_kinds_stay(items, all);
    }
    assert(all.to_multiset() == items.to_multiset());
    all.to_multiset_ensures();
    items.to_multiset_ensures();
    assert forall|m: MapItem| #[trigger] all.contains(m) == items.contains(m) by {
        assert(all.to_multiset().contains(m) == items.to_multiset().contains(m));
    }
    assert forall|k: int|
        0 <= k < sections.len() && (#[trigger] sections[k]).count > 0 implies all.contains(
        entry_of(sections[k]),
    ) by {
        sections_are_listed(sections, sections.len(), k);
        assert(items.contains(entry_of(sections[k])));
    }
    assert forall|m: MapItem| #[trigger] all.contains(m) implies exists|k: int|
        0 <= k < sections.len() && (#[trigger] sections[k]).count > 0 && m == entry_of(
            sections[k],
        ) by {
        let j = choose|j: int| 0 <= j < items.len() && items[j] == m;
        lemma_entry_from(sections, sections.len(), j);
    }
}

proof fn lemma_kinds_stay(a: Seq<MapItem>, b: Seq<MapItem>)
    requires
        kinds_differ(a),
        a.to_multiset() == b.to_multiset(),
    ensures
        kinds_differ(b),
{
    a.to_multiset_ensures();
    b.to_multiset_ensures();
    a.lemma_multiset_has_no_duplicates();
    b.lemma_multiset_has_no_duplicates_conv();
    assert forall|i: int, j: int| 0 <= i < j < b.len() implies b[i].type_code
        != b[j].type_code by {
        assert(b.contains(b[i]) && b.contains(b[j]));
        assert(a.to_multiset().contains(b[i]) && a.to_multiset().contains(b[j]));
        let x = choose|x: int| 0 <= x < a.len() && a[x] == b[i];
        let y = choose|y: int| 0 <= y < a.len() && a[y] == b[j];
        assert(x != y);
    }
}

/// Every entry for a data section gives the place of that section.
pub proof fn data_entries_give_the_places(
    dex: DexFile,
    config: EmitConfig,
    p: PoolPlaces,
    b: Bases,
    m: MapItem,
)
    requires
        file_map(dex, config, p, b).contains(m),
    ensures
        m.type_code == map_type::STRING_DATA_ITEM ==> m.offset == b.string_data,
        m.type_code == map_type::CODE_ITEM ==> m.offset == b.code_item,
        m.type_code == map_type::DEBUG_INFO_ITEM ==> m.offset == b.debug_info,
        m.type_code == map_type::CLASS_DATA_ITEM ==> m.offset == b.class_data,
        m.type_code == map_type::ANNOTATION_ITEM ==> m.offset == b.annotation_item,
        m.type_code == map_type::ANNOTATION_SET_ITEM ==> m.offset == b.annotation_set,
        m.type_code == map_type::ANNOTATION_SET_REF_LIST ==> m.offset == b.annotation_set_ref_list,
        m.type_code == map_type::ANNOTATION_DIRECTORY_ITEM ==> m.offset == b.annotation_directory,
        m.type_code == map_type::ENCODED_ARRAY_ITEM ==> m.offset == b.encoded_array,
        m.type_code == map_type::TYPE_LIST ==> m.offset == b.type_list,
        m.type_code == map_type::MAP_LIST ==> m.offset == b.map_list,
{
    the_map_lists_every_section_once(dex, config, p, b);
    let e = extents(dex, p, b);
    let k = choose|k: int| 0 <= k < e.len() && (#[trigger] e[k]).count > 0 && m == entry_of(e[k]);
    lemma_ranks(dex, p, b, k);
    assert(e.len() == 20 && e[9].offset == b.string_data && e[10].offset == b.code_item
        && e[11].offset == b.class_data && e[12].offset == b.annotation_item && e[13].offset
        == b.annotation_set && e[14].offset == b.annotation_set_ref_list && e[15].offset
        == b.annotation_directory && e[16].offset == b.encoded_array && e[17].offset
        == b.debug_info && e[18].offset == b.type_list && e[19].offset == b.map_list) by {
        reveal(extents);
    }
}

/// The codes that stay are those that both have.
pub proof fn common_codes_are_kept(a: Seq<u16>, b: Seq<u16>, x: u16)
    ensures
        kept(a, b).contains(x) <==> a.contains(x) && b.contains(x),
    decreases a.len(),
{
    if a.len() > 0 {
        let before = a.drop_last();
        let front = kept(before, b);
        let all = kept(a, b);
        common_codes_are_kept(before, b, x);
        if before.contains(x) {
            let j = choose|j: int| 0 <= j < before.len() && before[j] == x;
            assert(a[j] == x);
        }
        assert(a[a.len() - 1] == a.last());
        if a.contains(x) && x != a.last() {
            let j = choose|j: int| 0 <= j < a.len() && a[j] == x;
            assert(before[j] == x);
        }
        if front.contains(x) {
            let j = choose|j: int| 0 <= j < front.len() && front[j] == x;
            assert(all[j] == x);
        }
        if b.contains(a.last()) {
            assert(all[front.len() as int] == a.last());
            if all.contains(x) && x != a.last() {
                let j = choose|j: int| 0 <= j < all.len() && all[j] == x;
                assert(front[j] == x);
            }
        }
    }
}

} // verus!
