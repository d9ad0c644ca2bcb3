//! The map list: the index of all sections of a file.
use vstd::prelude::*;

use crate::bytes::{le16, le32, push_u16, push_u32};
use crate::dex_file::MapEntry;
use crate::emit_dex::error::DexEmitError;
use crate::emit_dex::map_type;
use crate::emit_dex::pools::{len32, low32};
use crate::emit_dex::written::gives;

verus! {

/// An entry of the map list: a kind of section, how many items it has and where
/// it starts.
#[derive(Debug, Clone, Copy, PartialEq, Eq, Structural)]
pub struct MapItem {
    pub type_code: u16,
    pub size: u32,
    pub offset: u32,
}

/// The twelve bytes of an entry.
pub open spec fn map_item(m: MapItem) -> Seq<u8> {
    le16(m.type_code) + le16(0) + le32(m.size) + le32(m.offset)
}

/// The first `n` entries.
pub open spec fn map_entries(items: Seq<MapItem>, n: nat) -> Seq<u8>
    decreases n,
{
    if n == 0 {
        Seq::empty()
    } else {
        map_entries(items, (n - 1) as nat) + map_item(items[n - 1])
    }
}

/// Every entry starts after those before it.
pub open spec fn offsets_ascend(items: Seq<MapItem>) -> bool {
    forall|i: int, j: int| 0 <= i < j < items.len() ==> items[i].offset < items[j].offset
}

/// The map list.
pub open spec fn map_list(items: Seq<MapItem>, permit_unsorted: bool) -> Result<
    Seq<u8>,
    DexEmitError,
> {
    if items.len() > u32::MAX {
        Err(
            DexEmitError::SizeOverflow {
                layer: "map_list",
                context: "map_item count exceeds u32",
            },
        )
    } else if !permit_unsorted && !offsets_ascend(items) {
        Err(
            DexEmitError::UnrepresentableIR {
                why: "map_list: items must be strictly ascending by offset (DEX §7.18); duplicate or descending offset rejected",
            },
        )
    } else {
        Ok(le32(items.len() as u32) + map_entries(items, items.len()))
    }
}

/// Whether every entry starts after those before it.
fn in_file_order(items: &[MapItem]) -> (r: bool)
    ensures
        r == offsets_ascend(items@),
{
    let mut i: usize = 1;
    while i < items.len()
        invariant
            1 <= i,
            forall|j: int, k: int|
                0 <= j < k < i && k < items@.len() ==> items@[j].offset < items@[k].offset,
        decreases items@.len() - i,
    {
        if items[i - 1].offset >= items[i].offset {
            return false;
        }
        i = i + 1;
    }
    true
}

fn push_map_item(out: &mut Vec<u8>, m: MapItem)
    ensures
        final(out)@ == old(out)@ + map_item(m),
{
    push_u16(out, m.type_code);
    push_u16(out, 0);
    push_u32(out, m.size);
    push_u32(out, m.offset);
    assert(out@ =~= old(out)@ + map_item(m));
}

/// The map list. Unless `permit_unsorted`, the entries must be in order.
pub fn emit_map_list(items: &[MapItem], permit_unsorted: bool) -> (r: Result<
    Vec<u8>,
    DexEmitError,
>)
    ensures
        gives(r, map_list(items@, permit_unsorted)),
{
    if items.len() > u32::MAX as usize {
        return Err(
            DexEmitError::SizeOverflow {
                layer: "map_list",
                context: "map_item count exceeds u32",
            },
        );
    }
    if !permit_unsorted && !in_file_order(items) {
        return Err(
            DexEmitError::UnrepresentableIR {
                why: "map_list: items must be strictly ascending by offset (DEX §7.18); duplicate or descending offset rejected",
            },
        );
    }
    let mut out: Vec<u8> = Vec::new();
    push_u32(&mut out, items.len() as u32);
    let ghost head = out@;
    assert(head =~= le32(items@.len() as u32));
    assert(out@ =~= head + map_entries(items@, 0));
    let mut i: usize = 0;
    while i < items.len()
        invariant
            i <= items@.len(),
            out@ == head + map_entries(items@, i as nat),
        decreases items@.len() - i,
    {
        push_map_item(&mut out, items[i]);
        i = i + 1;
        assert(out@ =~= head + map_entries(items@, i as nat));
    }
    Ok(out)
}

// Order

/// `x` put into `sorted`, after everything that does not start after it.
pub open spec fn placed(sorted: Seq<MapItem>, x: MapItem) -> Seq<MapItem>
    decreases sorted.len(),
{
    if sorted.len() > 0 && sorted.last().offset > x.offset {
        placed(sorted.drop_last(), x).push(sorted.last())
    } else {
        sorted.push(x)
    }
}

/// The items ordered by offset. Those with the same offset keep their order.
pub open spec fn by_offset(items: Seq<MapItem>) -> Seq<MapItem>
    decreases items.len(),
{
    if items.len() == 0 {
        Seq::empty()
    } else {
        placed(by_offset(items.drop_last()), items.last())
    }
}

proof fn placed_at(sorted: Seq<MapItem>, x: MapItem, k: int)
    requires
        0 <= k <= sorted.len(),
        k == 0 || sorted[k - 1].offset <= x.offset,
        forall|j: int| k <= j < sorted.len() ==> (#[trigger] sorted[j]).offset > x.offset,
    ensures
        placed(sorted, x) == sorted.insert(k, x),
    decreases sorted.len(),
{
    if k < sorted.len() {
        placed_at(sorted.drop_last(), x, k);
        assert(sorted.insert(k, x) =~= sorted.drop_last().insert(k, x).push(sorted.last()));
    } else {
        assert(sorted.insert(k, x) =~= sorted.push(x));
    }
}

/// The items ordered by offset. Those with the same offset keep their order.
pub fn sort_by_offset(items: &[MapItem]) -> (r: Vec<MapItem>)
    ensures
        r@ == by_offset(items@),
{
    let mut out: Vec<MapItem> = Vec::new();
    let mut i: usize = 0;
    assert(items@.take(0) =~= Seq::empty());
    while i < items.len()
        invariant
            i <= items@.len(),
            out@ == by_offset(items@.take(i as int)),
        decreases items@.len() - i,
    {
        let x: MapItem = items[i];
        let mut k: usize = out.len();
        while k > 0 && out[k - 1].offset > x.offset
            invariant
                k <= out@.len(),
                forall|j: int| k <= j < out@.len() ==> (#[trigger] out@[j]).offset > x.offset,
            decreases k,
        {
            k = k - 1;
        }
        proof {
            placed_at(out@, x, k as int);
            assert(items@.take(i + 1).drop_last() =~= items@.take(i as int));
            assert(items@.take(i + 1).last() == x);
        }
        out.insert(k, x);
        i = i + 1;
    }
    assert(items@.take(i as int) =~= items@);
    out
}

/// No item starts before an earlier one.
pub open spec fn offsets_ordered(items: Seq<MapItem>) -> bool {
    forall|i: int, j: int| 0 <= i < j < items.len() ==> items[i].offset <= items[j].offset
}

proof fn placed_is_ordered(sorted: Seq<MapItem>, x: MapItem)
    requires
        offsets_ordered(sorted),
    ensures
        offsets_ordered(placed(sorted, x)),
        placed(sorted, x).to_multiset() == sorted.to_multiset().insert(x),
        forall|o: u32|
            #[trigger] at_offset(placed(sorted, x), o) == at_offset(sorted.push(x), o),
        forall|j: int|
            0 <= j < placed(sorted, x).len() ==> (#[trigger] placed(sorted, x)[j]) == x
                || sorted.contains(placed(sorted, x)[j]),
    decreases sorted.len(),
{
    broadcast use vstd::seq_lib::group_to_multiset_ensures;

    if sorted.len() > 0 && sorted.last().offset > x.offset {
        let front = sorted.drop_last();
        let last = sorted.last();
        placed_is_ordered(front, x);
        let p = placed(front, x);
        assert(front.push(last) =~= sorted);
        assert(placed(sorted, x) == p.push(last));
        assert forall|j: int| 0 <= j < p.len() implies (#[trigger] p[j]).offset <= last.offset by {
            if p[j] != x {
                assert(front.contains(p[j]));
            }
        }
        assert(sorted.to_multiset() =~= front.to_multiset().insert(last));
        assert(p.push(last).to_multiset() =~= p.to_multiset().insert(last));
        assert(sorted.to_multiset().insert(x) =~= front.to_multiset().insert(x).insert(last));
        assert forall|o: u32| #[trigger]
            at_offset(placed(sorted, x), o) == at_offset(sorted.push(x), o) by {
            assert(at_offset(p, o) == at_offset(front.push(x), o));
            assert(p.push(last).drop_last() =~= p);
            assert(front.push(x).drop_last() =~= front);
            assert(sorted.push(x).drop_last() =~= sorted);
            assert(at_offset(sorted, o) == if last.offset == o {
                at_offset(front, o).push(last)
            } else {
                at_offset(front, o)
            });
        }
        assert forall|j: int| 0 <= j < placed(sorted, x).len() implies (#[trigger] placed(
            sorted,
            x,
        )[j]) == x || sorted.contains(placed(sorted, x)[j]) by {
            if j < p.len() {
                if p[j] != x {
                    assert(front.contains(p[j]));
                    let k = choose|k: int| 0 <= k < front.len() && front[k] == p[j];
                    assert(sorted[k] == p[j]);
                }
            } else {
                assert(sorted[sorted.len() - 1] == last);
            }
        }
    } else {
        assert(placed(sorted, x) == sorted.push(x));
        assert forall|j: int| 0 <= j < sorted.push(x).len() implies (#[trigger] sorted.push(x)[j])
            == x || sorted.contains(sorted.push(x)[j]) by {
            if j < sorted.len() {
                assert(sorted[j] == sorted.push(x)[j]);
            }
        }
    }
}

/// The items that start at `o`, in order.
pub open spec fn at_offset(items: Seq<MapItem>, o: u32) -> Seq<MapItem>
    decreases items.len(),
{
    if items.len() == 0 {
        Seq::empty()
    } else if items.last().offset == o {
        at_offset(items.drop_last(), o).push(items.last())
    } else {
        at_offset(items.drop_last(), o)
    }
}

/// Ordering by offset gives the same items, in order, and keeps the order of items
/// that start at the same place.
pub proof fn by_offset_is_a_stable_sort(items: Seq<MapItem>)
    ensures
        offsets_ordered(by_offset(items)),
        by_offset(items).to_multiset() == items.to_multiset(),
        forall|o: u32| #[trigger] at_offset(by_offset(items), o) == at_offset(items, o),
    decreases items.len(),
{
    broadcast use vstd::seq_lib::group_to_multiset_ensures;

    if items.len() > 0 {
        let front = items.drop_last();
        by_offset_is_a_stable_sort(front);
        placed_is_ordered(by_offset(front), items.last());
        assert(front.push(items.last()) =~= items);
        assert forall|o: u32| #[trigger]
            at_offset(by_offset(items), o) == at_offset(items, o) by {
            let s = by_offset(front);
            assert(at_offset(placed(s, items.last()), o) == at_offset(s.push(items.last()), o));
            assert(s.push(items.last()).drop_last() =~= s);
            assert(at_offset(s, o) == at_offset(front, o));
        }
    }
}

/// The kinds of the items, in order.
pub open spec fn codes(items: Seq<MapItem>) -> Seq<u16> {
    items.map_values(|m: MapItem| m.type_code)
}

/// The entries of a file's own map list as items.
pub open spec fn as_items(list: Seq<MapEntry>) -> Seq<MapItem> {
    list.map_values(
        |e: MapEntry| MapItem { type_code: e.type_code, size: e.size, offset: e.offset },
    )
}

/// The entries of a file's own map list as items.
pub fn items_of(list: &[MapEntry]) -> (r: Vec<MapItem>)
    ensures
        r@ == as_items(list@),
{
    let mut out: Vec<MapItem> = Vec::new();
    let mut i: usize = 0;
    while i < list.len()
        invariant
            i <= list@.len(),
            out@ =~= as_items(list@.take(i as int)),
        decreases list@.len() - i,
    {
        let e: MapEntry = list[i];
        out.push(MapItem { type_code: e.type_code, size: e.size, offset: e.offset });
        i = i + 1;
    }
    assert(list@.take(i as int) =~= list@);
    out
}

fn codes_of(items: &[MapItem]) -> (r: Vec<u16>)
    ensures
        r@ == codes(items@),
{
    let mut out: Vec<u16> = Vec::new();
    let mut i: usize = 0;
    while i < items.len()
        invariant
            i <= items@.len(),
            out@ =~= codes(items@.take(i as int)),
        decreases items@.len() - i,
    {
        out.push(items[i].type_code);
        i = i + 1;
    }
    assert(items@.take(i as int) =~= items@);
    out
}

/// Whether `code` is among `list`.
fn holds(list: &[u16], code: u16) -> (r: bool)
    ensures
        r == list@.contains(code),
{
    let mut i: usize = 0;
    while i < list.len()
        invariant
            i <= list@.len(),
            forall|j: int| 0 <= j < i ==> list@[j] != code,
        decreases list@.len() - i,
    {
        if list[i] == code {
            return true;
        }
        i = i + 1;
    }
    false
}

/// The codes of `a` that `b` has too, in the order of `a`.
pub open spec fn kept(a: Seq<u16>, b: Seq<u16>) -> Seq<u16>
    decreases a.len(),
{
    if a.len() == 0 {
        Seq::empty()
    } else if b.contains(a.last()) {
        kept(a.drop_last(), b).push(a.last())
    } else {
        kept(a.drop_last(), b)
    }
}

fn keep(a: &[u16], b: &[u16]) -> (r: Vec<u16>)
    ensures
        r@ == kept(a@, b@),
{
    let mut out: Vec<u16> = Vec::new();
    let mut i: usize = 0;
    assert(a@.take(0) =~= Seq::empty());
    while i < a.len()
        invariant
            i <= a@.len(),
            out@ == kept(a@.take(i as int), b@),
        decreases a@.len() - i,
    {
        assert(a@.take(i + 1).drop_last() =~= a@.take(i as int));
        if holds(b, a[i]) {
            out.push(a[i]);
        }
        i = i + 1;
    }
    assert(a@.take(i as int) =~= a@);
    out
}

/// The codes that both have come in a different order.
pub open spec fn order_differs(a: Seq<u16>, b: Seq<u16>) -> bool {
    kept(a, b) != kept(b, a)
}

fn differ(a: &[u16], b: &[u16]) -> (r: bool)
    ensures
        r == order_differs(a@, b@),
{
    let x = keep(a, b);
    let y = keep(b, a);
    if x.len() != y.len() {
        return true;
    }
    let mut i: usize = 0;
    while i < x.len()
        invariant
            i <= x@.len() == y@.len(),
            forall|j: int| 0 <= j < i ==> x@[j] == y@[j],
            x@ == kept(a@, b@),
            y@ == kept(b@, a@),
        decreases x@.len() - i,
    {
        if x[i] != y[i] {
            assert(x@[i as int] != y@[i as int]);
            return true;
        }
        i = i + 1;
    }
    assert(x@ =~= y@);
    false
}

/// Whether the kinds of section that both lists have come in a different order.
pub fn map_list_order_diverged(emit_items: &[MapItem], input_entries: &[MapEntry]) -> (r: bool)
    ensures
        r == order_differs(codes(emit_items@), codes(as_items(input_entries@))),
{
    let a = codes_of(emit_items);
    let b = codes_of(items_of(input_entries).as_slice());
    differ(a.as_slice(), b.as_slice())
}

/// The order in which data sections are laid out.
pub open spec fn data_order() -> Seq<u16> {
    seq![
        map_type::STRING_DATA_ITEM,
        map_type::CODE_ITEM,
        map_type::DEBUG_INFO_ITEM,
        map_type::CLASS_DATA_ITEM,
        map_type::ANNOTATION_ITEM,
        map_type::ANNOTATION_SET_ITEM,
        map_type::ANNOTATION_SET_REF_LIST,
        map_type::ANNOTATION_DIRECTORY_ITEM,
        map_type::ENCODED_ARRAY_ITEM,
        map_type::TYPE_LIST,
        map_type::MAP_LIST,
    ]
}

/// The data sections of a file do not come in the order in which they are laid
/// out.
pub open spec fn data_reordered(list: Seq<MapEntry>) -> bool {
    order_differs(codes(by_offset(as_items(list))), data_order())
}

/// Whether the data sections of a file do not come in the order in which they are
/// laid out.
pub fn data_section_order_diverges_from_emit(list: &[MapEntry]) -> (r: bool)
    ensures
        r == data_reordered(list@),
{
    let items = sort_by_offset(items_of(list).as_slice());
    let found = codes_of(items.as_slice());
    let order: [u16; 11] = [
        map_type::STRING_DATA_ITEM,
        map_type::CODE_ITEM,
        map_type::DEBUG_INFO_ITEM,
        map_type::CLASS_DATA_ITEM,
        map_type::ANNOTATION_ITEM,
        map_type::ANNOTATION_SET_ITEM,
        map_type::ANNOTATION_SET_REF_LIST,
        map_type::ANNOTATION_DIRECTORY_ITEM,
        map_type::ENCODED_ARRAY_ITEM,
        map_type::TYPE_LIST,
        map_type::MAP_LIST,
    ];
    assert(order@ =~= data_order());
    differ(found.as_slice(), order.as_slice())
}

/// The last of the items of the given kind.
pub open spec fn last_of(items: Seq<MapItem>, code: u16) -> Option<MapItem>
    decreases items.len(),
{
    if items.len() == 0 {
        None
    } else if items.last().type_code == code {
        Some(items.last())
    } else {
        last_of(items.drop_last(), code)
    }
}

/// The items of the kinds in `order`, each kind where it occurs first.
pub open spec fn in_order(items: Seq<MapItem>, order: Seq<u16>) -> Seq<MapItem>
    decreases order.len(),
{
    if order.len() == 0 {
        Seq::empty()
    } else {
        let front = in_order(items, order.drop_last());
        if order.drop_last().contains(order.last()) {
            front
        } else {
            match last_of(items, order.last()) {
                Some(m) => front.push(m),
                None => front,
            }
        }
    }
}

/// The items from position `i` on that are of no kind in `order` and are the last
/// of their kind.
pub open spec fn left_over(items: Seq<MapItem>, order: Seq<u16>, i: nat) -> Seq<MapItem>
    decreases items.len() - i,
{
    if i >= items.len() {
        Seq::empty()
    } else {
        let rest = left_over(items, order, i + 1);
        let code = items[i as int].type_code;
        if order.contains(code) || codes(items.skip(i as int + 1)).contains(code) {
            rest
        } else {
            seq![items[i as int]] + rest
        }
    }
}

/// The items in the order that `order` gives to their kinds, then those of other
/// kinds.
pub open spec fn reordered(items: Seq<MapItem>, order: Seq<u16>) -> Seq<MapItem> {
    in_order(items, order) + left_over(items, order, 0)
}

fn find_last(items: &[MapItem], code: u16) -> (r: Option<MapItem>)
    ensures
        r == last_of(items@, code),
{
    let mut n: usize = items.len();
    assert(items@.take(n as int) =~= items@);
    while n > 0
        invariant
            n <= items@.len(),
            last_of(items@, code) == last_of(items@.take(n as int), code),
        decreases n,
    {
        assert(items@.take(n as int).drop_last() =~= items@.take(n - 1));
        if items[n - 1].type_code == code {
            return Some(items[n - 1]);
        }
        n = n - 1;
    }
    None
}

/// Puts the items in the order that a file's own map list gives to their kinds.
/// Kinds that the list lacks come last, in their own order.
pub fn reorder_map_items_to_input(items: Vec<MapItem>, input_entries: &[MapEntry]) -> (r: Vec<
    MapItem,
>)
    ensures
        r@ == reordered(items@, codes(as_items(input_entries@))),
{
    let order = codes_of(items_of(input_entries).as_slice());
    let mut out: Vec<MapItem> = Vec::new();
    let mut i: usize = 0;
    assert(order@.take(0) =~= Seq::empty());
    while i < order.len()
        invariant
            i <= order@.len(),
            out@ == in_order(items@, order@.take(i as int)),
        decreases order@.len() - i,
    {
        assert(order@.take(i + 1).drop_last() =~= order@.take(i as int));
        if !holds(vstd::slice::slice_subrange(order.as_slice(), 0, i), order[i]) {
            match find_last(items.as_slice(), order[i]) {
                Some(m) => {
                    out.push(m);
                },
                None => {},
            }
        }
        assert(order@.subrange(0, i as int) =~= order@.take(i as int));
        i = i + 1;
    }
    assert(order@.take(i as int) =~= order@);
    let found = codes_of(items.as_slice());
    let ghost front = out@;
    let ghost whole = left_over(items@, order@, 0);
    let mut i: usize = 0;
    while i < items.len()
        invariant
            i <= items@.len() == found@.len(),
            found@ == codes(items@),
            out@ + left_over(items@, order@, i as nat) =~= front + whole,
        decreases items@.len() - i,
    {
        let later = vstd::slice::slice_subrange(found.as_slice(), i + 1, found.len());
        assert(later@ =~= codes(items@.skip(i + 1)));
        if !holds(order.as_slice(), items[i].type_code) && !holds(later, items[i].type_code) {
            out.push(items[i]);
        }
        i = i + 1;
    }
    assert(left_over(items@, order@, i as nat) =~= Seq::empty());
    out
}

// Sections

/// A section: its kind, how many items it has and where it starts.
#[derive(Debug, Clone, Copy, PartialEq, Eq, Structural)]
pub struct Extent {
    pub type_code: u16,
    pub count: usize,
    pub offset: u32,
}

/// The entries for the first `n` of some sections. Empty sections have none.
pub open spec fn section_entries(sections: Seq<Extent>, n: nat) -> Seq<MapItem>
    decreases n,
{
    if n == 0 {
        Seq::empty()
    } else {
        let front = section_entries(sections, (n - 1) as nat);
        let s = sections[n - 1];
        if s.count > 0 {
            front.push(
                MapItem { type_code: s.type_code, size: low32(s.count as nat), offset: s.offset },
            )
        } else {
            front
        }
    }
}

/// The entries for some sections. Empty sections have none.
pub fn build_map_items(sections: &[Extent]) -> (r: Vec<MapItem>)
    ensures
        r@ == section_entries(sections@, sections@.len()),
{
    let mut out: Vec<MapItem> = Vec::new();
    let mut i: usize = 0;
    while i < sections.len()
        invariant
            i <= sections@.len(),
            out@ == section_entries(sections@, i as nat),
        decreases sections@.len() - i,
    {
        let s: Extent = sections[i];
        if s.count > 0 {
            out.push(MapItem { type_code: s.type_code, size: len32(s.count), offset: s.offset });
        }
        i = i + 1;
    }
    out
}

/// Where the section of the given kind starts: the first entry of that kind says.
pub open spec fn section_start(list: Seq<MapEntry>, code: u16, i: nat) -> Option<u32>
    decreases list.len() - i,
{
    if i >= list.len() {
        None
    } else if list[i as int].type_code == code {
        Some(list[i as int].offset)
    } else {
        section_start(list, code, i + 1)
    }
}

/// Where the section of the given kind starts.
pub fn input_offset_by_code(list: &[MapEntry], code: u16) -> (r: Option<u32>)
    ensures
        r == section_start(list@, code, 0),
{
    let mut i: usize = 0;
    while i < list.len()
        invariant
            i <= list@.len(),
            section_start(list@, code, 0) == section_start(list@, code, i as nat),
        decreases list@.len() - i,
    {
        if list[i].type_code == code {
            return Some(list[i].offset);
        }
        i = i + 1;
    }
    None
}

/// The least offset after `base` among the first `n` entries.
pub open spec fn next_start(list: Seq<MapEntry>, base: u32, n: nat) -> Option<u32>
    decreases n,
{
    if n == 0 {
        None
    } else {
        let o = list[n - 1].offset;
        match next_start(list, base, (n - 1) as nat) {
            Some(best) => if o > base && o < best {
                Some(o)
            } else {
                Some(best)
            },
            None => if o > base {
                Some(o)
            } else {
                None
            },
        }
    }
}

/// From `base` to where the next section starts, or to the end of the file.
pub open spec fn room_after(list: Seq<MapEntry>, base: u32, file_size: u32) -> u32 {
    let end = match next_start(list, base, list.len()) {
        Some(o) => o,
        None => file_size,
    };
    if end >= base {
        (end - base) as u32
    } else {
        0
    }
}

/// From `base` to where the next section starts, or to the end of the file.
pub fn space_after(list: &[MapEntry], base: u32, file_size: u32) -> (r: u32)
    ensures
        r == room_after(list@, base, file_size),
{
    let mut best: Option<u32> = None;
    let mut i: usize = 0;
    while i < list.len()
        invariant
            i <= list@.len(),
            best == next_start(list@, base, i as nat),
        decreases list@.len() - i,
    {
        let o: u32 = list[i].offset;
        match best {
            Some(b) => {
                if o > base && o < b {
                    best = Some(o);
                }
            },
            None => {
                if o > base {
                    best = Some(o);
                }
            },
        }
        i = i + 1;
    }
    let end: u32 = match best {
        Some(o) => o,
        None => file_size,
    };
    if end >= base {
        end - base
    } else {
        0
    }
}

} // verus!
