//! Which changes are reported, and in which order a file is laid out.
use vstd::prelude::*;

use crate::bytes::read_le32;
use crate::dex_file::{tiles, DexFile, MapEntry, ParseFailure, SectionRegion};
use crate::emit_dex::assembly::{
    canonical_file, data_bases, extents, file_map, joined, layout_reports, map_report, order_report,
    Bases,
};
use crate::emit_dex::canonical::{data, padding_reports};
use crate::emit_dex::config::{padding_report, AlignmentSection, CanonicalTransform, EmitConfig};
use crate::emit_dex::emit::{content_reports, emitted_file};
use crate::emit_dex::error::DexEmitError;
use crate::emit_dex::laws::file::{
    canonical_header, canonical_header_describes_the_file, canonical_parts,
    canonical_sections_stand, canonical_steps, header_words,
};
use crate::emit_dex::laws::kept::{all_apart, file_parts, kept_parts_stand, kept_steps};
use crate::emit_dex::laws::map::{common_codes_are_kept, entry_of, the_map_lists_every_section_once};
use crate::emit_dex::laws::placed::{
    an_unlisted_layout_is_not_kept, listed_at, lists_what_is_there, map_lists_tell_what_is_there,
    section_starts_are_listed,
};
use crate::emit_dex::laws::preserve::{kept_header, kept_parts};
use crate::emit_dex::laws::says::header_word;
use crate::emit_dex::layout::PoolPlaces;
use crate::emit_dex::map_list::{
    as_items, by_offset, by_offset_is_a_stable_sort, codes, data_order, data_reordered, kept,
    next_start, order_differs, room_after, section_start, MapItem,
};
use crate::emit_dex::partial::{first_loss, losses, partial};
use crate::emit_dex::preserve::data_extent;
use crate::emit_dex::widths::width_divergences;

verus! {

// Orders

/// `x` stands before `y`.
pub open spec fn stands_before(s: Seq<u16>, x: u16, y: u16) -> bool {
    exists|i: int, j: int| 0 <= i < j < s.len() && #[trigger] s[i] == x && #[trigger] s[j] == y
}

/// Two codes stand in one order in `a` and in the other in `b`.
pub open spec fn turned_round(a: Seq<u16>, b: Seq<u16>) -> bool {
    exists|x: u16, y: u16| #[trigger] stands_before(a, x, y) && #[trigger] stands_before(b, y, x)
}

proof fn lemma_kept(a: Seq<u16>, b: Seq<u16>)
    requires
        a.no_duplicates(),
    ensures
        kept(a, b).no_duplicates(),
        forall|x: u16, y: u16| #[trigger]
            stands_before(kept(a, b), x, y) <==> stands_before(a, x, y) && b.contains(x)
                && b.contains(y),
    decreases a.len(),
{
    if a.len() > 0 {
        let front = a.drop_last();
        let last = a.last();
        let f = kept(front, b);
        let k = kept(a, b);
        lemma_kept(front, b);
        assert(a =~= front.push(last));
        assert(!front.contains(last)) by {
            if front.contains(last) {
                let i = choose|i: int| 0 <= i < front.len() && front[i] == last;
                assert(a[i] == a[a.len() - 1]);
            }
        }
        assert forall|x: u16| f.contains(x) implies front.contains(x) && b.contains(x) by {
            common_codes_are_kept(front, b, x);
        }
        assert forall|x: u16| front.contains(x) && b.contains(x) implies f.contains(x) by {
            common_codes_are_kept(front, b, x);
        }
        if b.contains(last) {
            assert(k == f.push(last));
            assert(!f.contains(last));
        }
        assert forall|x: u16, y: u16| #[trigger] stands_before(k, x, y) == (stands_before(a, x, y)
            && b.contains(x) && b.contains(y)) by {
            lemma_pushed(front, last, x, y);
            lemma_pushed(f, last, x, y);
            assert(stands_before(f, x, y) == (stands_before(front, x, y) && b.contains(x)
                && b.contains(y)));
        }
    } else {
        assert forall|x: u16, y: u16| !#[trigger] stands_before(kept(a, b), x, y) by {}
    }
}

proof fn lemma_pushed(s: Seq<u16>, z: u16, x: u16, y: u16)
    ensures
        stands_before(s.push(z), x, y) <==> stands_before(s, x, y) || (s.contains(x) && y == z),
{
    let t = s.push(z);
    if stands_before(t, x, y) {
        let (i, j) = choose|i: int, j: int|
            0 <= i < j < t.len() && #[trigger] t[i] == x && #[trigger] t[j] == y;
        if j < s.len() {
            assert(s[i] == x && s[j] == y);
        } else {
            assert(s[i] == x);
        }
    }
    if stands_before(s, x, y) {
        let (i, j) = choose|i: int, j: int|
            0 <= i < j < s.len() && #[trigger] s[i] == x && #[trigger] s[j] == y;
        assert(t[i] == x && t[j] == y);
    }
    if s.contains(x) && y == z {
        let i = choose|i: int| 0 <= i < s.len() && s[i] == x;
        assert(t[i] == x && t[s.len() as int] == y);
    }
}

proof fn lemma_same_order(p: Seq<u16>, q: Seq<u16>)
    requires
        p.no_duplicates(),
        q.no_duplicates(),
        forall|x: u16| #[trigger] p.contains(x) <==> q.contains(x),
        !turned_round(p, q),
    ensures
        p == q,
    decreases p.len(),
{
    if p.len() == 0 {
        if q.len() > 0 {
            assert(q.contains(q[0]));
            assert(p.contains(q[0]));
        }
        assert(p =~= q);
    } else {
        let z = p.last();
        assert(p.contains(p[p.len() - 1]));
        assert(q.contains(z));
        let j = choose|j: int| 0 <= j < q.len() && q[j] == z;
        if j < q.len() - 1 {
            let w = q[q.len() - 1];
            assert(q.contains(w));
            assert(p.contains(w));
            let i = choose|i: int| 0 <= i < p.len() && p[i] == w;
            assert(p[p.len() - 1] == z);
            assert(i < p.len() - 1);
            assert(stands_before(p, w, z));
            assert(stands_before(q, z, w));
        }
        let f = p.drop_last();
        let g = q.drop_last();
        assert(p =~= f.push(z));
        assert(q =~= g.push(z));
        assert forall|x: u16| #[trigger] f.contains(x) <==> g.contains(x) by {
            lemma_dropped(p, x);
            lemma_dropped(q, x);
            assert(p.contains(x) <==> q.contains(x));
        }
        if turned_round(f, g) {
            let (x, y) = choose|x: u16, y: u16| #[trigger]
                stands_before(f, x, y) && #[trigger] stands_before(g, y, x);
            lemma_pushed(f, z, x, y);
            lemma_pushed(g, z, y, x);
            assert(stands_before(p, x, y) && stands_before(q, y, x));
        }
        lemma_same_order(f, g);
    }
}

proof fn lemma_dropped(s: Seq<u16>, x: u16)
    requires
        s.len() > 0,
        s.no_duplicates(),
    ensures
        s.drop_last().contains(x) <==> s.contains(x) && x != s.last(),
{
    let f = s.drop_last();
    if f.contains(x) {
        let i = choose|i: int| 0 <= i < f.len() && f[i] == x;
        assert(s[i] == x);
        assert(s[i] != s[s.len() - 1]);
    }
    if s.contains(x) && x != s.last() {
        let i = choose|i: int| 0 <= i < s.len() && s[i] == x;
        assert(f[i] == x);
    }
}

/// The order of two lists without repetition differs where two codes that both have are
/// turned round.
pub proof fn orders_differ_where_codes_are_turned_round(a: Seq<u16>, b: Seq<u16>)
    requires
        a.no_duplicates(),
        b.no_duplicates(),
    ensures
        order_differs(a, b) <==> turned_round(a, b),
{
    let p = kept(a, b);
    let q = kept(b, a);
    lemma_kept(a, b);
    lemma_kept(b, a);
    assert forall|x: u16| #[trigger] p.contains(x) <==> q.contains(x) by {
        common_codes_are_kept(a, b, x);
        common_codes_are_kept(b, a, x);
    }
    if turned_round(a, b) {
        let (x, y) = choose|x: u16, y: u16| #[trigger]
            stands_before(a, x, y) && #[trigger] stands_before(b, y, x);
        lemma_within(a, x, y);
        lemma_within(b, y, x);
        assert(stands_before(p, x, y));
        assert(stands_before(q, y, x));
        if p == q {
            let (i, j) = choose|i: int, j: int|
                0 <= i < j < p.len() && #[trigger] p[i] == x && #[trigger] p[j] == y;
            let (k, l) = choose|k: int, l: int|
                0 <= k < l < p.len() && #[trigger] p[k] == y && #[trigger] p[l] == x;
            assert(i == l && j == k);
        }
    } else {
        if turned_round(p, q) {
            let (x, y) = choose|x: u16, y: u16| #[trigger]
                stands_before(p, x, y) && #[trigger] stands_before(q, y, x);
            assert(stands_before(a, x, y) && stands_before(b, y, x));
        }
        lemma_same_order(p, q);
    }
}

proof fn lemma_within(s: Seq<u16>, x: u16, y: u16)
    requires
        stands_before(s, x, y),
    ensures
        s.contains(x),
        s.contains(y),
{
    let (i, j) = choose|i: int, j: int|
        0 <= i < j < s.len() && #[trigger] s[i] == x && #[trigger] s[j] == y;
    assert(s[i] == x && s[j] == y);
}

/// The position of a kind of section in the order in which data is laid out; -1 for the
/// others.
pub open spec fn data_rank(code: u16) -> int {
    if code == 0x2002 {
        0
    } else if code == 0x2001 {
        1
    } else if code == 0x2003 {
        2
    } else if code == 0x2000 {
        3
    } else if code == 0x2004 {
        4
    } else if code == 0x1003 {
        5
    } else if code == 0x1002 {
        6
    } else if code == 0x2006 {
        7
    } else if code == 0x2005 {
        8
    } else if code == 0x1001 {
        9
    } else if code == 0x1000 {
        10
    } else {
        -1
    }
}

proof fn lemma_data_order(x: u16, y: u16)
    ensures
        data_order().no_duplicates(),
        stands_before(data_order(), x, y) <==> 0 <= data_rank(x) < data_rank(y),
{
    let o = data_order();
    assert forall|i: int| 0 <= i < o.len() implies data_rank(#[trigger] o[i]) == i by {}
    if 0 <= data_rank(x) < data_rank(y) {
        assert(o[data_rank(x)] == x && o[data_rank(y)] == y);
    }
    assert forall|i: int, j: int| 0 <= i < o.len() && 0 <= j < o.len() && i != j implies o[i]
        != o[j] by {
        assert(data_rank(o[i]) == i && data_rank(o[j]) == j);
    }
    if stands_before(o, x, y) {
        let (i, j) = choose|i: int, j: int|
            0 <= i < j < o.len() && #[trigger] o[i] == x && #[trigger] o[j] == y;
        assert(data_rank(o[i]) == i && data_rank(o[j]) == j);
    }
}

/// Two sections of a file come in another order than that in which data is laid out.
pub open spec fn out_of_order(list: Seq<MapEntry>, i: int, j: int) -> bool {
    &&& 0 <= i < list.len()
    &&& 0 <= j < list.len()
    &&& list[i].offset < list[j].offset
    &&& 0 <= data_rank(list[j].type_code) < data_rank(list[i].type_code)
}

/// Where a map list has every kind of section once, and no two in one place, the data is laid
/// out in another order where two sections come in another order.
pub proof fn data_is_reordered_where_sections_are_out_of_order(list: Seq<MapEntry>)
    requires
        forall|i: int, j: int|
            0 <= i < j < list.len() ==> (#[trigger] list[i]).type_code != (
            #[trigger] list[j]).type_code && list[i].offset != list[j].offset,
    ensures
        data_reordered(list) <==> exists|i: int, j: int| #[trigger] out_of_order(list, i, j),
{
    let items = as_items(list);
    let sorted = by_offset(items);
    let a = codes(sorted);
    let o = data_order();
    by_offset_is_a_stable_sort(items);
    sorted.to_multiset_ensures();
    items.to_multiset_ensures();
    assert(items.no_duplicates()) by {
        assert forall|i: int, j: int|
            0 <= i < items.len() && 0 <= j < items.len() && i != j implies items[i] != items[j] by {
            assert(items[i].type_code == list[i].type_code);
            assert(items[j].type_code == list[j].type_code);
            if i < j {
                assert(list[i].type_code != list[j].type_code);
            } else {
                assert(list[j].type_code != list[i].type_code);
            }
        }
    }
    items.lemma_multiset_has_no_duplicates();
    sorted.lemma_multiset_has_no_duplicates_conv();
    assert forall|m: MapItem| #[trigger] sorted.contains(m) == items.contains(m) by {
        assert(sorted.to_multiset().contains(m) == items.to_multiset().contains(m));
    }
    assert forall|k: int| 0 <= k < sorted.len() implies exists|i: int|
        0 <= i < list.len() && items[i] == #[trigger] sorted[k] by {
        assert(sorted.contains(sorted[k]));
        assert(items.contains(sorted[k]));
    }
    assert(a.no_duplicates()) by {
        assert forall|k: int, l: int|
            0 <= k < a.len() && 0 <= l < a.len() && k != l implies a[k] != a[l] by {
            let i = choose|i: int| 0 <= i < list.len() && items[i] == sorted[k];
            let j = choose|j: int| 0 <= j < list.len() && items[j] == sorted[l];
            assert(i != j);
            assert(items[i].type_code == list[i].type_code);
            assert(items[j].type_code == list[j].type_code);
            if i < j {
                assert(list[i].type_code != list[j].type_code);
            } else {
                assert(list[j].type_code != list[i].type_code);
            }
        }
    }
    lemma_data_order(0, 0);
    orders_differ_where_codes_are_turned_round(a, o);
    if turned_round(a, o) {
        let (x, y) = choose|x: u16, y: u16| #[trigger]
            stands_before(a, x, y) && #[trigger] stands_before(o, y, x);
        lemma_data_order(y, x);
        let (k, l) = choose|k: int, l: int|
            0 <= k < l < a.len() && #[trigger] a[k] == x && #[trigger] a[l] == y;
        let i = choose|i: int| 0 <= i < list.len() && items[i] == sorted[k];
        let j = choose|j: int| 0 <= j < list.len() && items[j] == sorted[l];
        assert(sorted[k].offset <= sorted[l].offset);
        assert(items[i].offset == list[i].offset && items[j].offset == list[j].offset);
        assert(i != j);
        if i < j {
            assert(list[i].offset != list[j].offset);
        } else {
            assert(list[j].offset != list[i].offset);
        }
        assert(out_of_order(list, i, j));
    }
    if exists|i: int, j: int| #[trigger] out_of_order(list, i, j) {
        let (i, j) = choose|i: int, j: int| #[trigger] out_of_order(list, i, j);
        let x = list[i].type_code;
        let y = list[j].type_code;
        lemma_data_order(y, x);
        assert(items.contains(items[i]) && items.contains(items[j]));
        assert(sorted.contains(items[i]) && sorted.contains(items[j]));
        let k = choose|k: int| 0 <= k < sorted.len() && sorted[k] == items[i];
        let l = choose|l: int| 0 <= l < sorted.len() && sorted[l] == items[j];
        if l < k {
            assert(sorted[l].offset <= sorted[k].offset);
        }
        assert(k != l);
        assert(a[k] == x && a[l] == y);
        assert(stands_before(a, x, y));
        assert(turned_round(a, o));
    }
}

// The layout

/// The next multiple of four from `x` on.
pub open spec fn next_fourth(x: int) -> int {
    (x + 3) / 4 * 4
}

/// In a file in the canonical layout the sections follow each other behind the id pools, in
/// one order; those that have to be aligned start at the next multiple of four.
pub proof fn sections_follow_each_other(dex: DexFile, config: EmitConfig)
    requires
        canonical_file(dex, config) is Ok,
    ensures
        ({
            let c = canonical_parts(dex, config);
            let b = c.data.bodies;
            let n = c.data.notes;
            let t = c.data.tail;
            &&& b.code_base == next_fourth(c.places.data_off + c.front.string_data.len())
            &&& b.debug_base == b.code_base + c.front.code.blob.len()
            &&& b.class_base == b.debug_base + c.front.debug.blob.len()
            &&& n.item_base == b.class_base + b.classes.blob.len()
            &&& n.set_base == next_fourth((n.item_base + n.items.blob.len()) as int)
            &&& n.ref_base == next_fourth((n.set_base + n.sets.blob.len()) as int)
            &&& n.dir_base == next_fourth((n.ref_base + n.refs.blob.len()) as int)
            &&& t.array_base == n.dir_base + n.dirs.blob.len()
            &&& t.list_base == next_fourth((t.array_base + t.arrays.blob.len()) as int)
            &&& t.map_base == next_fourth((t.list_base + c.front.lists.blob.len()) as int)
            &&& canonical_file(dex, config)->Ok_0.bytes.len() == t.map_base + c.map.len()
        }),
{
    let c = canonical_parts(dex, config);
    canonical_steps(dex, config);
    canonical_sections_stand(dex, config);
    reveal(data);
}

/// The header of a file in the canonical layout says how long it is itself and in which order
/// numbers are written, that nothing is linked, where the map list is, and that the data goes
/// from the end of the id pools to the end of the file.
pub proof fn headers_place_the_map_list_and_the_data(dex: DexFile, config: EmitConfig)
    requires
        canonical_file(dex, config) is Ok,
    ensures
        ({
            let c = canonical_parts(dex, config);
            let out = canonical_file(dex, config)->Ok_0.bytes;
            &&& read_le32(out, 32) == out.len()
            &&& read_le32(out, 36) == 112
            &&& read_le32(out, 40) == 0x1234_5678
            &&& read_le32(out, 44) == 0
            &&& read_le32(out, 48) == 0
            &&& read_le32(out, 52) == c.data.tail.map_base
            &&& read_le32(out, 104) == out.len() - c.places.data_off
            &&& read_le32(out, 108) == c.places.data_off
        }),
{
    reveal(canonical_header);
    canonical_header_describes_the_file(dex, config, 0);
    canonical_header_describes_the_file(dex, config, 1);
    canonical_header_describes_the_file(dex, config, 2);
    canonical_header_describes_the_file(dex, config, 3);
    canonical_header_describes_the_file(dex, config, 4);
    canonical_header_describes_the_file(dex, config, 5);
    canonical_header_describes_the_file(dex, config, 18);
    canonical_header_describes_the_file(dex, config, 19);
}

/// Where the layout is kept and the parts of the file are apart, the header has the map list
/// where the file read has it, and the data as well, as far as that is within the file.
pub proof fn kept_headers_place_the_map_list_and_the_data(dex: DexFile, config: EmitConfig)
    requires
        config.preserve_data_section_layout,
        lists_what_is_there(dex),
        emitted_file(dex, config) is Ok,
        all_apart(file_parts(dex, kept_parts(dex, config))),
        dex.header.data_off + dex.header.data_size <= u32::MAX,
    ensures
        ({
            let c = kept_parts(dex, config);
            let out = emitted_file(dex, config)->Ok_0.bytes;
            let off = dex.header.data_off;
            let size = dex.header.data_size;
            &&& read_le32(out, 32) == out.len()
            &&& read_le32(out, 36) == 112
            &&& read_le32(out, 40) == 0x1234_5678
            &&& read_le32(out, 52) == c.bases.map_list
            &&& off > 0 && off + size <= out.len() ==> read_le32(out, 104) == size && read_le32(
                out,
                108,
            ) == off
            &&& !(off > 0 && off + size <= out.len()) && c.places.data_off <= out.len()
                ==> read_le32(out, 104) == out.len() - c.places.data_off && read_le32(out, 108)
                == c.places.data_off
        }),
{
    let c = kept_parts(dex, config);
    let out = emitted_file(dex, config)->Ok_0.bytes;
    let words = header_words(kept_header(dex, c));
    map_lists_tell_what_is_there(dex);
    kept_parts_stand(dex, config);
    assert(header_word(out, 0) == words[0]);
    assert(header_word(out, 1) == words[1]);
    assert(header_word(out, 2) == words[2]);
    assert(header_word(out, 5) == words[5]);
    assert(header_word(out, 18) == words[18]);
    assert(header_word(out, 19) == words[19]);
}

// Reports

/// Where a file is in the canonical layout, its reports are those about padding, about the map
/// list, about the order of the data, and about what it holds.
pub open spec fn comes_out_anew(dex: DexFile, config: EmitConfig) -> bool {
    !config.preserve_data_section_layout || !lists_what_is_there(dex)
}

proof fn lemma_reports(dex: DexFile, config: EmitConfig, r: CanonicalTransform)
    requires
        emitted_file(dex, config) is Ok,
        comes_out_anew(dex, config),
    ensures
        ({
            let plain = EmitConfig { preserve_data_section_layout: false, ..config };
            let c = canonical_parts(dex, plain);
            let m = file_map(
                dex,
                plain,
                c.places,
                data_bases(c.data, c.places.data_off),
            );
            &&& canonical_file(dex, plain) is Ok
            &&& emitted_file(dex, config)->Ok_0.bytes == canonical_file(dex, plain)->Ok_0.bytes
            &&& emitted_file(dex, config)->Ok_0.reports.contains(r) <==> padding_reports(
                dex,
                c.data,
            ).contains(r) || map_report(dex, plain, m).contains(r) || order_report(dex).contains(r)
                || content_reports(dex, config).contains(r)
        }),
{
    let plain = EmitConfig { preserve_data_section_layout: false, ..config };
    if config.preserve_data_section_layout {
        an_unlisted_layout_is_not_kept(dex, config);
    } else {
        assert(plain == config);
    }
    let c = canonical_parts(dex, plain);
    canonical_steps(dex, plain);
    reveal(joined);
    reveal(layout_reports);
    let m = file_map(
        dex,
        plain,
        c.places,
        data_bases(c.data, c.places.data_off),
    );
    let p = padding_reports(dex, c.data);
    let a = map_report(dex, plain, m);
    let o = order_report(dex);
    let k = content_reports(dex, plain);
    assert(k == content_reports(dex, config));
    assert(emitted_file(dex, config)->Ok_0.reports == p + a + o + k);
    lemma_in_sum(p + a + o, k, r);
    lemma_in_sum(p + a, o, r);
    lemma_in_sum(p, a, r);
}

proof fn lemma_in_sum(
    a: Seq<CanonicalTransform>,
    b: Seq<CanonicalTransform>,
    r: CanonicalTransform,
)
    ensures
        (a + b).contains(r) <==> a.contains(r) || b.contains(r),
{
    if a.contains(r) {
        let i = choose|i: int| 0 <= i < a.len() && a[i] == r;
        assert((a + b)[i] == r);
    }
    if b.contains(r) {
        let i = choose|i: int| 0 <= i < b.len() && b[i] == r;
        assert((a + b)[a.len() + i] == r);
    }
    if (a + b).contains(r) {
        let i = choose|i: int| 0 <= i < (a + b).len() && (a + b)[i] == r;
        if i < a.len() {
            assert(a[i] == r);
        } else {
            assert(b[i - a.len()] == r);
        }
    }
}

proof fn lemma_content(dex: DexFile, config: EmitConfig, r: CanonicalTransform)
    ensures
        content_reports(dex, config).contains(r) ==> r is EncodedValueReencoded || r
            is InputChecksumNormalized,
        content_reports(dex, config).contains(CanonicalTransform::InputChecksumNormalized)
            <==> !dex.input_checksums_canonical && !config.preserve_input_checksums,
        (exists|count: u32|
            content_reports(dex, config).contains(
                (#[trigger] re_encoded(count)),
            )) <==> width_divergences(dex) > 0 && !config.preserve_encoded_value_width,
{
    let s = content_reports(dex, config);
    let first = if !config.preserve_encoded_value_width && width_divergences(dex) > 0 {
        seq![re_encoded(crate::emit_dex::widths::capped(width_divergences(dex)))]
    } else {
        Seq::empty()
    };
    let second = if !dex.input_checksums_canonical && !config.preserve_input_checksums {
        seq![CanonicalTransform::InputChecksumNormalized]
    } else {
        Seq::empty()
    };
    assert(s =~= first + second);
    lemma_in_sum(first, second, CanonicalTransform::InputChecksumNormalized);
    if second.len() > 0 {
        assert(second[0] == CanonicalTransform::InputChecksumNormalized);
    }
    if first.len() > 0 {
        let count = crate::emit_dex::widths::capped(width_divergences(dex));
        assert(first[0] == re_encoded(count));
        lemma_in_sum(first, second, re_encoded(count));
    }
    if exists|count: u32| s.contains((#[trigger] re_encoded(count))) {
        let count = choose|count: u32| s.contains((#[trigger] re_encoded(count)));
        lemma_in_sum(first, second, re_encoded(count));
    }
}

/// The report that `count` numbers were re-encoded.
pub open spec fn re_encoded(count: u32) -> CanonicalTransform {
    CanonicalTransform::EncodedValueReencoded { count }
}

proof fn lemma_no_padding(dex: DexFile, config: EmitConfig, r: CanonicalTransform)
    requires
        !(r is AlignmentPaddingInserted),
    ensures
        !padding_reports(dex, canonical_parts(dex, config).data).contains(r),
{
    let d = canonical_parts(dex, config).data;
    let s = padding_reports(dex, d);
    if s.contains(r) {
        let k = choose|k: int| 0 <= k < s.len() && s[k] == r;
        assert(s[k] is AlignmentPaddingInserted);
    }
}

proof fn lemma_kept_reports(dex: DexFile, config: EmitConfig, r: CanonicalTransform)
    requires
        emitted_file(dex, config) is Ok,
        !comes_out_anew(dex, config),
    ensures
        ({
            let c = kept_parts(dex, config);
            emitted_file(dex, config)->Ok_0.reports.contains(r) <==> map_report(
                dex,
                config,
                file_map(dex, config, c.places, c.bases),
            ).contains(r) || content_reports(dex, config).contains(r)
        }),
{
    let c = kept_parts(dex, config);
    map_lists_tell_what_is_there(dex);
    kept_steps(dex, config);
    let a = map_report(dex, config, file_map(dex, config, c.places, c.bases));
    assert(emitted_file(dex, config)->Ok_0.reports == a + content_reports(dex, config));
    lemma_in_sum(a, content_reports(dex, config), r);
}

proof fn lemma_content_reported(dex: DexFile, config: EmitConfig, r: CanonicalTransform)
    requires
        emitted_file(dex, config) is Ok,
        r is EncodedValueReencoded || r is InputChecksumNormalized,
    ensures
        emitted_file(dex, config)->Ok_0.reports.contains(r) <==> content_reports(
            dex,
            config,
        ).contains(r),
{
    let plain = EmitConfig { preserve_data_section_layout: false, ..config };
    if comes_out_anew(dex, config) {
        lemma_reports(dex, config, r);
        lemma_no_padding(dex, plain, r);
    } else {
        lemma_kept_reports(dex, config, r);
    }
}

/// Recomputed checksums are reported where those read were wrong and were not to be kept;
/// re-encoded numbers where some had a width above the least and widths were not to be kept.
pub proof fn content_changes_are_reported(dex: DexFile, config: EmitConfig)
    requires
        emitted_file(dex, config) is Ok,
    ensures
        ({
            let reports = emitted_file(dex, config)->Ok_0.reports;
            &&& reports.contains(CanonicalTransform::InputChecksumNormalized)
                <==> !dex.input_checksums_canonical && !config.preserve_input_checksums
            &&& (exists|count: u32| reports.contains((#[trigger] re_encoded(count))))
                <==> width_divergences(dex) > 0 && !config.preserve_encoded_value_width
        }),
{
    let reports = emitted_file(dex, config)->Ok_0.reports;
    let sum = CanonicalTransform::InputChecksumNormalized;
    lemma_content_reported(dex, config, sum);
    lemma_content(dex, config, sum);
    if exists|count: u32| reports.contains((#[trigger] re_encoded(count))) {
        let count = choose|count: u32| reports.contains((#[trigger] re_encoded(count)));
        lemma_content_reported(dex, config, re_encoded(count));
    }
    if exists|count: u32|
        content_reports(dex, config).contains((#[trigger] re_encoded(count))) {
        let count = choose|count: u32|
            content_reports(dex, config).contains((#[trigger] re_encoded(count)));
        lemma_content_reported(dex, config, re_encoded(count));
    }
}

/// That the data sections are in another order is reported where they are, unless the layout
/// is kept.
pub proof fn reordered_data_is_reported(dex: DexFile, config: EmitConfig)
    requires
        emitted_file(dex, config) is Ok,
        comes_out_anew(dex, config),
        forall|i: int, j: int|
            0 <= i < j < dex.map_entries@.len() ==> (#[trigger] dex.map_entries@[i]).type_code != (
            #[trigger] dex.map_entries@[j]).type_code && dex.map_entries@[i].offset
                != dex.map_entries@[j].offset,
    ensures
        emitted_file(dex, config)->Ok_0.reports.contains(
            CanonicalTransform::DataSectionLayoutReordered,
        ) <==> exists|i: int, j: int| #[trigger] out_of_order(dex.map_entries@, i, j),
{
    let plain = EmitConfig { preserve_data_section_layout: false, ..config };
    let r = CanonicalTransform::DataSectionLayoutReordered;
    lemma_reports(dex, config, r);
    lemma_no_padding(dex, plain, r);
    lemma_content(dex, config, r);
    data_is_reordered_where_sections_are_out_of_order(dex.map_entries@);
    if data_reordered(dex.map_entries@) {
        assert(order_report(dex)[0] == r);
    }
}

/// The report that `n` zero bytes went in before a section.
pub open spec fn padded_by(section: AlignmentSection, n: u32) -> CanonicalTransform {
    CanonicalTransform::AlignmentPaddingInserted { section, byte_count: n }
}

/// The section stands `n` bytes behind the end of what comes before it, and not where the map
/// list of the file read has it.
pub open spec fn moved_by(dex: DexFile, code: u16, end: int, base: u32, n: u32) -> bool {
    n > 0 && base == end + n && exists|was: u32| was != base && #[trigger] listed_at(dex, code, was)
}

proof fn lemma_padding(dex: DexFile, section: AlignmentSection, off: u32, base: u32, r: CanonicalTransform)
    ensures
        padding_report(dex, section, off, base).contains(r) <==> (r matches
            CanonicalTransform::AlignmentPaddingInserted { section: s, byte_count: n } && s == section
            && moved_by(dex, section.code(), off as int, base, n)),
{
    section_starts_are_listed(dex, section.code());
    let s = padding_report(dex, section, off, base);
    match section_start(dex.map_entries@, section.code(), 0) {
        Some(was) => {
            assert(listed_at(dex, section.code(), was));
            if base > off && was != base {
                assert(s[0] == padded_by(section, (base - off) as u32));
            }
        },
        None => {},
    }
}

/// Zero bytes before a section are reported, with their number, where there are some, the map
/// list of the file read has the section, and has it elsewhere.
pub proof fn padding_is_reported(
    dex: DexFile,
    config: EmitConfig,
    section: AlignmentSection,
    n: u32,
)
    requires
        emitted_file(dex, config) is Ok,
        comes_out_anew(dex, config),
    ensures
        ({
            let plain = EmitConfig { preserve_data_section_layout: false, ..config };
            let c = canonical_parts(dex, plain);
            let b = c.data.bodies;
            let m = c.data.notes;
            let t = c.data.tail;
            emitted_file(dex, config)->Ok_0.reports.contains(padded_by(section, n)) <==> match section {
                AlignmentSection::CodeItem => moved_by(
                    dex,
                    0x2001,
                    (c.places.data_off + c.front.string_data.len()) as int,
                    b.code_base,
                    n,
                ),
                AlignmentSection::AnnotationSet => moved_by(
                    dex,
                    0x1003,
                    (m.item_base + m.items.blob.len()) as int,
                    m.set_base,
                    n,
                ),
                AlignmentSection::AnnotationSetRefList => moved_by(
                    dex,
                    0x1002,
                    (m.set_base + m.sets.blob.len()) as int,
                    m.ref_base,
                    n,
                ),
                AlignmentSection::AnnotationDirectory => moved_by(
                    dex,
                    0x2006,
                    (m.ref_base + m.refs.blob.len()) as int,
                    m.dir_base,
                    n,
                ),
                AlignmentSection::TypeList => moved_by(
                    dex,
                    0x1001,
                    (t.array_base + t.arrays.blob.len()) as int,
                    t.list_base,
                    n,
                ),
                AlignmentSection::MapList => moved_by(
                    dex,
                    0x1000,
                    (t.list_base + c.front.lists.blob.len()) as int,
                    t.map_base,
                    n,
                ),
            }
        }),
{
    let plain = EmitConfig { preserve_data_section_layout: false, ..config };
    let r = padded_by(section, n);
    let c = canonical_parts(dex, plain);
    let d = c.data;
    lemma_reports(dex, config, r);
    lemma_content(dex, config, r);
    sections_follow_each_other(dex, plain);
    canonical_steps(dex, plain);
    assert(d.string_end == c.places.data_off + c.front.string_data.len() && d.notes.item_end
        == d.notes.item_base + d.notes.items.blob.len() && d.notes.set_end == d.notes.set_base
        + d.notes.sets.blob.len() && d.notes.ref_end == d.notes.ref_base + d.notes.refs.blob.len()
        && d.tail.array_end == d.tail.array_base + d.tail.arrays.blob.len() && d.tail.list_end
        == d.tail.list_base + c.front.lists.blob.len()) by {
        reveal(data);
    }
    let p1 = padding_report(dex, AlignmentSection::CodeItem, d.string_end, d.bodies.code_base);
    let p2 = padding_report(
        dex,
        AlignmentSection::AnnotationSet,
        d.notes.item_end,
        d.notes.set_base,
    );
    let p3 = padding_report(
        dex,
        AlignmentSection::AnnotationSetRefList,
        d.notes.set_end,
        d.notes.ref_base,
    );
    let p4 = padding_report(
        dex,
        AlignmentSection::AnnotationDirectory,
        d.notes.ref_end,
        d.notes.dir_base,
    );
    let p5 = padding_report(dex, AlignmentSection::TypeList, d.tail.array_end, d.tail.list_base);
    let p6 = padding_report(dex, AlignmentSection::MapList, d.tail.list_end, d.tail.map_base);
    assert(padding_reports(dex, d) == p1 + p2 + p3 + p4 + p5 + p6);
    lemma_in_sum(p1 + p2 + p3 + p4 + p5, p6, r);
    lemma_in_sum(p1 + p2 + p3 + p4, p5, r);
    lemma_in_sum(p1 + p2 + p3, p4, r);
    lemma_in_sum(p1 + p2, p3, r);
    lemma_in_sum(p1, p2, r);
    lemma_padding(dex, AlignmentSection::CodeItem, d.string_end, d.bodies.code_base, r);
    lemma_padding(dex, AlignmentSection::AnnotationSet, d.notes.item_end, d.notes.set_base, r);
    lemma_padding(
        dex,
        AlignmentSection::AnnotationSetRefList,
        d.notes.set_end,
        d.notes.ref_base,
        r,
    );
    lemma_padding(
        dex,
        AlignmentSection::AnnotationDirectory,
        d.notes.ref_end,
        d.notes.dir_base,
        r,
    );
    lemma_padding(dex, AlignmentSection::TypeList, d.tail.array_end, d.tail.list_base, r);
    lemma_padding(dex, AlignmentSection::MapList, d.tail.list_end, d.tail.map_base, r);
}

/// The entries of the map list of a serialized file.
pub open spec fn new_map(dex: DexFile, config: EmitConfig) -> Seq<MapItem> {
    if comes_out_anew(dex, config) {
        let plain = EmitConfig { preserve_data_section_layout: false, ..config };
        let c = canonical_parts(dex, plain);
        file_map(dex, plain, c.places, data_bases(c.data, c.places.data_off))
    } else {
        let c = kept_parts(dex, config);
        file_map(dex, config, c.places, c.bases)
    }
}

/// That the map list is in another order is reported where two kinds of section that both lists
/// have are turned round, unless its order is kept.
pub proof fn a_reordered_map_list_is_reported(dex: DexFile, config: EmitConfig)
    requires
        emitted_file(dex, config) is Ok,
        codes(as_items(dex.map_entries@)).no_duplicates(),
    ensures
        emitted_file(dex, config)->Ok_0.reports.contains(CanonicalTransform::MapListReordered) <==> (
        !config.preserve_map_list_order && turned_round(
            codes(new_map(dex, config)),
            codes(as_items(dex.map_entries@)),
        )),
{
    let plain = EmitConfig { preserve_data_section_layout: false, ..config };
    let r = CanonicalTransform::MapListReordered;
    let m = new_map(dex, config);
    let used = if comes_out_anew(dex, config) {
        plain
    } else {
        config
    };
    if comes_out_anew(dex, config) {
        let c = canonical_parts(dex, plain);
        lemma_reports(dex, config, r);
        lemma_no_padding(dex, plain, r);
        the_map_lists_every_section_once(
            dex,
            plain,
            c.places,
            data_bases(c.data, c.places.data_off),
        );
    } else {
        let c = kept_parts(dex, config);
        lemma_kept_reports(dex, config, r);
        the_map_lists_every_section_once(dex, config, c.places, c.bases);
    }
    lemma_content(dex, config, r);
    assert(codes(m).no_duplicates()) by {
        assert forall|i: int, j: int|
            0 <= i < m.len() && 0 <= j < m.len() && i != j implies codes(m)[i] != codes(m)[j] by {
            if i < j {
                assert(m[i].type_code != m[j].type_code);
            } else {
                assert(m[j].type_code != m[i].type_code);
            }
        }
    }
    orders_differ_where_codes_are_turned_round(codes(m), codes(as_items(dex.map_entries@)));
    let s = map_report(dex, used, m);
    if s.len() > 0 {
        assert(s[0] == r);
    }
}

// The map list

/// The map list has an entry for a kind of section with `n` items at `off` where `n` is not 0.
pub open spec fn tells(items: Seq<MapItem>, code: u16, n: nat, off: u32) -> bool {
    n > 0 ==> items.contains(MapItem { type_code: code, size: (n % 0x1_0000_0000) as u32, offset: off })
}

/// The map list tells of each kind of section how many items it has and where it is, and has
/// no other entries.
pub proof fn the_map_list_tells_kinds_counts_and_places(
    dex: DexFile,
    config: EmitConfig,
    p: PoolPlaces,
    b: Bases,
)
    requires
        dex.code_items@.len() <= usize::MAX,
        dex.class_datas@.len() <= usize::MAX,
        dex.annotation_items@.len() <= usize::MAX,
        dex.annotation_sets@.len() <= usize::MAX,
        dex.annotation_set_ref_lists@.len() <= usize::MAX,
        dex.annotations@.len() <= usize::MAX,
        dex.encoded_arrays@.len() <= usize::MAX,
        dex.debug_info_raw_bytes@.len() <= usize::MAX,
        dex.type_lists@.len() <= usize::MAX,
    ensures
        ({
            let m = file_map(dex, config, p, b);
            &&& tells(m, 0x0000, 1, 0)
            &&& tells(m, 0x0001, dex.strings@.len(), p.string_ids_off)
            &&& tells(m, 0x0002, dex.type_descriptors@.len(), p.type_ids_off)
            &&& tells(m, 0x0003, dex.protos@.len(), p.proto_ids_off)
            &&& tells(m, 0x0004, dex.fields@.len(), p.field_ids_off)
            &&& tells(m, 0x0005, dex.methods@.len(), p.method_ids_off)
            &&& tells(m, 0x0006, dex.class_defs@.len(), p.class_defs_off)
            &&& tells(m, 0x0007, dex.call_site_ids@.len(), p.call_site_ids_off)
            &&& tells(m, 0x0008, dex.method_handles@.len(), p.method_handles_off)
            &&& tells(m, 0x2002, dex.strings@.len(), b.string_data)
            &&& tells(m, 0x2001, dex.code_items@.len(), b.code_item)
            &&& tells(m, 0x2000, dex.class_datas@.len(), b.class_data)
            &&& tells(m, 0x2004, dex.annotation_items@.len(), b.annotation_item)
            &&& tells(m, 0x1003, dex.annotation_sets@.len(), b.annotation_set)
            &&& tells(m, 0x1002, dex.annotation_set_ref_lists@.len(), b.annotation_set_ref_list)
            &&& tells(m, 0x2006, dex.annotations@.len(), b.annotation_directory)
            &&& tells(m, 0x2005, dex.encoded_arrays@.len(), b.encoded_array)
            &&& tells(m, 0x2003, dex.debug_info_raw_bytes@.len(), b.debug_info)
            &&& tells(m, 0x1001, dex.type_lists@.len(), b.type_list)
            &&& tells(m, 0x1000, 1, b.map_list)
        }),
{
    the_map_lists_every_section_once(dex, config, p, b);
    let e = extents(dex, p, b);
    let m = file_map(dex, config, p, b);
    assert(e.len() == 20) by {
        reveal(extents);
    }
    assert forall|k: int| 0 <= k < 20 implies tells(
        m,
        (#[trigger] e[k]).type_code,
        e[k].count as nat,
        e[k].offset,
    ) by {
        if e[k].count > 0 {
            assert(m.contains(entry_of(e[k])));
        }
    }
    reveal(extents);
    assert(dex.strings@.len() == dex.strings.len());
    assert(dex.type_descriptors@.len() == dex.type_descriptors.len());
    assert(dex.protos@.len() == dex.protos.len());
    assert(dex.fields@.len() == dex.fields.len());
    assert(dex.methods@.len() == dex.methods.len());
    assert(dex.class_defs@.len() == dex.class_defs.len());
    assert(dex.call_site_ids@.len() == dex.call_site_ids.len());
    assert(dex.method_handles@.len() == dex.method_handles.len());
    assert(tells(m, e[0].type_code, e[0].count as nat, e[0].offset));
    assert(tells(m, e[1].type_code, e[1].count as nat, e[1].offset));
    assert(tells(m, e[2].type_code, e[2].count as nat, e[2].offset));
    assert(tells(m, e[3].type_code, e[3].count as nat, e[3].offset));
    assert(tells(m, e[4].type_code, e[4].count as nat, e[4].offset));
    assert(tells(m, e[5].type_code, e[5].count as nat, e[5].offset));
    assert(tells(m, e[6].type_code, e[6].count as nat, e[6].offset));
    assert(tells(m, e[7].type_code, e[7].count as nat, e[7].offset));
    assert(tells(m, e[8].type_code, e[8].count as nat, e[8].offset));
    assert(tells(m, e[9].type_code, e[9].count as nat, e[9].offset));
    assert(tells(m, e[10].type_code, e[10].count as nat, e[10].offset));
    assert(tells(m, e[11].type_code, e[11].count as nat, e[11].offset));
    assert(tells(m, e[12].type_code, e[12].count as nat, e[12].offset));
    assert(tells(m, e[13].type_code, e[13].count as nat, e[13].offset));
    assert(tells(m, e[14].type_code, e[14].count as nat, e[14].offset));
    assert(tells(m, e[15].type_code, e[15].count as nat, e[15].offset));
    assert(tells(m, e[16].type_code, e[16].count as nat, e[16].offset));
    assert(tells(m, e[17].type_code, e[17].count as nat, e[17].offset));
    assert(tells(m, e[18].type_code, e[18].count as nat, e[18].offset));
    assert(tells(m, e[19].type_code, e[19].count as nat, e[19].offset));
}

// What was lost

/// Something was lost: an item of a kind that was to be read is not there.
pub open spec fn lost(f: ParseFailure) -> bool {
    f.kind is TypeList || f.kind is ClassData || f.kind is CodeItem || f.kind is DebugInfo || f.kind
        is Annotation || f.kind is EncodedArray
}

/// The failure at `i` is the first that lost something.
pub open spec fn first_lost(failures: Seq<ParseFailure>, i: int) -> bool {
    &&& 0 <= i < failures.len()
    &&& lost(failures[i])
    &&& forall|j: int| 0 <= j < i ==> !lost(#[trigger] failures[j])
}

proof fn lemma_first_loss(failures: Seq<ParseFailure>, i: nat)
    requires
        i <= failures.len(),
        forall|j: int| 0 <= j < i ==> !lost(#[trigger] failures[j]),
    ensures
        match first_loss(failures, i) {
            Some(f) => exists|k: int| #[trigger] first_lost(failures, k) && failures[k] == f,
            None => forall|k: int| 0 <= k < failures.len() ==> !lost(#[trigger] failures[k]),
        },
    decreases failures.len() - i,
{
    if i < failures.len() {
        if lost(failures[i as int]) {
            assert(first_lost(failures, i as int));
        } else {
            lemma_first_loss(failures, i + 1);
        }
    }
}

proof fn lemma_losses(failures: Seq<ParseFailure>, n: nat)
    requires
        n <= failures.len(),
    ensures
        losses(failures, n) == failures.take(n as int).filter(|f: ParseFailure| lost(f)).len(),
    decreases n,
{
    let p = |f: ParseFailure| lost(f);
    if n > 0 {
        lemma_losses(failures, (n - 1) as nat);
        let s = failures.take(n as int);
        assert(s.drop_last() =~= failures.take(n - 1));
        assert(s.last() == failures[n - 1]);
        reveal(Seq::filter);
    } else {
        assert(failures.take(0) =~= Seq::empty());
        reveal(Seq::filter);
    }
}

/// A file of which something was lost is complained about: how many items were lost, and which
/// was the first. Failures that lost nothing do not count.
pub proof fn losses_are_counted(failures: Seq<ParseFailure>)
    requires
        failures.len() <= usize::MAX,
    ensures
        partial(failures) is Some <==> exists|k: int| #[trigger] first_lost(failures, k),
        forall|k: int| #[trigger]
            first_lost(failures, k) ==> (partial(failures) matches Some(DexEmitError::PartialIR {
                count,
                first_kind,
                first_offset,
            }) && count == failures.filter(|f: ParseFailure| lost(f)).len() && first_kind
                == failures[k].kind && first_offset == failures[k].offset),
{
    let p = |f: ParseFailure| lost(f);
    lemma_first_loss(failures, 0);
    lemma_losses(failures, failures.len());
    assert(failures.take(failures.len() as int) =~= failures);
    failures.lemma_filter_len(p);
    assert forall|k: int| #[trigger] first_lost(failures, k) implies first_loss(failures, 0)
        == Some(failures[k]) by {
        match first_loss(failures, 0) {
            Some(f) => {
                let l = choose|l: int| #[trigger] first_lost(failures, l) && failures[l] == f;
                if l < k {
                    assert(!lost(failures[l]));
                }
                if k < l {
                    assert(!lost(failures[k]));
                }
            },
            None => {
                assert(!lost(failures[k]));
            },
        }
    }
}

// Sections of the file read

/// The first region starts at `base`, each other where the one before ends, none is empty, and
/// the last ends at `end`.
pub open spec fn end_to_end(regions: Seq<SectionRegion>, base: u32, end: u32) -> bool {
    &&& regions.len() > 0
    &&& regions[0].from() == base
    &&& regions.last().to() == end
    &&& forall|i: int| 0 <= i < regions.len() ==> (#[trigger] regions[i]).from() < regions[i].to()
    &&& forall|i: int|
        #![trigger regions[i]]
        0 < i < regions.len() ==> regions[i - 1].to() == regions[i].from()
}

proof fn lemma_tiled(regions: Seq<SectionRegion>, base: u32, end: u32)
    requires
        regions.len() > 0,
        tiles(regions, base, end),
    ensures
        end_to_end(regions, base, end),
    decreases regions.len(),
{
    reveal_with_fuel(tiles, 2);
    let last = regions.last();
    let front = regions.drop_last();
    let n = front.len() as int;
    if n > 0 {
        lemma_tiled(front, base, last.from());
        assert(regions[0] == front[0]);
        assert(front.last() == regions[n - 1]);
    }
    assert forall|i: int| 0 <= i < regions.len() implies (#[trigger] regions[i]).from()
        < regions[i].to() by {
        if i < n {
            assert(front[i].from() < front[i].to());
        }
    }
    assert forall|i: int|
        #![trigger regions[i]]
        0 < i < regions.len() implies regions[i - 1].to() == regions[i].from() by {
        if i < n {
            assert(front[i - 1].to() == front[i].from());
        }
    }
}

proof fn lemma_tiles(regions: Seq<SectionRegion>, base: u32, end: u32)
    requires
        end_to_end(regions, base, end),
    ensures
        tiles(regions, base, end),
    decreases regions.len(),
{
    reveal_with_fuel(tiles, 2);
    let last = regions.last();
    let front = regions.drop_last();
    let n = front.len() as int;
    assert(regions[n].from() < regions[n].to());
    if n > 0 {
        assert(regions[n - 1].to() == regions[n].from());
        assert forall|i: int| 0 <= i < front.len() implies (#[trigger] front[i]).from()
            < front[i].to() by {
            assert(regions[i].from() < regions[i].to());
        }
        assert forall|i: int|
            #![trigger front[i]]
            0 < i < front.len() implies front[i - 1].to() == front[i].from() by {
            assert(regions[i - 1].to() == regions[i].from());
        }
        lemma_tiles(front, base, last.from());
    }
}

/// The regions of a section cover it where they lie end to end from its start to its end.
pub proof fn regions_lie_end_to_end(regions: Seq<SectionRegion>, base: u32, end: u32)
    ensures
        regions.len() == 0 ==> (tiles(regions, base, end) <==> base == end),
        regions.len() > 0 ==> (tiles(regions, base, end) <==> end_to_end(regions, base, end)),
{
    if regions.len() > 0 {
        if tiles(regions, base, end) {
            lemma_tiled(regions, base, end);
        }
        if end_to_end(regions, base, end) {
            lemma_tiles(regions, base, end);
        }
    }
}

proof fn lemma_next_start(list: Seq<MapEntry>, base: u32, n: nat)
    requires
        n <= list.len(),
    ensures
        match next_start(list, base, n) {
            Some(o) => o > base && (exists|i: int| 0 <= i < n && (#[trigger] list[i]).offset == o)
                && forall|i: int|
                0 <= i < n && (#[trigger] list[i]).offset > base ==> o <= list[i].offset,
            None => forall|i: int| 0 <= i < n ==> (#[trigger] list[i]).offset <= base,
        },
    decreases n,
{
    if n > 0 {
        lemma_next_start(list, base, (n - 1) as nat);
        let last = list[n - 1];
        match next_start(list, base, (n - 1) as nat) {
            Some(o) => {
                let i = choose|i: int| 0 <= i < n - 1 && (#[trigger] list[i]).offset == o;
                assert(list[i].offset == o);
            },
            None => {},
        }
    }
}

/// A section of the file read goes on to the nearest section that starts behind its start, or
/// to the end of the file where there is none.
pub proof fn sections_end_where_the_next_starts(list: Seq<MapEntry>, base: u32, file_size: u32)
    ensures
        (forall|i: int| 0 <= i < list.len() ==> (#[trigger] list[i]).offset <= base) ==> room_after(
            list,
            base,
            file_size,
        ) == if file_size >= base {
            file_size - base
        } else {
            0
        },
        forall|i: int|
            0 <= i < list.len() && (#[trigger] list[i]).offset > base ==> 0 < room_after(
                list,
                base,
                file_size,
            ) <= list[i].offset - base,
        (exists|i: int| 0 <= i < list.len() && (#[trigger] list[i]).offset > base) ==> exists|i: int|
            0 <= i < list.len() && (#[trigger] list[i]).offset == base + room_after(
                list,
                base,
                file_size,
            ),
{
    lemma_next_start(list, base, list.len());
}

/// In a file whose layout is kept the header has the data where the file read has it, as far as
/// that is within the file; otherwise the data goes from the id pools to the end.
pub proof fn the_data_stays_where_it_fits(dex: DexFile, data_off: u32, file_size: u32)
    requires
        data_off <= file_size,
        dex.header.data_off + dex.header.data_size <= u32::MAX,
    ensures
        ({
            let (off, size) = data_extent(dex, data_off, file_size);
            if dex.header.data_off > 0 && dex.header.data_off + dex.header.data_size <= file_size {
                off == dex.header.data_off && size == dex.header.data_size
            } else {
                off == data_off && off + size == file_size
            }
        }),
{
}

} // verus!
