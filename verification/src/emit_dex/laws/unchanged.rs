//! A file that comes out as it was read is not reported as changed.
use vstd::prelude::*;

use crate::collections::{ascending, lemma_ascending_unique};
use crate::dex_file::{DexFile, MapEntry};
use crate::emit_dex::map_type;
use crate::emit_dex::assembly::{
    canonical_file, data_bases, file_map, joined, layout_reports, map_report, Bases,
};
use crate::emit_dex::canonical::{data, padding_reports};
use crate::emit_dex::config::{padding_report, AlignmentSection, EmitConfig};
use crate::emit_dex::emit::{content_reports, emitted_file};
use crate::emit_dex::laws::file::{canonical_parts, canonical_steps};
use crate::emit_dex::laws::kept::{all_apart, file_parts, kept_map_reads_back, kept_steps};
use crate::emit_dex::laws::map::{
    common_codes_are_kept, data_entries_give_the_places, the_map_lists_every_section_once,
};
use crate::emit_dex::laws::preserve::kept_parts;
use crate::emit_dex::laws::round_trip::canonical_map_reads_back;
use crate::emit_dex::laws::says::map_read;
use crate::emit_dex::layout::PoolPlaces;
use crate::emit_dex::map_list::{
    as_items, by_offset, by_offset_is_a_stable_sort, codes, data_order, data_reordered, kept,
    section_start, MapItem,
};
use crate::emit_dex::preserve::{all_placed, preserved_file};
use crate::emit_dex::widths::width_divergences;

verus! {

/// The position of a kind of section in the order in which data sections are laid out.
spec fn turn(code: u16) -> u32 {
    if code == map_type::STRING_DATA_ITEM {
        0
    } else if code == map_type::CODE_ITEM {
        1
    } else if code == map_type::DEBUG_INFO_ITEM {
        2
    } else if code == map_type::CLASS_DATA_ITEM {
        3
    } else if code == map_type::ANNOTATION_ITEM {
        4
    } else if code == map_type::ANNOTATION_SET_ITEM {
        5
    } else if code == map_type::ANNOTATION_SET_REF_LIST {
        6
    } else if code == map_type::ANNOTATION_DIRECTORY_ITEM {
        7
    } else if code == map_type::ENCODED_ARRAY_ITEM {
        8
    } else if code == map_type::TYPE_LIST {
        9
    } else {
        10
    }
}

spec fn turns(s: Seq<u16>) -> Seq<u32> {
    s.map_values(|code: u16| turn(code))
}

proof fn lemma_turns(i: int)
    requires
        0 <= i < data_order().len(),
    ensures
        turn(data_order()[i]) == i,
{
    assert(i == 0 || i == 1 || i == 2 || i == 3 || i == 4 || i == 5 || i == 6 || i == 7 || i == 8
        || i == 9 || i == 10);
}

proof fn lemma_same_turn(x: u16, y: u16)
    requires
        data_order().contains(x),
        data_order().contains(y),
        turn(x) == turn(y),
    ensures
        x == y,
{
    let d = data_order();
    let i = choose|i: int| 0 <= i < d.len() && d[i] == x;
    let j = choose|j: int| 0 <= j < d.len() && d[j] == y;
    lemma_turns(i);
    lemma_turns(j);
}

/// The codes of `a` that `b` has come by ascending turns.
spec fn in_turn(a: Seq<u16>, b: Seq<u16>) -> bool {
    forall|i: int, j: int|
        0 <= i < j < a.len() && b.contains(#[trigger] a[i]) && b.contains(#[trigger] a[j])
            ==> turn(a[i]) < turn(a[j])
}

proof fn lemma_kept_in_turn(a: Seq<u16>, b: Seq<u16>)
    requires
        in_turn(a, b),
    ensures
        ascending(turns(kept(a, b))),
    decreases a.len(),
{
    if a.len() > 0 {
        let before = a.drop_last();
        let front = kept(before, b);
        assert(in_turn(before, b)) by {
            assert forall|i: int, j: int|
                0 <= i < j < before.len() && b.contains(#[trigger] before[i]) && b.contains(
                    #[trigger] before[j],
                ) implies turn(before[i]) < turn(before[j]) by {
                assert(before[i] == a[i] && before[j] == a[j]);
            }
        }
        lemma_kept_in_turn(before, b);
        if b.contains(a.last()) {
            let all = front.push(a.last());
            assert forall|i: int, j: int| 0 <= i < j < all.len() implies turns(all)[i] < turns(
                all,
            )[j] by {
                if j < front.len() {
                    assert(turns(front)[i] < turns(front)[j]);
                } else {
                    let x = front[i];
                    assert(front.contains(x));
                    common_codes_are_kept(before, b, x);
                    let k = choose|k: int| 0 <= k < before.len() && before[k] == x;
                    assert(a[k] == x);
                    assert(a[a.len() - 1] == a.last());
                }
            }
        }
    }
}

proof fn lemma_in_turn(a: Seq<u16>)
    requires
        in_turn(a, data_order()),
    ensures
        kept(a, data_order()) == kept(data_order(), a),
{
    let d = data_order();
    let s = kept(a, d);
    let t = kept(d, a);
    assert(in_turn(d, a)) by {
        assert forall|i: int, j: int|
            0 <= i < j < d.len() && a.contains(#[trigger] d[i]) && a.contains(
                #[trigger] d[j],
            ) implies turn(d[i]) < turn(d[j]) by {
            lemma_turns(i);
            lemma_turns(j);
        }
    }
    lemma_kept_in_turn(a, d);
    lemma_kept_in_turn(d, a);
    assert forall|x: u16| s.contains(x) == t.contains(x) by {
        common_codes_are_kept(a, d, x);
        common_codes_are_kept(d, a, x);
    }
    assert(turns(s).to_set() =~= turns(t).to_set()) by {
        assert forall|n: u32| turns(s).contains(n) == turns(t).contains(n) by {
            if turns(s).contains(n) {
                let k = choose|k: int| 0 <= k < s.len() && turns(s)[k] == n;
                assert(s.contains(s[k]));
                let l = choose|l: int| 0 <= l < t.len() && t[l] == s[k];
                assert(turns(t)[l] == n);
            }
            if turns(t).contains(n) {
                let k = choose|k: int| 0 <= k < t.len() && turns(t)[k] == n;
                assert(t.contains(t[k]));
                let l = choose|l: int| 0 <= l < s.len() && s[l] == t[k];
                assert(turns(s)[l] == n);
            }
        }
    }
    lemma_ascending_unique(turns(s), turns(t));
    assert(s.len() == turns(s).len() && t.len() == turns(t).len());
    assert forall|k: int| 0 <= k < s.len() implies s[k] == t[k] by {
        assert(turns(s)[k] == turns(t)[k]);
        assert(s.contains(s[k]) && t.contains(t[k]));
        common_codes_are_kept(a, d, s[k]);
        common_codes_are_kept(d, a, t[k]);
        lemma_same_turn(s[k], t[k]);
    }
    assert(s =~= t);
}

/// The place of a data section, by its kind.
spec fn place_of(b: Bases, code: u16) -> u32 {
    if code == map_type::STRING_DATA_ITEM {
        b.string_data
    } else if code == map_type::CODE_ITEM {
        b.code_item
    } else if code == map_type::DEBUG_INFO_ITEM {
        b.debug_info
    } else if code == map_type::CLASS_DATA_ITEM {
        b.class_data
    } else if code == map_type::ANNOTATION_ITEM {
        b.annotation_item
    } else if code == map_type::ANNOTATION_SET_ITEM {
        b.annotation_set
    } else if code == map_type::ANNOTATION_SET_REF_LIST {
        b.annotation_set_ref_list
    } else if code == map_type::ANNOTATION_DIRECTORY_ITEM {
        b.annotation_directory
    } else if code == map_type::ENCODED_ARRAY_ITEM {
        b.encoded_array
    } else if code == map_type::TYPE_LIST {
        b.type_list
    } else {
        b.map_list
    }
}

/// The data sections come one after the other.
spec fn sections_follow(b: Bases) -> bool {
    &&& b.string_data <= b.code_item
    &&& b.code_item <= b.debug_info
    &&& b.debug_info <= b.class_data
    &&& b.class_data <= b.annotation_item
    &&& b.annotation_item <= b.annotation_set
    &&& b.annotation_set <= b.annotation_set_ref_list
    &&& b.annotation_set_ref_list <= b.annotation_directory
    &&& b.annotation_directory <= b.encoded_array
    &&& b.encoded_array <= b.type_list
    &&& b.type_list <= b.map_list
}

proof fn lemma_sections_follow(dex: DexFile, config: EmitConfig)
    requires
        canonical_file(dex, config) is Ok,
    ensures
        ({
            let c = canonical_parts(dex, config);
            sections_follow(data_bases(c.data, c.places.data_off))
        }),
{
    canonical_steps(dex, config);
    reveal(data);
}

proof fn lemma_place_order(b: Bases, x: u16, y: u16)
    requires
        sections_follow(b),
        data_order().contains(x),
        data_order().contains(y),
        turn(x) <= turn(y),
    ensures
        place_of(b, x) <= place_of(b, y),
{
    let d = data_order();
    let i = choose|i: int| 0 <= i < d.len() && d[i] == x;
    let j = choose|j: int| 0 <= j < d.len() && d[j] == y;
    lemma_turns(i);
    lemma_turns(j);
    lemma_place_at(b, i);
    lemma_place_at(b, j);
}

/// The places of the data sections, in the order in which they are laid out.
spec fn places(b: Bases) -> Seq<u32> {
    seq![
        b.string_data,
        b.code_item,
        b.debug_info,
        b.class_data,
        b.annotation_item,
        b.annotation_set,
        b.annotation_set_ref_list,
        b.annotation_directory,
        b.encoded_array,
        b.type_list,
        b.map_list,
    ]
}

proof fn lemma_place_at(b: Bases, i: int)
    requires
        sections_follow(b),
        0 <= i < data_order().len(),
    ensures
        place_of(b, data_order()[i]) == places(b)[i],
        forall|j: int| 0 <= j <= i ==> #[trigger] places(b)[j] <= places(b)[i],
        forall|j: int| i <= j < 11 ==> places(b)[i] <= #[trigger] places(b)[j],
{
    assert(i == 0 || i == 1 || i == 2 || i == 3 || i == 4 || i == 5 || i == 6 || i == 7 || i == 8
        || i == 9 || i == 10);
    assert forall|j: int| 0 <= j <= i implies #[trigger] places(b)[j] <= places(b)[i] by {
        assert(j == 0 || j == 1 || j == 2 || j == 3 || j == 4 || j == 5 || j == 6 || j == 7 || j
            == 8 || j == 9 || j == 10);
    }
    assert forall|j: int| i <= j < 11 implies places(b)[i] <= #[trigger] places(b)[j] by {
        assert(j == 0 || j == 1 || j == 2 || j == 3 || j == 4 || j == 5 || j == 6 || j == 7 || j
            == 8 || j == 9 || j == 10);
    }
}

/// No two entries start at the same place.
pub open spec fn starts_differ(list: Seq<MapEntry>) -> bool {
    forall|i: int, j: int| 0 <= i < j < list.len() ==> list[i].offset != list[j].offset
}

proof fn lemma_listed_place(
    dex: DexFile,
    config: EmitConfig,
    p: PoolPlaces,
    b: Bases,
    m: MapItem,
)
    requires
        file_map(dex, config, p, b).contains(m),
        data_order().contains(m.type_code),
    ensures
        m.offset == place_of(b, m.type_code),
{
    let d = data_order();
    data_entries_give_the_places(dex, config, p, b, m);
    let i = choose|i: int| 0 <= i < d.len() && d[i] == m.type_code;
    lemma_turns(i);
}

proof fn lemma_not_reordered(dex: DexFile, config: EmitConfig, p: PoolPlaces, b: Bases)
    requires
        as_items(dex.map_entries@) == file_map(dex, config, p, b),
        starts_differ(dex.map_entries@),
        sections_follow(b),
    ensures
        !data_reordered(dex.map_entries@),
{
    let d = data_order();
    let items = as_items(dex.map_entries@);
    let sorted = by_offset(items);
    let a = codes(sorted);
    by_offset_is_a_stable_sort(items);
    the_map_lists_every_section_once(dex, config, p, b);
    items.to_multiset_ensures();
    sorted.to_multiset_ensures();
    assert forall|m: MapItem| #[trigger] sorted.contains(m) implies items.contains(m) by {
        assert(items.to_multiset().count(m) > 0);
    }
    items.lemma_multiset_has_no_duplicates();
    sorted.lemma_multiset_has_no_duplicates_conv();
    assert forall|i: int, j: int|
        0 <= i < j < a.len() && d.contains(#[trigger] a[i]) && d.contains(
            #[trigger] a[j],
        ) implies turn(a[i]) < turn(a[j]) by {
        let m = sorted[i];
        let n = sorted[j];
        assert(sorted.contains(m) && sorted.contains(n));
        let x = choose|x: int| 0 <= x < items.len() && items[x] == m;
        let y = choose|y: int| 0 <= y < items.len() && items[y] == n;
        assert(m != n);
        assert(x != y);
        assert(dex.map_entries@[x].offset == m.offset && dex.map_entries@[y].offset == n.offset);
        assert(m.offset != n.offset);
        lemma_listed_place(dex, config, p, b, m);
        lemma_listed_place(dex, config, p, b, n);
        if turn(a[j]) <= turn(a[i]) {
            lemma_place_order(b, a[j], a[i]);
        }
    }
    lemma_in_turn(a);
}

proof fn lemma_start(list: Seq<MapEntry>, code: u16, i: nat)
    ensures
        section_start(list, code, i) matches Some(o) ==> exists|j: int|
            i <= j < list.len() && (#[trigger] list[j]).type_code == code && list[j].offset == o,
    decreases list.len() - i,
{
    if i < list.len() {
        if list[i as int].type_code != code {
            lemma_start(list, code, i + 1);
        }
    }
}

proof fn lemma_not_padded(
    dex: DexFile,
    config: EmitConfig,
    p: PoolPlaces,
    b: Bases,
    section: AlignmentSection,
    off: u32,
)
    requires
        as_items(dex.map_entries@) == file_map(dex, config, p, b),
        data_order().contains(section.code()),
    ensures
        padding_report(dex, section, off, place_of(b, section.code())).len() == 0,
{
    let list = dex.map_entries@;
    let code = section.code();
    lemma_start(list, code, 0);
    if let Some(o) = section_start(list, code, 0) {
        let j = choose|j: int|
            0 <= j < list.len() && (#[trigger] list[j]).type_code == code && list[j].offset == o;
        let m = as_items(list)[j];
        assert(file_map(dex, config, p, b).contains(m));
        lemma_listed_place(dex, config, p, b, m);
    }
}

/// A file in the canonical layout whose map list is the one that was read is laid out as
/// it was: nothing about its layout is reported.
pub proof fn an_unchanged_layout_is_not_reported(dex: DexFile, config: EmitConfig)
    requires
        canonical_file(dex, config) is Ok,
        map_read(canonical_file(dex, config)->Ok_0.bytes) == as_items(dex.map_entries@),
        starts_differ(dex.map_entries@),
    ensures
        canonical_file(dex, config)->Ok_0.reports.len() == 0,
{
    let c = canonical_parts(dex, config);
    let p = c.places;
    let d = c.data;
    let b = data_bases(d, p.data_off);
    let o = data_order();
    canonical_map_reads_back(dex, config);
    lemma_sections_follow(dex, config);
    lemma_not_reordered(dex, config, p, b);
    assert(o[1] == map_type::CODE_ITEM && o[5] == map_type::ANNOTATION_SET_ITEM && o[6]
        == map_type::ANNOTATION_SET_REF_LIST && o[7] == map_type::ANNOTATION_DIRECTORY_ITEM && o[9]
        == map_type::TYPE_LIST && o[10] == map_type::MAP_LIST);
    lemma_not_padded(dex, config, p, b, AlignmentSection::CodeItem, d.string_end);
    lemma_not_padded(dex, config, p, b, AlignmentSection::AnnotationSet, d.notes.item_end);
    lemma_not_padded(dex, config, p, b, AlignmentSection::AnnotationSetRefList, d.notes.set_end);
    lemma_not_padded(dex, config, p, b, AlignmentSection::AnnotationDirectory, d.notes.ref_end);
    lemma_not_padded(dex, config, p, b, AlignmentSection::TypeList, d.tail.array_end);
    lemma_not_padded(dex, config, p, b, AlignmentSection::MapList, d.tail.list_end);
    assert(padding_reports(dex, d).len() == 0);
    assert(layout_reports(dex, config, p, d).len() == 0) by {
        reveal(layout_reports);
    }
    canonical_steps(dex, config);
    reveal(joined);
}

/// A file that comes out as it was read is not reported as changed: its map list is the one
/// that was read, no number in its arrays was read at more than its least width, and its
/// checksums were right.
pub proof fn an_unchanged_file_is_not_reported(dex: DexFile, config: EmitConfig)
    requires
        emitted_file(dex, config) is Ok,
        !config.preserve_data_section_layout,
        map_read(emitted_file(dex, config)->Ok_0.bytes) == as_items(dex.map_entries@),
        starts_differ(dex.map_entries@),
        config.preserve_encoded_value_width || width_divergences(dex) == 0,
        config.preserve_input_checksums || dex.input_checksums_canonical,
    ensures
        emitted_file(dex, config)->Ok_0.reports.len() == 0,
{
    an_unchanged_layout_is_not_reported(dex, config);
    let f = canonical_file(dex, config)->Ok_0;
    assert(f.reports + content_reports(dex, config) =~= Seq::empty());
}

/// A file whose layout and whose order of the map list are kept has nothing reported about
/// either: where no width is lost and its checksums were right, nothing is reported at all.
pub proof fn a_kept_file_is_not_reported(dex: DexFile, config: EmitConfig)
    requires
        emitted_file(dex, config) is Ok,
        config.preserve_data_section_layout,
        config.preserve_map_list_order,
        all_placed(dex),
        config.preserve_encoded_value_width || width_divergences(dex) == 0,
        config.preserve_input_checksums || dex.input_checksums_canonical,
    ensures
        emitted_file(dex, config)->Ok_0.reports.len() == 0,
{
    let f = preserved_file(dex, config)->Ok_0;
    assert(f.reports + content_reports(dex, config) =~= Seq::empty());
}

/// A file whose layout is kept and whose map list comes out as it was read has nothing
/// reported about either: where no width is lost and its checksums were right, nothing is
/// reported at all. Its parts are apart.
pub proof fn an_unchanged_kept_file_is_not_reported(dex: DexFile, config: EmitConfig)
    requires
        emitted_file(dex, config) is Ok,
        config.preserve_data_section_layout,
        all_placed(dex),
        all_apart(file_parts(dex, kept_parts(dex, config))),
        map_read(emitted_file(dex, config)->Ok_0.bytes) == as_items(dex.map_entries@),
        config.preserve_encoded_value_width || width_divergences(dex) == 0,
        config.preserve_input_checksums || dex.input_checksums_canonical,
    ensures
        emitted_file(dex, config)->Ok_0.reports.len() == 0,
{
    let c = kept_parts(dex, config);
    let f = preserved_file(dex, config)->Ok_0;
    kept_map_reads_back(dex, config);
    kept_steps(dex, config);
    let items = file_map(dex, config, c.places, c.bases);
    assert(items == as_items(dex.map_entries@));
    assert(map_report(dex, config, items) =~= Seq::empty());
    assert(f.reports == map_report(dex, config, items));
    assert(f.reports + content_reports(dex, config) =~= Seq::empty());
}

} // verus!
