//! When the layout of a file is kept, told by what the file holds and what its map list
//! lists.
use vstd::prelude::*;

use crate::bytes::{le32, le32_reads_back, overlay, read_le32, zeros};
use crate::collections::{sorted_keys, sorted_keys_list};
use crate::dex_file::DexFile;
use crate::emit_dex::assembly::sealed;
use crate::emit_dex::canonical::stored;
use crate::emit_dex::config::EmitConfig;
use crate::emit_dex::directory::Moved;
use crate::emit_dex::emit::{emitted_bytes, emitted_file};
use crate::emit_dex::error::DexEmitError;
use crate::emit_dex::in_place::{
    annotation_directories_kept_parts, annotation_items_kept_parts,
    annotation_set_ref_lists_kept_parts, annotation_sets_kept_parts, class_datas_kept_parts,
    code_items_kept_parts, debug_infos_kept_parts, in_place,
};
use crate::emit_dex::laws::kept::{
    all_apart, all_stand, file_parts, kept_parts_stand, kept_places, kept_steps,
};
use crate::emit_dex::laws::place::holds_at;
use crate::emit_dex::laws::preserve::{
    kept_file_is_its_parts, kept_parts, no_items_no_keys, offsets_into_a_kept_section_stay,
    sections_stay_where_the_map_has_them,
};
use crate::emit_dex::laws::reports::{
    what_is_kept_is_not_reported, without_places_the_file_is_laid_out_anew,
};
use crate::emit_dex::map_list::section_start;
use crate::emit_dex::pools::{string_item, strings_placed, StringPool};
use crate::emit_dex::preserve::{
    all_placed, bases, branches, final_string_ids, kept_items, leaves, place, preserved_file,
    string_pool,
};
use crate::emit_dex::widths::{annotation_written, body_deep};
use crate::emit_dex::written::done;

verus! {

/// The map list of the file read has an entry of the kind `code`.
pub open spec fn listed(dex: DexFile, code: u16) -> bool {
    exists|i: int|
        0 <= i < dex.map_entries@.len() && (#[trigger] dex.map_entries@[i]).type_code == code
}

/// The first entry of the kind `code` in the map list of the file read has its section at
/// `off`.
pub open spec fn listed_at(dex: DexFile, code: u16, off: u32) -> bool {
    exists|i: int|
        0 <= i < dex.map_entries@.len() && (#[trigger] dex.map_entries@[i]).type_code == code
            && dex.map_entries@[i].offset == off && forall|j: int|
            0 <= j < i ==> (#[trigger] dex.map_entries@[j]).type_code != code
}

/// The map list of the file read lists itself and, for each kind of data of which the file
/// holds an item, the section of that kind.
pub open spec fn lists_what_is_there(dex: DexFile) -> bool {
    &&& listed(dex, 0x1000)
    &&& dex.strings@.len() > 0 ==> listed(dex, 0x2002)
    &&& dex.type_lists@.len() > 0 ==> listed(dex, 0x1001)
    &&& dex.code_items@.len() > 0 ==> listed(dex, 0x2001)
    &&& dex.debug_info_raw_bytes@.len() > 0 ==> listed(dex, 0x2003)
    &&& dex.class_datas@.len() > 0 ==> listed(dex, 0x2000)
    &&& dex.annotation_items@.len() > 0 ==> listed(dex, 0x2004)
    &&& dex.annotation_sets@.len() > 0 ==> listed(dex, 0x1003)
    &&& dex.annotation_set_ref_lists@.len() > 0 ==> listed(dex, 0x1002)
    &&& dex.annotations@.len() > 0 ==> listed(dex, 0x2006)
    &&& dex.encoded_arrays@.len() > 0 ==> listed(dex, 0x2005)
}

proof fn lemma_start(dex: DexFile, code: u16, i: nat)
    requires
        i <= dex.map_entries@.len(),
        forall|j: int| 0 <= j < i ==> (#[trigger] dex.map_entries@[j]).type_code != code,
    ensures
        match section_start(dex.map_entries@, code, i) {
            Some(off) => listed(dex, code) && listed_at(dex, code, off),
            None => !listed(dex, code),
        },
    decreases dex.map_entries@.len() - i,
{
    if i < dex.map_entries@.len() {
        let e = dex.map_entries@[i as int];
        if e.type_code != code {
            lemma_start(dex, code, i + 1);
        }
    }
}

/// A section starts where the first entry of its kind says, if there is one.
pub proof fn section_starts_are_listed(dex: DexFile, code: u16)
    ensures
        section_start(dex.map_entries@, code, 0) is Some <==> listed(dex, code),
        forall|off: u32| #[trigger]
            listed_at(dex, code, off) <==> section_start(dex.map_entries@, code, 0) == Some(off),
{
    lemma_start(dex, code, 0);
    assert forall|off: u32| #[trigger] listed_at(dex, code, off) implies section_start(
        dex.map_entries@,
        code,
        0,
    ) == Some(off) by {
        let list = dex.map_entries@;
        let i = choose|i: int|
            0 <= i < list.len() && (#[trigger] list[i]).type_code == code && list[i].offset == off
                && forall|j: int| 0 <= j < i ==> (#[trigger] list[j]).type_code != code;
        let other = section_start(list, code, 0)->0;
        let k = choose|k: int|
            0 <= k < list.len() && (#[trigger] list[k]).type_code == code && list[k].offset == other
                && forall|j: int| 0 <= j < k ==> (#[trigger] list[j]).type_code != code;
        if i < k {
            assert(list[i].type_code != code);
        } else if k < i {
            assert(list[k].type_code != code);
        }
    }
}

/// The file can be laid out as its map list has it where that list lists what is there.
pub proof fn map_lists_tell_what_is_there(dex: DexFile)
    ensures
        all_placed(dex) <==> lists_what_is_there(dex),
{
    section_starts_are_listed(dex, 0x1000);
    section_starts_are_listed(dex, 0x1001);
    section_starts_are_listed(dex, 0x1002);
    section_starts_are_listed(dex, 0x1003);
    section_starts_are_listed(dex, 0x2000);
    section_starts_are_listed(dex, 0x2001);
    section_starts_are_listed(dex, 0x2002);
    section_starts_are_listed(dex, 0x2003);
    section_starts_are_listed(dex, 0x2004);
    section_starts_are_listed(dex, 0x2005);
    section_starts_are_listed(dex, 0x2006);
}

/// Where the layout is to be kept and the map list of the file read lists what is there, each
/// section that is not empty goes where that list has it, and nothing is reported about the
/// order of the sections or the space between them. Where the parts of the file are apart,
/// each of them stands at its place.
pub proof fn a_listed_layout_is_kept(dex: DexFile, config: EmitConfig)
    requires
        config.preserve_data_section_layout,
        lists_what_is_there(dex),
        emitted_file(dex, config) is Ok,
    ensures
        ({
            let c = kept_parts(dex, config);
            let out = emitted_file(dex, config)->Ok_0;
            &&& c.unsealed(dex) is Ok
            &&& out.bytes == sealed(dex, config, c.unsealed(dex)->Ok_0)
            &&& listed_at(dex, 0x1000, c.bases.map_list)
            &&& c.pools.string_data.len() > 0 && dex.strings@.len() > 0 ==> listed_at(
                dex,
                0x2002,
                c.bases.string_data,
            )
            &&& c.leaves.lists.blob.len() > 0 ==> listed_at(dex, 0x1001, c.bases.type_list)
            &&& c.leaves.code.blob.len() > 0 ==> listed_at(dex, 0x2001, c.bases.code_item)
            &&& c.leaves.debug.blob.len() > 0 ==> listed_at(dex, 0x2003, c.bases.debug_info)
            &&& c.leaves.items.blob.len() > 0 ==> listed_at(dex, 0x2004, c.bases.annotation_item)
            &&& c.leaves.arrays.blob.len() > 0 ==> listed_at(dex, 0x2005, c.bases.encoded_array)
            &&& dex.class_datas@.len() > 0 ==> listed_at(dex, 0x2000, c.bases.class_data)
            &&& dex.annotation_sets@.len() > 0 ==> listed_at(dex, 0x1003, c.bases.annotation_set)
            &&& dex.annotation_set_ref_lists@.len() > 0 ==> listed_at(
                dex,
                0x1002,
                c.bases.annotation_set_ref_list,
            )
            &&& dex.annotations@.len() > 0 ==> listed_at(
                dex,
                0x2006,
                c.bases.annotation_directory,
            )
            &&& forall|i: int|
                0 <= i < out.reports.len() ==> !((#[trigger] out.reports[i])
                    is DataSectionLayoutReordered) && !(out.reports[i] is AlignmentPaddingInserted)
            &&& all_apart(file_parts(dex, c)) ==> {
                &&& all_stand(out.bytes, c.sections())
                &&& all_stand(out.bytes, c.pools_placed(dex))
                &&& holds_at(out.bytes, c.bases.map_list as int, c.map)
            }
        }),
{
    let c = kept_parts(dex, config);
    let out = emitted_file(dex, config)->Ok_0;
    map_lists_tell_what_is_there(dex);
    kept_file_is_its_parts(dex, config);
    sections_stay_where_the_map_has_them(
        dex,
        c.leaves,
        c.pools.string_data.len() > 0,
        section_start(dex.map_entries@, 0x1000, 0)->Some_0,
    );
    section_starts_are_listed(dex, 0x1000);
    section_starts_are_listed(dex, 0x1001);
    section_starts_are_listed(dex, 0x1002);
    section_starts_are_listed(dex, 0x1003);
    section_starts_are_listed(dex, 0x2000);
    section_starts_are_listed(dex, 0x2001);
    section_starts_are_listed(dex, 0x2002);
    section_starts_are_listed(dex, 0x2003);
    section_starts_are_listed(dex, 0x2004);
    section_starts_are_listed(dex, 0x2005);
    section_starts_are_listed(dex, 0x2006);
    assert forall|i: int| 0 <= i < out.reports.len() implies !((#[trigger] out.reports[i])
        is DataSectionLayoutReordered) && !(out.reports[i] is AlignmentPaddingInserted) by {
        what_is_kept_is_not_reported(dex, config, out.reports[i]);
    }
    if all_apart(file_parts(dex, c)) {
        kept_parts_stand(dex, config);
    }
}

/// Where the map list of the file read does not list what is there, the file comes out as if
/// its layout were not to be kept.
pub proof fn an_unlisted_layout_is_not_kept(dex: DexFile, config: EmitConfig)
    requires
        !lists_what_is_there(dex),
    ensures
        emitted_file(dex, config) == emitted_file(
            dex,
            (EmitConfig { preserve_data_section_layout: false, ..config }),
        ),
        emitted_bytes(dex, config) == emitted_bytes(
            dex,
            (EmitConfig { preserve_data_section_layout: false, ..config }),
        ),
{
    map_lists_tell_what_is_there(dex);
    without_places_the_file_is_laid_out_anew(dex, config);
}

proof fn lemma_stays<V>(
    items: Map<u32, V>,
    parts: Seq<Result<Seq<u8>, DexEmitError>>,
    base: u32,
    size: u32,
    overrun: &'static str,
    key: u32,
)
    requires
        items.contains_key(key),
        0 < base <= key,
        in_place(sorted_keys(items), parts, base, size, overrun) is Ok,
    ensures
        ({
            let s = in_place(sorted_keys(items), parts, base, size, overrun)->Ok_0;
            s.remap.contains_key(key) && base + s.remap[key] == key
        }),
{
    sorted_keys_list(items);
    let keys = sorted_keys(items);
    assert(keys.contains(key));
    let k = choose|k: int| 0 <= k < keys.len() && keys[k] == key;
    offsets_into_a_kept_section_stay(keys, parts, base, size, overrun, k, "", "", "");
}

proof fn lemma_leaves_stay(dex: DexFile, config: EmitConfig, key: u32)
    requires
        all_placed(dex),
        preserved_file(dex, config) is Ok,
    ensures
        ({
            let c = kept_parts(dex, config);
            let l = c.leaves;
            let b = c.bases;
            &&& l.code.blob.len() > 0 && dex.code_items@.contains_key(key) && b.code_item <= key
                ==> l.code.remap.contains_key(key) && b.code_item + l.code.remap[key] == key
            &&& l.debug.blob.len() > 0 && dex.debug_info_raw_bytes@.contains_key(key)
                && b.debug_info <= key ==> l.debug.remap.contains_key(key) && b.debug_info
                + l.debug.remap[key] == key
            &&& l.items.blob.len() > 0 && dex.annotation_items@.contains_key(key)
                && b.annotation_item <= key ==> l.items.remap.contains_key(key)
                && b.annotation_item + l.items.remap[key] == key
        }),
{
    let c = kept_parts(dex, config);
    let l = c.leaves;
    let b = c.bases;
    kept_steps(dex, config);
    reveal(leaves);
    reveal(bases);
    if l.code.blob.len() > 0 && dex.code_items@.contains_key(key) && b.code_item <= key {
        let (base, size) = place(dex, 0x2001)->0;
        lemma_some(dex.code_items@, key);
        lemma_stays(
            dex.code_items@,
            code_items_kept_parts(dex.code_items@),
            base,
            size,
            "preserve: code_item overruns section",
            key,
        );
    }
    if l.debug.blob.len() > 0 && dex.debug_info_raw_bytes@.contains_key(key) && b.debug_info
        <= key {
        let (base, size) = place(dex, 0x2003)->0;
        lemma_some(dex.debug_info_raw_bytes@, key);
        lemma_stays(
            dex.debug_info_raw_bytes@,
            debug_infos_kept_parts(dex.debug_info_raw_bytes@),
            base,
            size,
            "preserve: debug_info overruns section",
            key,
        );
    }
    if l.items.blob.len() > 0 && dex.annotation_items@.contains_key(key) && b.annotation_item
        <= key {
        let (base, size) = place(dex, 0x2004)->0;
        lemma_some(dex.annotation_items@, key);
        lemma_stays(
            dex.annotation_items@,
            annotation_items_kept_parts(
                dex.annotation_items@,
                dex.annotation_item_widths@,
                config.preserve_encoded_value_width,
            ),
            base,
            size,
            "preserve: annotation_item overruns section",
            key,
        );
    }
}

proof fn lemma_members_and_sets_stay(dex: DexFile, config: EmitConfig, key: u32)
    requires
        all_placed(dex),
        preserved_file(dex, config) is Ok,
    ensures
        ({
            let c = kept_parts(dex, config);
            let s = c.branches;
            let b = c.bases;
            &&& dex.class_datas@.contains_key(key) && b.class_data <= key
                ==> s.classes.remap.contains_key(key) && b.class_data + s.classes.remap[key] == key
            &&& dex.annotation_sets@.contains_key(key) && b.annotation_set <= key
                ==> s.sets.remap.contains_key(key) && b.annotation_set + s.sets.remap[key] == key
        }),
{
    let c = kept_parts(dex, config);
    let l = c.leaves;
    let b = c.bases;
    kept_steps(dex, config);
    reveal(branches);
    reveal(bases);
    if dex.class_datas@.contains_key(key) && b.class_data <= key {
        lemma_some(dex.class_datas@, key);
        lemma_stays(
            dex.class_datas@,
            class_datas_kept_parts(
                dex.class_datas@,
                dex.raw_class_data_bytes@,
                l.code.remap,
                b.code_item,
            ),
            b.class_data,
            (place(dex, 0x2000)->0).1,
            "preserve: class_data overruns section",
            key,
        );
    }
    if dex.annotation_sets@.contains_key(key) && b.annotation_set <= key {
        lemma_some(dex.annotation_sets@, key);
        lemma_stays(
            dex.annotation_sets@,
            annotation_sets_kept_parts(dex.annotation_sets@, b.annotation_item, l.items.remap),
            b.annotation_set,
            (place(dex, 0x1003)->0).1,
            "preserve: annotation_set overruns section",
            key,
        );
    }
}

proof fn lemma_lists_and_directories_stay(dex: DexFile, config: EmitConfig, key: u32)
    requires
        all_placed(dex),
        preserved_file(dex, config) is Ok,
    ensures
        ({
            let c = kept_parts(dex, config);
            let s = c.branches;
            let b = c.bases;
            &&& dex.annotation_set_ref_lists@.contains_key(key) && b.annotation_set_ref_list <= key
                ==> s.refs.remap.contains_key(key) && b.annotation_set_ref_list
                + s.refs.remap[key] == key
            &&& dex.annotations@.contains_key(key) && b.annotation_directory <= key
                ==> s.dirs.remap.contains_key(key) && b.annotation_directory + s.dirs.remap[key]
                == key
        }),
{
    let c = kept_parts(dex, config);
    let s = c.branches;
    let b = c.bases;
    kept_steps(dex, config);
    reveal(branches);
    reveal(bases);
    if dex.annotation_set_ref_lists@.contains_key(key) && b.annotation_set_ref_list <= key {
        lemma_some(dex.annotation_set_ref_lists@, key);
        lemma_stays(
            dex.annotation_set_ref_lists@,
            annotation_set_ref_lists_kept_parts(
                dex.annotation_set_ref_lists@,
                b.annotation_set,
                s.sets.remap,
            ),
            b.annotation_set_ref_list,
            (place(dex, 0x1002)->0).1,
            "preserve: annotation_set_ref_list overruns section",
            key,
        );
    }
    if dex.annotations@.contains_key(key) && b.annotation_directory <= key {
        lemma_some(dex.annotations@, key);
        lemma_stays(
            dex.annotations@,
            annotation_directories_kept_parts(
                dex.annotations@,
                (Moved {
                    set_base: b.annotation_set,
                    set_remap: s.sets.remap,
                    list_base: b.annotation_set_ref_list,
                    list_remap: s.refs.remap,
                }),
            ),
            b.annotation_directory,
            (place(dex, 0x2006)->0).1,
            "preserve: annotation_directory overruns section",
            key,
        );
    }
}

/// In a file whose layout is kept, method bodies, debug info, class members, annotations, sets
/// of them, lists of such sets and annotation directories that were found in their section
/// keep their offsets.
pub proof fn items_keep_their_offsets(dex: DexFile, config: EmitConfig, key: u32)
    requires
        config.preserve_data_section_layout,
        lists_what_is_there(dex),
        emitted_file(dex, config) is Ok,
    ensures
        ({
            let c = kept_parts(dex, config);
            let p = kept_places(dex, config);
            &&& c.leaves.code.blob.len() > 0 && dex.code_items@.contains_key(key)
                && c.bases.code_item <= key ==> p.bodies.contains_key(key) && p.bodies[key] == key
            &&& c.leaves.debug.blob.len() > 0 && dex.debug_info_raw_bytes@.contains_key(key)
                && c.bases.debug_info <= key ==> p.debug.contains_key(key) && p.debug[key] == key
            &&& c.leaves.items.blob.len() > 0 && dex.annotation_items@.contains_key(key)
                && c.bases.annotation_item <= key ==> p.notes.contains_key(key) && p.notes[key]
                == key
            &&& dex.class_datas@.contains_key(key)
                && c.bases.class_data <= key ==> p.members.contains_key(key) && p.members[key]
                == key
            &&& dex.annotation_sets@.contains_key(key)
                && c.bases.annotation_set <= key ==> p.sets.contains_key(key) && p.sets[key]
                == key
            &&& dex.annotation_set_ref_lists@.contains_key(key)
                && c.bases.annotation_set_ref_list <= key ==> p.set_lists.contains_key(key)
                && p.set_lists[key] == key
            &&& dex.annotations@.contains_key(key)
                && c.bases.annotation_directory <= key ==> p.directories.contains_key(key)
                && p.directories[key] == key
        }),
{
    map_lists_tell_what_is_there(dex);
    kept_steps(dex, config);
    lemma_leaves_stay(dex, config, key);
    lemma_members_and_sets_stay(dex, config, key);
    lemma_lists_and_directories_stay(dex, config, key);
}

proof fn lemma_some<V>(m: Map<u32, V>, key: u32)
    requires
        m.contains_key(key),
    ensures
        m.len() > 0,
{
    sorted_keys_list(m);
    if m.len() == 0 {
        no_items_no_keys(m);
        assert(sorted_keys(m).contains(key));
    }
}

proof fn lemma_ids(
    strings: Seq<(u32, Seq<u8>)>,
    offs: Seq<u32>,
    base: u32,
    acc: StringPool,
    k: nat,
    i: int,
)
    requires
        k <= strings.len() == offs.len(),
        0 <= i < strings.len(),
        acc.ids.len() == 4 * k,
        i < k ==> read_le32(acc.ids, 4 * i) == offs[i],
        strings_placed(strings, offs, base, acc, k) is Ok,
    ensures
        read_le32(strings_placed(strings, offs, base, acc, k)->Ok_0.ids, 4 * i) == offs[i],
    decreases strings.len() - k,
{
    if k < strings.len() {
        let off = offs[k as int];
        let item = string_item(strings[k as int].0, strings[k as int].1);
        let now = StringPool {
            ids: acc.ids + le32(off),
            data: overlay(acc.data, off - base, item),
        };
        if i < k {
            assert(now.ids[4 * i] == acc.ids[4 * i]);
            assert(now.ids[4 * i + 1] == acc.ids[4 * i + 1]);
            assert(now.ids[4 * i + 2] == acc.ids[4 * i + 2]);
            assert(now.ids[4 * i + 3] == acc.ids[4 * i + 3]);
        } else if i == k {
            le32_reads_back(acc.ids, off, Seq::empty());
            assert(acc.ids + le32(off) + Seq::<u8>::empty() =~= now.ids);
        }
        lemma_ids(strings, offs, base, now, k + 1, i);
    }
}

/// Where it is known of each string where its data was found, and the map list of the file read
/// lists the string data, each string keeps its place.
pub proof fn strings_keep_their_places(dex: DexFile, i: int)
    requires
        dex.string_data_offs@.len() == dex.strings@.len(),
        listed(dex, 0x2002),
        0 <= i < dex.strings@.len(),
        string_pool(dex) is Ok,
    ensures
        read_le32(string_pool(dex)->Ok_0.ids, 4 * i) == dex.string_data_offs@[i],
        final_string_ids(dex, string_pool(dex)->Ok_0.ids, 0) == string_pool(dex)->Ok_0.ids,
{
    section_starts_are_listed(dex, 0x2002);
    let (base, size) = place(dex, 0x2002)->0;
    let strings = stored(dex.strings@);
    lemma_ids(
        strings,
        dex.string_data_offs@,
        base,
        StringPool { ids: Seq::empty(), data: zeros(size as nat) },
        0,
        i,
    );
}

/// Annotations that go back to where they were found are written at their recorded widths where
/// these are to be kept and there are some, and in the fewest bytes otherwise.
pub proof fn annotations_keep_their_widths_where_asked(dex: DexFile, config: EmitConfig, k: int)
    requires
        listed(dex, 0x2004),
        dex.annotation_items@.len() > 0,
        kept_items(dex, config) is Ok,
        0 <= k < sorted_keys(dex.annotation_items@).len(),
    ensures
        ({
            let items = dex.annotation_items@;
            let keys = sorted_keys(items);
            let parts = annotation_items_kept_parts(
                items,
                dex.annotation_item_widths@,
                config.preserve_encoded_value_width,
            );
            let item = items[keys[k]];
            let (base, size) = place(dex, 0x2004)->0;
            &&& kept_items(dex, config) == in_place(
                keys,
                parts,
                base,
                size,
                "preserve: annotation_item overruns section",
            )
            &&& parts[k] == if config.preserve_encoded_value_width
                && dex.annotation_item_widths@.contains_key(keys[k]) {
                done(seq![item.visibility]).and(
                    body_deep(
                        item.annotation,
                        dex.annotation_item_widths@[keys[k]]@,
                        0,
                    ).w,
                ).result()
            } else {
                done(seq![item.visibility]).and(annotation_written(item.annotation)).result()
            }
        }),
{
    section_starts_are_listed(dex, 0x2004);
}

} // verus!
