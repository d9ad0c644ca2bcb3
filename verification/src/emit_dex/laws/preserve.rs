//! What keeping the layout of a file owes: every section goes where the map list of
//! the file has it, and every item in it where it was found.
use vstd::prelude::*;

use crate::bytes::{le32, overlay, zeros};
use crate::collections::{ascending, sorted_keys, sorted_keys_list};
use crate::dex_file::DexFile;
use crate::emit_dex::map_type;
use crate::emit_dex::assembly::{header_layout, header_of, pool_sizes, sealed, Bases};
use crate::emit_dex::checksum::{adler32, digest_of, header_bytes, HeaderLayout};
use crate::emit_dex::code_item::sat32;
use crate::emit_dex::config::EmitConfig;
use crate::emit_dex::emit::emitted_bytes;
use crate::emit_dex::error::DexEmitError;
use crate::emit_dex::in_place::{behind, in_place, put_back};
use crate::emit_dex::laws::file::{
    canonical_checksums, header_reads_back, sealed_checksums, sealing_keeps_the_rest,
};
use crate::emit_dex::laws::place::{apart, holds_at, overlay_apart, overlay_holds};
use crate::emit_dex::layout::{linked_classes, linked_protos, pool_layout, PoolPlaces};
use crate::emit_dex::map_list::section_start;
use crate::emit_dex::preserve::{
    all_placed, all_written, all_written_len, bases, branches, data_extent, filled, furthest,
    kept_length, kept_links, kept_map, laid_out_anew, leaves, pool_parts, pools, preserved_file,
    section_parts, written_at, Branches, Leaves, Pools,
};
use crate::emit_dex::sections::{resolved, Section};

verus! {

// Items

/// No item from position `from` on is put where the one at `k` is.
pub open spec fn items_apart(
    keys: Seq<u32>,
    items: Seq<Result<Seq<u8>, DexEmitError>>,
    base: u32,
    k: int,
    from: int,
) -> bool {
    forall|j: int|
        #![trigger keys[j]]
        from <= j < keys.len() && items[j] is Ok && items[k] is Ok ==> apart(
            behind(keys[j], base) as int,
            items[j]->Ok_0.len(),
            behind(keys[k], base) as int,
            items[k]->Ok_0.len(),
        )
}

/// An item that is put back stands, unless a later one is put over it.
pub proof fn put_back_stands(
    keys: Seq<u32>,
    items: Seq<Result<Seq<u8>, DexEmitError>>,
    base: u32,
    overrun: &'static str,
    i: nat,
    acc: Section,
    k: int,
)
    requires
        ascending(keys),
        items.len() == keys.len(),
        i <= keys.len(),
        0 <= k < keys.len(),
        items_apart(keys, items, base, k, k + 1),
        put_back(keys, items, base, overrun, i, acc) is Ok,
        k < i ==> items[k] is Ok && acc.remap.contains_key(keys[k]) && acc.remap[keys[k]] == behind(
            keys[k],
            base,
        ) && holds_at(acc.blob, behind(keys[k], base) as int, items[k]->Ok_0),
    ensures
        ({
            let s = put_back(keys, items, base, overrun, i, acc)->Ok_0;
            &&& items[k] is Ok
            &&& s.blob.len() == acc.blob.len()
            &&& s.remap.contains_key(keys[k])
            &&& s.remap[keys[k]] == behind(keys[k], base)
            &&& holds_at(s.blob, behind(keys[k], base) as int, items[k]->Ok_0)
        }),
    decreases keys.len() - i,
{
    if i < keys.len() {
        let n = i as int;
        let part = items[n]->Ok_0;
        let local = behind(keys[n], base);
        let now = Section {
            blob: overlay(acc.blob, local as int, part),
            remap: acc.remap.insert(keys[n], local),
        };
        if k < i {
            assert(keys[k] < keys[n]);
            overlay_apart(
                acc.blob,
                local as int,
                part,
                behind(keys[k], base) as int,
                items[k]->Ok_0,
            );
        } else if k == i {
            overlay_holds(acc.blob, local as int, part);
        }
        put_back_stands(keys, items, base, overrun, i + 1, now, k);
    }
}

/// An item put back stands as far behind the start of its section as it was found,
/// in a section that is as long as it was, unless a later item is put over it.
pub proof fn items_stand_where_they_were_found(
    keys: Seq<u32>,
    items: Seq<Result<Seq<u8>, DexEmitError>>,
    base: u32,
    size: u32,
    overrun: &'static str,
    k: int,
)
    requires
        ascending(keys),
        items.len() == keys.len(),
        0 <= k < keys.len(),
        base <= keys[k],
        items_apart(keys, items, base, k, k + 1),
        in_place(keys, items, base, size, overrun) is Ok,
    ensures
        ({
            let s = in_place(keys, items, base, size, overrun)->Ok_0;
            &&& items[k] is Ok
            &&& s.blob.len() == size
            &&& s.remap.contains_key(keys[k])
            &&& base + s.remap[keys[k]] == keys[k]
            &&& holds_at(s.blob, keys[k] - base, items[k]->Ok_0)
        }),
{
    put_back_stands(
        keys,
        items,
        base,
        overrun,
        0,
        Section { blob: zeros(size as nat), remap: Map::empty() },
        k,
    );
}

proof fn lemma_kept_place(
    keys: Seq<u32>,
    items: Seq<Result<Seq<u8>, DexEmitError>>,
    base: u32,
    overrun: &'static str,
    i: nat,
    acc: Section,
    k: int,
)
    requires
        ascending(keys),
        i <= keys.len(),
        0 <= k < keys.len(),
        put_back(keys, items, base, overrun, i, acc) is Ok,
        k < i ==> acc.remap.contains_key(keys[k]) && acc.remap[keys[k]] == behind(keys[k], base),
    ensures
        ({
            let s = put_back(keys, items, base, overrun, i, acc)->Ok_0;
            s.remap.contains_key(keys[k]) && s.remap[keys[k]] == behind(keys[k], base)
        }),
    decreases keys.len() - i,
{
    if i < keys.len() {
        let n = i as int;
        let local = behind(keys[n], base);
        let now = Section {
            blob: overlay(acc.blob, local as int, items[n]->Ok_0),
            remap: acc.remap.insert(keys[n], local),
        };
        lemma_kept_place(keys, items, base, overrun, i + 1, now, k);
    }
}

/// An offset into a section that is put back where it was stays what it was.
pub proof fn offsets_into_a_kept_section_stay(
    keys: Seq<u32>,
    items: Seq<Result<Seq<u8>, DexEmitError>>,
    base: u32,
    size: u32,
    overrun: &'static str,
    k: int,
    missing: &'static str,
    section: &'static str,
    context: &'static str,
)
    requires
        ascending(keys),
        0 <= k < keys.len(),
        base <= keys[k],
        in_place(keys, items, base, size, overrun) is Ok,
    ensures
        resolved(
            keys[k],
            base,
            in_place(keys, items, base, size, overrun)->Ok_0.remap,
            missing,
            section,
            context,
        ) == Ok::<u32, DexEmitError>(keys[k]),
{
    lemma_kept_place(
        keys,
        items,
        base,
        overrun,
        0,
        Section { blob: zeros(size as nat), remap: Map::empty() },
        k,
    );
}

// Sections

/// Every section with something in it goes where the map list of the file has it.
pub proof fn sections_stay_where_the_map_has_them(
    dex: DexFile,
    l: Leaves,
    strings_used: bool,
    map_off: u32,
)
    requires
        bases(dex, l, strings_used, map_off) is Ok,
    ensures
        ({
            let b = bases(dex, l, strings_used, map_off)->Ok_0;
            let list = dex.map_entries@;
            &&& l.lists.blob.len() > 0 ==> section_start(list, map_type::TYPE_LIST, 0) == Some(
                b.type_list,
            )
            &&& l.code.blob.len() > 0 ==> section_start(list, map_type::CODE_ITEM, 0) == Some(
                b.code_item,
            )
            &&& l.debug.blob.len() > 0 ==> section_start(list, map_type::DEBUG_INFO_ITEM, 0)
                == Some(b.debug_info)
            &&& l.items.blob.len() > 0 ==> section_start(list, map_type::ANNOTATION_ITEM, 0)
                == Some(b.annotation_item)
            &&& l.arrays.blob.len() > 0 ==> section_start(list, map_type::ENCODED_ARRAY_ITEM, 0)
                == Some(b.encoded_array)
            &&& dex.class_datas@.len() > 0 ==> section_start(list, map_type::CLASS_DATA_ITEM, 0)
                == Some(b.class_data)
            &&& dex.annotation_sets@.len() > 0 ==> section_start(
                list,
                map_type::ANNOTATION_SET_ITEM,
                0,
            ) == Some(b.annotation_set)
            &&& dex.annotation_set_ref_lists@.len() > 0 ==> section_start(
                list,
                map_type::ANNOTATION_SET_REF_LIST,
                0,
            ) == Some(b.annotation_set_ref_list)
            &&& dex.annotations@.len() > 0 ==> section_start(
                list,
                map_type::ANNOTATION_DIRECTORY_ITEM,
                0,
            ) == Some(b.annotation_directory)
            &&& strings_used && section_start(list, map_type::STRING_DATA_ITEM, 0) is Some
                ==> section_start(list, map_type::STRING_DATA_ITEM, 0) == Some(b.string_data)
            &&& b.map_list == map_off
        }),
{
    reveal(bases);
}

/// An empty map has no keys.
pub proof fn no_items_no_keys<V>(m: Map<u32, V>)
    requires
        m.len() == 0,
    ensures
        sorted_keys(m).len() == 0,
{
    sorted_keys_list(m);
    let keys = sorted_keys(m);
    assert(m.dom().finite()) by {
        keys.lemma_cardinality_of_set();
    }
    if keys.len() > 0 {
        assert(keys.contains(keys[0]));
        assert(m.dom().contains(keys[0]));
        assert(m.dom().len() == 0);
        assert(m.dom() =~= Set::empty());
    }
}

proof fn lemma_nothing_kept(dex: DexFile, config: EmitConfig)
    requires
        leaves(dex, config) is Ok,
    ensures
        ({
            let l = leaves(dex, config)->Ok_0;
            &&& dex.type_lists@.len() == 0 ==> l.lists.blob.len() == 0
            &&& dex.code_items@.len() == 0 ==> l.code.blob.len() == 0
            &&& dex.debug_info_raw_bytes@.len() == 0 ==> l.debug.blob.len() == 0
            &&& dex.annotation_items@.len() == 0 ==> l.items.blob.len() == 0
            &&& dex.encoded_arrays@.len() == 0 ==> l.arrays.blob.len() == 0
        }),
{
    reveal(leaves);
    if dex.type_lists@.len() == 0 {
        no_items_no_keys(dex.type_lists@);
    }
    if dex.code_items@.len() == 0 {
        no_items_no_keys(dex.code_items@);
    }
    if dex.debug_info_raw_bytes@.len() == 0 {
        no_items_no_keys(dex.debug_info_raw_bytes@);
    }
    if dex.annotation_items@.len() == 0 {
        no_items_no_keys(dex.annotation_items@);
    }
    if dex.encoded_arrays@.len() == 0 {
        no_items_no_keys(dex.encoded_arrays@);
    }
}

/// Where the map list of the file has every section, and none of the data at the start
/// of the file, there is a place for each.
pub proof fn placed_sections_find_their_places(
    dex: DexFile,
    config: EmitConfig,
    strings_used: bool,
    map_off: u32,
)
    requires
        all_placed(dex),
        forall|code: u16|
            code >= map_type::MAP_LIST ==> #[trigger] section_start(dex.map_entries@, code, 0)
                != Some(0u32),
        leaves(dex, config) is Ok,
    ensures
        bases(dex, leaves(dex, config)->Ok_0, strings_used, map_off) is Ok,
{
    reveal(bases);
    lemma_nothing_kept(dex, config);
}

// The file

/// None of the parts from position `from` on is written over the `n` bytes at `at`.
pub open spec fn parts_apart(parts: Seq<(u32, Seq<u8>)>, from: int, at: int, n: nat) -> bool {
    forall|j: int|
        #![trigger parts[j]]
        from <= j < parts.len() ==> apart(parts[j].0 as int, parts[j].1.len(), at, n)
}

proof fn lemma_written_keeps(
    buf: Seq<u8>,
    parts: Seq<(u32, Seq<u8>)>,
    i: nat,
    at: int,
    piece: Seq<u8>,
)
    requires
        all_written(buf, parts, i) is Ok,
        holds_at(buf, at, piece),
        parts_apart(parts, i as int, at, piece.len()),
    ensures
        holds_at(all_written(buf, parts, i)->Ok_0, at, piece),
    decreases parts.len() - i,
{
    if i < parts.len() {
        let (off, bytes) = parts[i as int];
        overlay_apart(buf, off as int, bytes, at, piece);
        lemma_written_keeps(overlay(buf, off as int, bytes), parts, i + 1, at, piece);
    }
}

proof fn lemma_part_written(buf: Seq<u8>, parts: Seq<(u32, Seq<u8>)>, i: nat, k: int)
    requires
        all_written(buf, parts, i) is Ok,
        i <= k < parts.len(),
        parts_apart(parts, k + 1, parts[k].0 as int, parts[k].1.len()),
    ensures
        holds_at(all_written(buf, parts, i)->Ok_0, parts[k].0 as int, parts[k].1),
    decreases k - i,
{
    let (off, bytes) = parts[i as int];
    let now = overlay(buf, off as int, bytes);
    if i < k {
        lemma_part_written(now, parts, i + 1, k);
    } else {
        overlay_holds(buf, off as int, bytes);
        lemma_written_keeps(now, parts, i + 1, off as int, bytes);
    }
}

/// In a file whose layout is kept, every section stands where it goes, unless another
/// section or the map list is put over it, and the map list stands where it goes.
pub proof fn kept_sections_stand(
    file_size: u32,
    header: Seq<u8>,
    pools: Seq<(u32, Seq<u8>)>,
    sections: Seq<(u32, Seq<u8>)>,
    map_off: u32,
    map: Seq<u8>,
    k: int,
)
    requires
        filled(file_size, header, pools, sections, map_off, map) is Ok,
        0 <= k < sections.len(),
        parts_apart(sections, k + 1, sections[k].0 as int, sections[k].1.len()),
        apart(map_off as int, map.len(), sections[k].0 as int, sections[k].1.len()),
    ensures
        ({
            let out = filled(file_size, header, pools, sections, map_off, map)->Ok_0;
            &&& holds_at(out, sections[k].0 as int, sections[k].1)
            &&& holds_at(out, map_off as int, map)
        }),
{
    reveal(filled);
    let a = written_at(zeros(file_size as nat), 0, header)->Ok_0;
    let b = all_written(a, pools, 0)->Ok_0;
    let c = all_written(b, sections, 0)->Ok_0;
    lemma_part_written(b, sections, 0, k);
    overlay_apart(c, map_off as int, map, sections[k].0 as int, sections[k].1);
    overlay_holds(c, map_off as int, map);
}

/// In a file whose layout is kept, every pool stands behind the header, unless
/// something is put over it.
pub proof fn kept_pools_stand(
    file_size: u32,
    header: Seq<u8>,
    pools: Seq<(u32, Seq<u8>)>,
    sections: Seq<(u32, Seq<u8>)>,
    map_off: u32,
    map: Seq<u8>,
    k: int,
)
    requires
        filled(file_size, header, pools, sections, map_off, map) is Ok,
        0 <= k < pools.len(),
        parts_apart(pools, k + 1, pools[k].0 as int, pools[k].1.len()),
        parts_apart(sections, 0, pools[k].0 as int, pools[k].1.len()),
        apart(map_off as int, map.len(), pools[k].0 as int, pools[k].1.len()),
    ensures
        holds_at(
            filled(file_size, header, pools, sections, map_off, map)->Ok_0,
            pools[k].0 as int,
            pools[k].1,
        ),
{
    reveal(filled);
    let a = written_at(zeros(file_size as nat), 0, header)->Ok_0;
    let b = all_written(a, pools, 0)->Ok_0;
    let c = all_written(b, sections, 0)->Ok_0;
    lemma_part_written(a, pools, 0, k);
    lemma_written_keeps(b, sections, 0, pools[k].0 as int, pools[k].1);
    overlay_apart(c, map_off as int, map, pools[k].0 as int, pools[k].1);
}

/// In a file whose layout is kept, the header stands at the start, unless something
/// is put over it.
pub proof fn kept_header_stands(
    file_size: u32,
    header: Seq<u8>,
    pools: Seq<(u32, Seq<u8>)>,
    sections: Seq<(u32, Seq<u8>)>,
    map_off: u32,
    map: Seq<u8>,
)
    requires
        filled(file_size, header, pools, sections, map_off, map) is Ok,
        parts_apart(pools, 0, 0, header.len()),
        parts_apart(sections, 0, 0, header.len()),
        apart(map_off as int, map.len(), 0, header.len()),
    ensures
        holds_at(filled(file_size, header, pools, sections, map_off, map)->Ok_0, 0, header),
        filled(file_size, header, pools, sections, map_off, map)->Ok_0.len() == file_size,
{
    reveal(filled);
    let a = written_at(zeros(file_size as nat), 0, header)->Ok_0;
    let b = all_written(a, pools, 0)->Ok_0;
    let c = all_written(b, sections, 0)->Ok_0;
    overlay_holds(zeros(file_size as nat), 0, header);
    lemma_written_keeps(a, pools, 0, 0, header);
    lemma_written_keeps(b, sections, 0, 0, header);
    overlay_apart(c, map_off as int, map, 0, header);
    all_written_len(a, pools, 0);
    all_written_len(b, sections, 0);
}

/// The parts of a file whose layout is kept.
pub struct KeptParts {
    pub pools: Pools,
    pub places: PoolPlaces,
    pub leaves: Leaves,
    pub bases: Bases,
    pub branches: Branches,
    pub map: Seq<u8>,
    pub protos: Seq<u8>,
    pub classes: Seq<u8>,
}

impl KeptParts {
    /// The sections with their places.
    pub open spec fn sections(self) -> Seq<(u32, Seq<u8>)> {
        section_parts(self.pools, self.leaves, self.bases, self.branches)
    }

    /// The id pools with their places.
    pub open spec fn pools_placed(self, dex: DexFile) -> Seq<(u32, Seq<u8>)> {
        pool_parts(
            dex,
            self.pools,
            self.places,
            self.bases,
            self.protos,
            self.classes,
            self.branches.call_sites,
        )
    }

    /// The length of the file.
    pub open spec fn file_size(self, dex: DexFile) -> u32 {
        kept_length(dex, self.sections(), self.bases.map_list, self.map.len())
    }

    /// The header.
    pub open spec fn header(self, dex: DexFile) -> Seq<u8> {
        let (data_off, data_size) = data_extent(dex, self.places.data_off, self.file_size(dex));
        header_of(
            dex,
            self.places,
            self.file_size(dex),
            self.bases.map_list,
            data_off,
            data_size,
        )
    }

    /// The file before it is sealed.
    pub open spec fn unsealed(self, dex: DexFile) -> Result<Seq<u8>, DexEmitError> {
        filled(
            self.file_size(dex),
            self.header(dex),
            self.pools_placed(dex),
            self.sections(),
            self.bases.map_list,
            self.map,
        )
    }
}

/// The parts that a file whose layout is kept is made of.
pub open spec fn kept_parts(dex: DexFile, config: EmitConfig) -> KeptParts {
    let p = pools(dex)->Ok_0;
    let at = pool_layout(pool_sizes(dex, p.string_ids, p.types, p.fields, p.methods), true)->Ok_0;
    let map_off = section_start(dex.map_entries@, map_type::MAP_LIST, 0)->Some_0;
    let l = leaves(dex, config)->Ok_0;
    let b = bases(dex, l, p.string_data.len() > 0, map_off)->Ok_0;
    let s = branches(dex, l, b)->Ok_0;
    KeptParts {
        pools: p,
        places: at,
        leaves: l,
        bases: b,
        branches: s,
        map: kept_map(dex, config, at, b)->Ok_0,
        protos: linked_protos(dex.protos@, kept_links(l, b, s).lists)->Ok_0,
        classes: linked_classes(dex.class_defs@, kept_links(l, b, s))->Ok_0,
    }
}

/// A file whose layout is kept is its parts, each written at its place and then sealed.
/// The map list goes where the map list of the file read has itself.
pub proof fn kept_file_is_its_parts(dex: DexFile, config: EmitConfig)
    requires
        all_placed(dex),
        preserved_file(dex, config) is Ok,
    ensures
        ({
            let c = kept_parts(dex, config);
            &&& c.unsealed(dex) is Ok
            &&& preserved_file(dex, config)->Ok_0.bytes == sealed(
                dex,
                config,
                c.unsealed(dex)->Ok_0,
            )
            &&& section_start(dex.map_entries@, map_type::MAP_LIST, 0) == Some(c.bases.map_list)
        }),
{
    reveal(bases);
}

/// The header of a file whose layout is kept.
pub open spec fn kept_header(dex: DexFile, c: KeptParts) -> HeaderLayout {
    let (data_off, data_size) = data_extent(dex, c.places.data_off, c.file_size(dex));
    header_layout(dex, c.places, c.file_size(dex), c.bases.map_list, data_off, data_size)
}

/// A file whose layout is kept has a header, and is as long as that says.
pub proof fn kept_file_has_a_header(dex: DexFile, config: EmitConfig)
    requires
        all_placed(dex),
        preserved_file(dex, config) is Ok,
    ensures
        kept_parts(dex, config).unsealed(dex) is Ok,
        kept_parts(dex, config).unsealed(dex)->Ok_0.len() == kept_parts(dex, config).file_size(dex),
        kept_parts(dex, config).file_size(dex) >= 112,
        kept_parts(dex, config).header(dex) == header_bytes(
            kept_header(dex, kept_parts(dex, config)),
        ),
        kept_parts(dex, config).header(dex).len() == 112,
{
    let c = kept_parts(dex, config);
    kept_file_is_its_parts(dex, config);
    let l = kept_header(dex, c);
    assert(c.header(dex) == header_bytes(l)) by {
        reveal(header_of);
    }
    header_reads_back(l, 0);
    reveal(filled);
    let pools = c.pools_placed(dex);
    let a = written_at(zeros(c.file_size(dex) as nat), 0, c.header(dex))->Ok_0;
    let b = all_written(a, pools, 0)->Ok_0;
    all_written_len(a, pools, 0);
    all_written_len(b, c.sections(), 0);
}

/// A file whose layout is kept is as long as the file read, or longer where a section
/// or the map list ends behind it.
pub proof fn kept_file_is_as_long(dex: DexFile, config: EmitConfig)
    requires
        all_placed(dex),
        preserved_file(dex, config) is Ok,
    ensures
        ({
            let c = kept_parts(dex, config);
            let n = preserved_file(dex, config)->Ok_0.bytes.len();
            let end = furthest(
                c.sections(),
                sat32(c.bases.map_list + c.map.len()),
                c.sections().len(),
            );
            &&& n >= dex.header.file_size
            &&& n >= end
            &&& n == dex.header.file_size || n == end
        }),
{
    let c = kept_parts(dex, config);
    kept_file_is_its_parts(dex, config);
    kept_file_has_a_header(dex, config);
    sealing_keeps_the_rest(dex, config, c.unsealed(dex)->Ok_0);
}

/// The checksums of a file whose layout is kept are right, or are those read where they
/// were to be kept.
pub proof fn kept_file_checksums(dex: DexFile, config: EmitConfig)
    requires
        all_placed(dex),
        preserved_file(dex, config) is Ok,
    ensures
        ({
            let out = preserved_file(dex, config)->Ok_0.bytes;
            if config.preserve_input_checksums {
                &&& out.subrange(12, 32) == dex.header.signature@
                &&& out.subrange(8, 12) == le32(dex.header.checksum)
            } else {
                &&& out.subrange(12, 32) == digest_of(out.skip(32))
                &&& out.subrange(8, 12) == le32(adler32(out.skip(12)))
            }
        }),
{
    let c = kept_parts(dex, config);
    kept_file_is_its_parts(dex, config);
    kept_file_has_a_header(dex, config);
    sealed_checksums(dex, config, c.unsealed(dex)->Ok_0);
}

/// The checksums of a serialized file are right, or are those read where they were to be
/// kept, whatever its layout.
pub proof fn emitted_checksums(dex: DexFile, config: EmitConfig)
    requires
        emitted_bytes(dex, config) is Ok,
    ensures
        ({
            let out = emitted_bytes(dex, config)->Ok_0;
            if config.preserve_input_checksums {
                &&& out.subrange(12, 32) == dex.header.signature@
                &&& out.subrange(8, 12) == le32(dex.header.checksum)
            } else {
                &&& out.subrange(12, 32) == digest_of(out.skip(32))
                &&& out.subrange(8, 12) == le32(adler32(out.skip(12)))
            }
        }),
{
    if !config.preserve_data_section_layout {
        canonical_checksums(dex, config);
    } else if all_placed(dex) {
        kept_file_checksums(dex, config);
    } else {
        canonical_checksums(dex, laid_out_anew(config));
    }
}

} // verus!
