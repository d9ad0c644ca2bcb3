//! The offsets between annotations in a file in the canonical layout.
use vstd::prelude::*;

use crate::annotation::AnnotationDirectoryItem;
use crate::bytes::{le32, read_le32};
use crate::dex_file::DexFile;
use crate::emit_dex::assembly::canonical_file;
use crate::emit_dex::canonical::data;
use crate::emit_dex::config::EmitConfig;
use crate::emit_dex::directory::{
    directory_bytes, directory_part, field_idxs, field_offs, method_idxs, method_offs, pairs,
    param_idxs, param_offs, part_labels, part_offs, DirectoryPart, Labels, Moved,
};
use crate::emit_dex::error::DexEmitError;
use crate::emit_dex::laws::file::{
    canonical_parts, canonical_sections_stand, canonical_steps, Parts,
};
use crate::emit_dex::laws::links::{arrays_and_directories_are_laid_out, leads, section_keys};
use crate::emit_dex::laws::place::{holding_is_transitive, holds_at, in_front, in_rest, word_in};
use crate::emit_dex::laws::sections::{
    annotation_set_lists_are_found, annotation_sets_are_found, annotations_are_found,
    directories_are_found,
};
use crate::emit_dex::pools::{words, words_len};
use crate::emit_dex::sections::{
    all_resolved, annotation_item_part, annotation_item_parts, annotation_item_section,
    annotation_set_part, annotation_set_parts, annotation_set_ref_list_part,
    annotation_set_ref_list_parts, annotation_set_ref_list_section, annotation_set_section,
    offset_list, resolved, section_overflow, Section,
};

verus! {

/// Offsets are resolved one by one.
pub proof fn resolved_one_by_one(
    offs: Seq<u32>,
    base: u32,
    remap: Map<u32, u32>,
    l: Labels,
    i: nat,
    acc: Seq<u32>,
    j: int,
)
    requires
        acc.len() == i <= offs.len(),
        0 <= j < offs.len(),
        all_resolved(offs, base, remap, l.missing, l.section, l.context, i, acc) is Ok,
        j < i ==> resolved(offs[j], base, remap, l.missing, l.section, l.context) == Ok::<
            u32,
            DexEmitError,
        >(acc[j]),
    ensures
        ({
            let abs = all_resolved(
                offs,
                base,
                remap,
                l.missing,
                l.section,
                l.context,
                i,
                acc,
            )->Ok_0;
            &&& abs.len() == offs.len()
            &&& resolved(offs[j], base, remap, l.missing, l.section, l.context) == Ok::<
                u32,
                DexEmitError,
            >(abs[j])
        }),
    decreases offs.len() - i,
{
    if i < offs.len() {
        let abs = resolved(
            offs[i as int],
            base,
            remap,
            l.missing,
            l.section,
            l.context,
        )->Ok_0;
        resolved_one_by_one(offs, base, remap, l, i + 1, acc.push(abs), j);
    }
}

/// A word that stands in a file reads back.
pub proof fn word_at(file: Seq<u8>, at: int, v: u32)
    requires
        holds_at(file, at, le32(v)),
    ensures
        read_le32(file, at) == v,
{
    assert(le32(v).subrange(0, 4) =~= le32(v));
    word_in(file, at, le32(v), 0, v);
}

/// Each of many words stands at its place among them.
pub proof fn holds_word(v: Seq<u32>, n: nat, j: int)
    requires
        0 <= j < n,
    ensures
        holds_at(words(v, n), 4 * j, le32(v[j])),
    decreases n,
{
    let before = words(v, (n - 1) as nat);
    let last = le32(v[n - 1]);
    words_len(v, (n - 1) as nat);
    if j < n - 1 {
        holds_word(v, (n - 1) as nat, j);
        in_front(before, last);
        holding_is_transitive(before + last, 0, before, 4 * j, le32(v[j]));
    } else {
        in_front(last, Seq::empty());
        assert(last + Seq::<u8>::empty() =~= last);
        in_rest(before, last, 0, last);
    }
}

/// A list of offsets reads back: its length, as far as it fits in 32 bits, and each of
/// its entries.
pub proof fn offset_lists_read_back(file: Seq<u8>, at: int, offs: Seq<u32>, j: int)
    requires
        holds_at(file, at, offset_list(offs)),
        0 <= j < offs.len(),
    ensures
        read_le32(file, at) == offs.len() % 0x1_0000_0000,
        read_le32(file, at + 4 + 4 * j) == offs[j],
{
    let n = (offs.len() % 0x1_0000_0000) as u32;
    let list = words(offs, offs.len());
    in_front(le32(n), list);
    holding_is_transitive(file, at, offset_list(offs), 0, le32(n));
    word_at(file, at, n);
    holds_word(offs, offs.len(), j);
    in_rest(le32(n), list, 4 * j, le32(offs[j]));
    holding_is_transitive(file, at, offset_list(offs), 4 + 4 * j, le32(offs[j]));
    word_at(file, at + 4 + 4 * j, offs[j]);
}

/// The annotations, the annotation sets and the lists of them of a file in the canonical
/// layout could be laid out.
pub proof fn annotations_are_laid_out(dex: DexFile, config: EmitConfig)
    requires
        canonical_file(dex, config) is Ok,
    ensures
        ({
            let n = canonical_parts(dex, config).data.notes;
            &&& annotation_item_section(dex.annotation_items@) == Ok::<Section, DexEmitError>(
                n.items,
            )
            &&& annotation_set_section(dex.annotation_sets@, n.item_base, n.items.remap) == Ok::<
                Section,
                DexEmitError,
            >(n.sets)
            &&& annotation_set_ref_list_section(
                dex.annotation_set_ref_lists@,
                n.set_base,
                n.sets.remap,
            ) == Ok::<Section, DexEmitError>(n.refs)
        }),
{
    canonical_steps(dex, config);
    reveal(data);
}

/// Where an annotation set stands in a file in the canonical layout.
pub open spec fn set_place(c: Parts, key: u32) -> int {
    c.data.notes.set_base + c.data.notes.sets.remap[key]
}

/// Where a list of annotation sets stands in a file in the canonical layout.
pub open spec fn set_list_place(c: Parts, key: u32) -> int {
    c.data.notes.ref_base + c.data.notes.refs.remap[key]
}

/// In a file in the canonical layout every annotation set stands at its place.
pub proof fn sets_stand(dex: DexFile, config: EmitConfig, key: u32)
    requires
        canonical_file(dex, config) is Ok,
        dex.annotation_sets@.contains_key(key),
    ensures
        ({
            let c = canonical_parts(dex, config);
            let n = c.data.notes;
            let out = canonical_file(dex, config)->Ok_0.bytes;
            let part = annotation_set_part(
                dex.annotation_sets@[key],
                n.item_base,
                n.items.remap,
            );
            part is Ok && holds_at(out, set_place(c, key), part->Ok_0)
        }),
{
    let c = canonical_parts(dex, config);
    let n = c.data.notes;
    let out = canonical_file(dex, config)->Ok_0.bytes;
    canonical_sections_stand(dex, config);
    annotations_are_laid_out(dex, config);
    annotation_sets_are_found(dex.annotation_sets@, n.item_base, n.items.remap, key);
    let part = annotation_set_part(dex.annotation_sets@[key], n.item_base, n.items.remap)->Ok_0;
    holding_is_transitive(
        out,
        n.set_base as int,
        n.sets.blob,
        n.sets.remap[key] as int,
        part,
    );
}

/// In a file in the canonical layout every list of annotation sets stands at its place.
pub proof fn set_lists_stand(dex: DexFile, config: EmitConfig, key: u32)
    requires
        canonical_file(dex, config) is Ok,
        dex.annotation_set_ref_lists@.contains_key(key),
    ensures
        ({
            let c = canonical_parts(dex, config);
            let n = c.data.notes;
            let out = canonical_file(dex, config)->Ok_0.bytes;
            let part = annotation_set_ref_list_part(
                dex.annotation_set_ref_lists@[key],
                n.set_base,
                n.sets.remap,
            );
            part is Ok && holds_at(out, set_list_place(c, key), part->Ok_0)
        }),
{
    let c = canonical_parts(dex, config);
    let n = c.data.notes;
    let out = canonical_file(dex, config)->Ok_0.bytes;
    canonical_sections_stand(dex, config);
    annotations_are_laid_out(dex, config);
    annotation_set_lists_are_found(dex.annotation_set_ref_lists@, n.set_base, n.sets.remap, key);
    let part = annotation_set_ref_list_part(
        dex.annotation_set_ref_lists@[key],
        n.set_base,
        n.sets.remap,
    )->Ok_0;
    holding_is_transitive(
        out,
        n.ref_base as int,
        n.refs.blob,
        n.refs.remap[key] as int,
        part,
    );
}

/// In a file in the canonical layout every annotation set has its length, and its
/// entries lead to its annotations.
pub proof fn annotation_sets_lead_to_annotations(
    dex: DexFile,
    config: EmitConfig,
    key: u32,
    j: int,
)
    requires
        canonical_file(dex, config) is Ok,
        dex.annotation_sets@.contains_key(key),
        0 <= j < dex.annotation_sets@[key]@.len(),
    ensures
        ({
            let c = canonical_parts(dex, config);
            let out = canonical_file(dex, config)->Ok_0.bytes;
            let offs = dex.annotation_sets@[key]@;
            let at = set_place(c, key);
            &&& read_le32(out, at) == offs.len() % 0x1_0000_0000
            &&& leads(
                out,
                offs[j],
                read_le32(out, at + 4 + 4 * j) as u32,
                annotation_item_part(dex.annotation_items@[offs[j]]),
            )
        }),
{
    let c = canonical_parts(dex, config);
    let n = c.data.notes;
    let out = canonical_file(dex, config)->Ok_0.bytes;
    let offs = dex.annotation_sets@[key]@;
    let l = Labels {
        missing: "annotation_set references annotation_item not in DexFile.annotation_items",
        section: "annotation_set.annotation_off",
        context: "remapped annotation_item offset exceeds u32",
    };
    sets_stand(dex, config, key);
    annotations_are_laid_out(dex, config);
    let abs = all_resolved(
        offs,
        n.item_base,
        n.items.remap,
        l.missing,
        l.section,
        l.context,
        0,
        Seq::empty(),
    )->Ok_0;
    resolved_one_by_one(offs, n.item_base, n.items.remap, l, 0, Seq::empty(), j);
    offset_lists_read_back(out, set_place(c, key), abs, j);
    if offs[j] != 0 {
        section_keys(
            dex.annotation_items@,
            annotation_item_parts(dex.annotation_items@),
            1,
            section_overflow(
                "annotation_item_section",
                "annotation_item blob exceeds u32 byte offset",
            ),
        );
        assert(dex.annotation_items@.dom().contains(offs[j]));
        annotations_are_found(dex.annotation_items@, offs[j]);
        canonical_sections_stand(dex, config);
        holding_is_transitive(
            out,
            n.item_base as int,
            n.items.blob,
            n.items.remap[offs[j]] as int,
            annotation_item_part(dex.annotation_items@[offs[j]])->Ok_0,
        );
    }
}

/// In a file in the canonical layout every list of annotation sets has its length, and
/// each of its entries is 0 or the place of the set that it named.
pub proof fn set_lists_lead_to_sets(dex: DexFile, config: EmitConfig, key: u32, j: int)
    requires
        canonical_file(dex, config) is Ok,
        dex.annotation_set_ref_lists@.contains_key(key),
        0 <= j < dex.annotation_set_ref_lists@[key]@.len(),
    ensures
        ({
            let c = canonical_parts(dex, config);
            let out = canonical_file(dex, config)->Ok_0.bytes;
            let offs = dex.annotation_set_ref_lists@[key]@;
            let at = set_list_place(c, key);
            &&& read_le32(out, at) == offs.len() % 0x1_0000_0000
            &&& read_le32(out, at + 4 + 4 * j) == if offs[j] == 0 {
                0
            } else {
                set_place(c, offs[j])
            }
            &&& offs[j] != 0 ==> dex.annotation_sets@.contains_key(offs[j])
        }),
{
    let c = canonical_parts(dex, config);
    let n = c.data.notes;
    let out = canonical_file(dex, config)->Ok_0.bytes;
    let offs = dex.annotation_set_ref_lists@[key]@;
    let l = Labels {
        missing: "annotation_set_ref_list references annotation_set not in DexFile.annotation_sets",
        section: "annotation_set_ref_list.annotations_off",
        context: "remapped annotation_set offset exceeds u32",
    };
    set_lists_stand(dex, config, key);
    annotations_are_laid_out(dex, config);
    let abs = all_resolved(
        offs,
        n.set_base,
        n.sets.remap,
        l.missing,
        l.section,
        l.context,
        0,
        Seq::empty(),
    )->Ok_0;
    resolved_one_by_one(offs, n.set_base, n.sets.remap, l, 0, Seq::empty(), j);
    offset_lists_read_back(out, set_list_place(c, key), abs, j);
    if offs[j] != 0 {
        section_keys(
            dex.annotation_sets@,
            annotation_set_parts(dex.annotation_sets@, n.item_base, n.items.remap),
            4,
            section_overflow(
                "annotation_set_section",
                "annotation_set blob exceeds u32 byte offset",
            ),
        );
        assert(dex.annotation_sets@.dom().contains(offs[j]));
    }
}

// Directories

proof fn lemma_pairs_len(idxs: Seq<u32>, offs: Seq<u32>, n: nat)
    ensures
        pairs(idxs, offs, n).len() == 8 * n,
    decreases n,
{
    if n > 0 {
        lemma_pairs_len(idxs, offs, (n - 1) as nat);
    }
}

proof fn lemma_pair_at(idxs: Seq<u32>, offs: Seq<u32>, n: nat, j: int)
    requires
        0 <= j < n,
    ensures
        holds_at(pairs(idxs, offs, n), 8 * j, le32(idxs[j])),
        holds_at(pairs(idxs, offs, n), 8 * j + 4, le32(offs[j])),
    decreases n,
{
    let before = pairs(idxs, offs, (n - 1) as nat);
    let a = le32(idxs[n - 1]);
    let b = le32(offs[n - 1]);
    lemma_pairs_len(idxs, offs, (n - 1) as nat);
    assert(pairs(idxs, offs, n) =~= before + (a + b));
    if j < n - 1 {
        lemma_pair_at(idxs, offs, (n - 1) as nat, j);
        in_front(before, a + b);
        holding_is_transitive(before + (a + b), 0, before, 8 * j, le32(idxs[j]));
        holding_is_transitive(before + (a + b), 0, before, 8 * j + 4, le32(offs[j]));
    } else {
        in_front(a, b);
        in_rest(before, a + b, 0, a);
        in_front(b, Seq::empty());
        assert(b + Seq::<u8>::empty() =~= b);
        in_rest(a, b, 0, b);
        in_rest(before, a + b, 4, b);
    }
}

/// Wherever pairs of an index and an offset stand, they read back.
pub proof fn pairs_read_back(
    file: Seq<u8>,
    at: int,
    idxs: Seq<u32>,
    offs: Seq<u32>,
    n: nat,
    j: int,
)
    requires
        holds_at(file, at, pairs(idxs, offs, n)),
        0 <= j < n,
    ensures
        read_le32(file, at + 8 * j) == idxs[j],
        read_le32(file, at + 8 * j + 4) == offs[j],
{
    lemma_pair_at(idxs, offs, n, j);
    holding_is_transitive(file, at, pairs(idxs, offs, n), 8 * j, le32(idxs[j]));
    holding_is_transitive(file, at, pairs(idxs, offs, n), 8 * j + 4, le32(offs[j]));
    word_at(file, at + 8 * j, idxs[j]);
    word_at(file, at + 8 * j + 4, offs[j]);
}

/// A directory reads back, wherever it stands: the class offset, the three lengths, and
/// the pairs for fields, methods and parameters behind each other.
pub proof fn directories_read_back(
    file: Seq<u8>,
    at: int,
    dir: AnnotationDirectoryItem,
    class_abs: u32,
    fields: Seq<u32>,
    methods: Seq<u32>,
    params: Seq<u32>,
)
    requires
        directory_bytes(dir, class_abs, fields, methods, params) is Ok,
        holds_at(file, at, directory_bytes(dir, class_abs, fields, methods, params)->Ok_0),
    ensures
        ({
            let f = dir.fields@.len();
            let m = dir.methods@.len();
            let p = dir.parameters@.len();
            &&& read_le32(file, at) == class_abs
            &&& read_le32(file, at + 4) == f
            &&& read_le32(file, at + 8) == m
            &&& read_le32(file, at + 12) == p
            &&& holds_at(file, at + 16, pairs(field_idxs(dir), fields, f))
            &&& holds_at(file, at + 16 + 8 * f, pairs(method_idxs(dir), methods, m))
            &&& holds_at(file, at + 16 + 8 * f + 8 * m, pairs(param_idxs(dir), params, p))
        }),
{
    let nf = dir.fields@.len();
    let nm = dir.methods@.len();
    let np = dir.parameters@.len();
    let h = le32(class_abs) + le32(nf as u32) + le32(nm as u32) + le32(np as u32);
    let f = pairs(field_idxs(dir), fields, nf);
    let m = pairs(method_idxs(dir), methods, nm);
    let p = pairs(param_idxs(dir), params, np);
    let all = directory_bytes(dir, class_abs, fields, methods, params)->Ok_0;
    lemma_pairs_len(field_idxs(dir), fields, nf);
    lemma_pairs_len(method_idxs(dir), methods, nm);
    lemma_four_parts(h, f, m, p);
    assert(all == h + f + m + p);
    holding_is_transitive(file, at, all, 0, h);
    holding_is_transitive(file, at, all, 16, f);
    holding_is_transitive(file, at, all, 16 + 8 * nf as int, m);
    holding_is_transitive(file, at, all, 16 + 8 * nf as int + 8 * nm as int, p);
    assert(h.subrange(0, 4) =~= le32(class_abs));
    assert(h.subrange(4, 8) =~= le32(nf as u32));
    assert(h.subrange(8, 12) =~= le32(nm as u32));
    assert(h.subrange(12, 16) =~= le32(np as u32));
    word_in(file, at, h, 0, class_abs);
    word_in(file, at, h, 4, nf as u32);
    word_in(file, at, h, 8, nm as u32);
    word_in(file, at, h, 12, np as u32);
}

proof fn lemma_four_parts(a: Seq<u8>, b: Seq<u8>, c: Seq<u8>, d: Seq<u8>)
    ensures
        holds_at(a + b + c + d, 0, a),
        holds_at(a + b + c + d, a.len() as int, b),
        holds_at(a + b + c + d, (a.len() + b.len()) as int, c),
        holds_at(a + b + c + d, (a.len() + b.len() + c.len()) as int, d),
{
    let all = a + b + c + d;
    assert(all.subrange(0, a.len() as int) =~= a);
    assert(all.subrange(a.len() as int, (a.len() + b.len()) as int) =~= b);
    assert(all.subrange(
        (a.len() + b.len()) as int,
        (a.len() + b.len() + c.len()) as int,
    ) =~= c);
    assert(all.subrange(
        (a.len() + b.len() + c.len()) as int,
        (a.len() + b.len() + c.len() + d.len()) as int,
    ) =~= d);
}

/// Where an annotation directory stands in a file in the canonical layout.
pub open spec fn directory_place(c: Parts, key: u32) -> int {
    c.data.notes.dir_base + c.data.notes.dirs.remap[key]
}

/// Where sets and lists of sets have moved to in the canonical layout.
pub open spec fn sets_moved(c: Parts) -> Moved {
    let n = c.data.notes;
    Moved {
        set_base: n.set_base,
        set_remap: n.sets.remap,
        list_base: n.ref_base,
        list_remap: n.refs.remap,
    }
}

/// The offset of a set as it was and as it is: 0, or the place of the set.
pub open spec fn names_set(dex: DexFile, c: Parts, was: u32, now: int) -> bool {
    if was == 0 {
        now == 0
    } else {
        dex.annotation_sets@.contains_key(was) && now == set_place(c, was)
    }
}

/// The offset of a list of sets as it was and as it is: 0, or the place of the list.
pub open spec fn names_set_list(dex: DexFile, c: Parts, was: u32, now: int) -> bool {
    if was == 0 {
        now == 0
    } else {
        dex.annotation_set_ref_lists@.contains_key(was) && now == set_list_place(c, was)
    }
}

/// In a file in the canonical layout every annotation directory stands at its place.
pub proof fn directories_stand(dex: DexFile, config: EmitConfig, key: u32)
    requires
        canonical_file(dex, config) is Ok,
        dex.annotations@.contains_key(key),
    ensures
        ({
            let c = canonical_parts(dex, config);
            let out = canonical_file(dex, config)->Ok_0.bytes;
            let part = directory_part(dex.annotations@[key], sets_moved(c), false);
            part is Ok && holds_at(out, directory_place(c, key), part->Ok_0)
        }),
{
    let c = canonical_parts(dex, config);
    let n = c.data.notes;
    let out = canonical_file(dex, config)->Ok_0.bytes;
    canonical_sections_stand(dex, config);
    arrays_and_directories_are_laid_out(dex, config);
    directories_are_found(dex.annotations@, sets_moved(c), key);
    holding_is_transitive(
        out,
        n.dir_base as int,
        n.dirs.blob,
        n.dirs.remap[key] as int,
        directory_part(dex.annotations@[key], sets_moved(c), false)->Ok_0,
    );
}

proof fn lemma_sets_known(dex: DexFile, config: EmitConfig, off: u32)
    requires
        canonical_file(dex, config) is Ok,
    ensures
        ({
            let n = canonical_parts(dex, config).data.notes;
            &&& n.sets.remap.contains_key(off) ==> dex.annotation_sets@.contains_key(off)
            &&& n.refs.remap.contains_key(off) ==> dex.annotation_set_ref_lists@.contains_key(off)
        }),
{
    let n = canonical_parts(dex, config).data.notes;
    annotations_are_laid_out(dex, config);
    section_keys(
        dex.annotation_sets@,
        annotation_set_parts(dex.annotation_sets@, n.item_base, n.items.remap),
        4,
        section_overflow("annotation_set_section", "annotation_set blob exceeds u32 byte offset"),
    );
    section_keys(
        dex.annotation_set_ref_lists@,
        annotation_set_ref_list_parts(
            dex.annotation_set_ref_lists@,
            n.set_base,
            n.sets.remap,
        ),
        4,
        section_overflow(
            "annotation_set_ref_list_section",
            "annotation_set_ref_list blob exceeds u32 byte offset",
        ),
    );
    assert(n.sets.remap.dom().contains(off) == dex.annotation_sets@.dom().contains(off));
    assert(n.refs.remap.dom().contains(off) == dex.annotation_set_ref_lists@.dom().contains(off));
}

/// The places of the offsets of one list of a directory.
spec fn abs_of(offs: Seq<u32>, base: u32, remap: Map<u32, u32>, part: DirectoryPart) -> Seq<u32> {
    part_offs(offs, base, remap, part_labels(part, false))->Ok_0
}

proof fn lemma_directory_reads(dex: DexFile, config: EmitConfig, key: u32)
    requires
        canonical_file(dex, config) is Ok,
        dex.annotations@.contains_key(key),
    ensures
        ({
            let c = canonical_parts(dex, config);
            let out = canonical_file(dex, config)->Ok_0.bytes;
            let dir = dex.annotations@[key];
            let to = sets_moved(c);
            let at = directory_place(c, key);
            let f = dir.fields@.len();
            let m = dir.methods@.len();
            let p = dir.parameters@.len();
            let fields = part_offs(field_offs(dir), to.set_base, to.set_remap, part_labels(DirectoryPart::Field, false));
            let methods = part_offs(method_offs(dir), to.set_base, to.set_remap, part_labels(DirectoryPart::Method, false));
            let params = part_offs(param_offs(dir), to.list_base, to.list_remap, part_labels(DirectoryPart::Parameter, false));
            let l = part_labels(DirectoryPart::Class, false);
            &&& resolved(dir.class_annotations_off, to.set_base, to.set_remap, l.missing, l.section, l.context) == Ok::<u32, DexEmitError>(read_le32(out, at) as u32)
            &&& 0 <= read_le32(out, at) <= u32::MAX
            &&& read_le32(out, at + 4) == f
            &&& read_le32(out, at + 8) == m
            &&& read_le32(out, at + 12) == p
            &&& fields is Ok
            &&& methods is Ok
            &&& params is Ok
            &&& holds_at(out, at + 16, pairs(field_idxs(dir), fields->Ok_0, f))
            &&& holds_at(out, at + 16 + 8 * f, pairs(method_idxs(dir), methods->Ok_0, m))
            &&& holds_at(out, at + 16 + 8 * f + 8 * m, pairs(param_idxs(dir), params->Ok_0, p))
        }),
{
    let c = canonical_parts(dex, config);
    let out = canonical_file(dex, config)->Ok_0.bytes;
    let dir = dex.annotations@[key];
    let to = sets_moved(c);
    directories_stand(dex, config, key);
    let l = part_labels(DirectoryPart::Class, false);
    let class_abs = resolved(
        dir.class_annotations_off,
        to.set_base,
        to.set_remap,
        l.missing,
        l.section,
        l.context,
    )->Ok_0;
    directories_read_back(
        out,
        directory_place(c, key),
        dir,
        class_abs,
        abs_of(field_offs(dir), to.set_base, to.set_remap, DirectoryPart::Field),
        abs_of(method_offs(dir), to.set_base, to.set_remap, DirectoryPart::Method),
        abs_of(param_offs(dir), to.list_base, to.list_remap, DirectoryPart::Parameter),
    );
}

/// In a file in the canonical layout every annotation directory starts with the place of
/// the annotations of its class and the lengths of its three lists.
pub proof fn directories_lead_to_class_annotations(dex: DexFile, config: EmitConfig, key: u32)
    requires
        canonical_file(dex, config) is Ok,
        dex.annotations@.contains_key(key),
    ensures
        ({
            let c = canonical_parts(dex, config);
            let out = canonical_file(dex, config)->Ok_0.bytes;
            let dir = dex.annotations@[key];
            let at = directory_place(c, key);
            &&& names_set(dex, c, dir.class_annotations_off, read_le32(out, at))
            &&& read_le32(out, at + 4) == dir.fields@.len()
            &&& read_le32(out, at + 8) == dir.methods@.len()
            &&& read_le32(out, at + 12) == dir.parameters@.len()
        }),
{
    lemma_directory_reads(dex, config, key);
    lemma_sets_known(dex, config, dex.annotations@[key].class_annotations_off);
}

/// In a file in the canonical layout every annotation directory names, for each field,
/// its index and the place of its annotations.
pub proof fn directories_lead_to_field_annotations(
    dex: DexFile,
    config: EmitConfig,
    key: u32,
    j: int,
)
    requires
        canonical_file(dex, config) is Ok,
        dex.annotations@.contains_key(key),
        0 <= j < dex.annotations@[key].fields@.len(),
    ensures
        ({
            let c = canonical_parts(dex, config);
            let out = canonical_file(dex, config)->Ok_0.bytes;
            let dir = dex.annotations@[key];
            let at = directory_place(c, key) + 16 + 8 * j;
            &&& read_le32(out, at) == dir.fields@[j].field_idx.0
            &&& names_set(dex, c, dir.fields@[j].annotations_off, read_le32(out, at + 4))
        }),
{
    let c = canonical_parts(dex, config);
    let out = canonical_file(dex, config)->Ok_0.bytes;
    let dir = dex.annotations@[key];
    let to = sets_moved(c);
    let at = directory_place(c, key) + 16;
    let l = part_labels(DirectoryPart::Field, false);
    lemma_directory_reads(dex, config, key);
    lemma_sets_known(dex, config, dir.fields@[j].annotations_off);
    resolved_one_by_one(field_offs(dir), to.set_base, to.set_remap, l, 0, Seq::empty(), j);
    pairs_read_back(
        out,
        at,
        field_idxs(dir),
        abs_of(field_offs(dir), to.set_base, to.set_remap, DirectoryPart::Field),
        dir.fields@.len(),
        j,
    );
}

/// In a file in the canonical layout every annotation directory names, for each method,
/// its index and the place of its annotations.
pub proof fn directories_lead_to_method_annotations(
    dex: DexFile,
    config: EmitConfig,
    key: u32,
    j: int,
)
    requires
        canonical_file(dex, config) is Ok,
        dex.annotations@.contains_key(key),
        0 <= j < dex.annotations@[key].methods@.len(),
    ensures
        ({
            let c = canonical_parts(dex, config);
            let out = canonical_file(dex, config)->Ok_0.bytes;
            let dir = dex.annotations@[key];
            let at = directory_place(c, key) + 16 + 8 * dir.fields@.len() + 8 * j;
            &&& read_le32(out, at) == dir.methods@[j].method_idx.0
            &&& names_set(dex, c, dir.methods@[j].annotations_off, read_le32(out, at + 4))
        }),
{
    let c = canonical_parts(dex, config);
    let out = canonical_file(dex, config)->Ok_0.bytes;
    let dir = dex.annotations@[key];
    let to = sets_moved(c);
    let at = directory_place(c, key) + 16 + 8 * dir.fields@.len();
    let l = part_labels(DirectoryPart::Method, false);
    lemma_directory_reads(dex, config, key);
    lemma_sets_known(dex, config, dir.methods@[j].annotations_off);
    resolved_one_by_one(method_offs(dir), to.set_base, to.set_remap, l, 0, Seq::empty(), j);
    pairs_read_back(
        out,
        at,
        method_idxs(dir),
        abs_of(method_offs(dir), to.set_base, to.set_remap, DirectoryPart::Method),
        dir.methods@.len(),
        j,
    );
}

/// In a file in the canonical layout every annotation directory names, for each method
/// with annotated parameters, its index and the place of its annotations.
pub proof fn directories_lead_to_parameter_annotations(
    dex: DexFile,
    config: EmitConfig,
    key: u32,
    j: int,
)
    requires
        canonical_file(dex, config) is Ok,
        dex.annotations@.contains_key(key),
        0 <= j < dex.annotations@[key].parameters@.len(),
    ensures
        ({
            let c = canonical_parts(dex, config);
            let out = canonical_file(dex, config)->Ok_0.bytes;
            let dir = dex.annotations@[key];
            let at = directory_place(c, key) + 16 + 8 * dir.fields@.len() + 8 * dir.methods@.len() + 8 * j;
            &&& read_le32(out, at) == dir.parameters@[j].method_idx.0
            &&& names_set_list(dex, c, dir.parameters@[j].annotations_off, read_le32(out, at + 4))
        }),
{
    let c = canonical_parts(dex, config);
    let out = canonical_file(dex, config)->Ok_0.bytes;
    let dir = dex.annotations@[key];
    let to = sets_moved(c);
    let at = directory_place(c, key) + 16 + 8 * dir.fields@.len() + 8 * dir.methods@.len();
    let l = part_labels(DirectoryPart::Parameter, false);
    lemma_directory_reads(dex, config, key);
    lemma_sets_known(dex, config, dir.parameters@[j].annotations_off);
    resolved_one_by_one(param_offs(dir), to.list_base, to.list_remap, l, 0, Seq::empty(), j);
    pairs_read_back(
        out,
        at,
        param_idxs(dir),
        abs_of(param_offs(dir), to.list_base, to.list_remap, DirectoryPart::Parameter),
        dir.parameters@.len(),
        j,
    );
}

} // verus!
