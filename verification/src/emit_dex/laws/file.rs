//! What a whole file owes its readers: its header describes it, and every pool and
//! every section stands at the offset that the header and the map list give.
use vstd::prelude::*;

use crate::bytes::{le32, le32_reads_back, overlay, read_le32, zeros};
use crate::collections::sorted_keys;
use crate::decode::CodeItem;
use crate::dex_file::DexFile;
use crate::emit_dex::assembly::{
    canonical_file, data_links, gap, header_layout, header_of, joined, layout_map, pool_bytes,
    pool_sizes, sealed, section_bytes,
};
use crate::emit_dex::canonical::{
    annotations, bodies, data, front, stored, tail, Annotations, Bodies, Data, Front, Tail,
};
use crate::emit_dex::checksum::{
    adler32, digest_of, finalized_file_is_valid, header_bytes, header_front, header_middle,
    header_pools, HeaderLayout, DEX_HEADER_SIZE,
};
use crate::emit_dex::code_item::sat32;
use crate::emit_dex::config::EmitConfig;
use crate::emit_dex::error::DexEmitError;
use crate::emit_dex::laws::place::holds_at;
use crate::emit_dex::laws::pools::lifted_len;
use crate::emit_dex::layout::{
    aligned_up, aligned_up_is_near, classes_moved, debug_linked, lifted, linked_classes,
    linked_protos, pool_layout, protos_moved, Link, Links, PoolPlaces,
};
use crate::emit_dex::pools::{
    class_defs, class_defs_len, method_handles, method_handles_len, proto_ids_len, string_ids_len,
    words, words_len,
};
use crate::emit_dex::sections::{all_resolved, resolved, Section};
use crate::ids::{ClassDefItem, ProtoIdItem};

verus! {
/// The parts up to the one at `n`, one after the other.
pub open spec fn run(parts: Seq<Seq<u8>>, n: nat) -> Seq<u8>
    decreases n,
{
    if n == 0 {
        Seq::empty()
    } else {
        run(parts, (n - 1) as nat) + parts[n - 1]
    }
}

proof fn lemma_run_grows(parts: Seq<Seq<u8>>, k: nat, n: nat)
    requires
        k <= n <= parts.len(),
    ensures
        run(parts, k).len() <= run(parts, n).len(),
        run(parts, n).take(run(parts, k).len() as int) == run(parts, k),
    decreases n,
{
    if k < n {
        lemma_run_grows(parts, k, (n - 1) as nat);
        let before = run(parts, (n - 1) as nat);
        let m = run(parts, k).len() as int;
        assert(run(parts, n).take(m) =~= before.take(m));
    } else {
        assert(run(parts, n).take(run(parts, k).len() as int) =~= run(parts, k));
    }
}

proof fn lemma_run_part(parts: Seq<Seq<u8>>, k: nat, n: nat)
    requires
        k < n <= parts.len(),
    ensures
        holds_at(run(parts, n), run(parts, k).len() as int, parts[k as int]),
        run(parts, k + 1).len() == run(parts, k).len() + parts[k as int].len(),
        run(parts, k + 1).len() <= run(parts, n).len(),
{
    lemma_run_grows(parts, k + 1, n);
    let at = run(parts, k).len() as int;
    let part = parts[k as int];
    let upto = run(parts, k + 1);
    assert(run(parts, n).subrange(at, at + part.len()) =~= upto.subrange(at, at + part.len()));
    assert(upto.subrange(at, at + part.len()) =~= part);
}

/// What stands in the second of two runs stands behind the first.
proof fn lemma_holds_behind(front: Seq<u8>, file: Seq<u8>, rest: Seq<u8>, at: int, part: Seq<u8>)
    requires
        holds_at(file, at, part),
    ensures
        holds_at(front + file + rest, front.len() + at, part),
{
    let n = front.len() as int;
    assert((front + file + rest).subrange(n + at, n + at + part.len()) =~= file.subrange(
        at,
        at + part.len(),
    ));
}

// How long the parts are

proof fn lemma_debug_linked_len(
    remap: Map<u32, u32>,
    items: Map<u32, CodeItem>,
    debug: Map<u32, u32>,
    base: u32,
    blob: Seq<u8>,
    i: nat,
)
    requires
        debug_linked(remap, items, debug, base, blob, i) is Ok,
    ensures
        debug_linked(remap, items, debug, base, blob, i)->Ok_0.len() == blob.len(),
    decreases sorted_keys(remap).len() - i,
{
    let keys = sorted_keys(remap);
    if i < keys.len() {
        if !items.contains_key(keys[i as int]) {
            lemma_debug_linked_len(remap, items, debug, base, blob, i + 1);
        } else {
            let at = remap[keys[i as int]] + 8;
            let place = crate::emit_dex::layout::debug_place(
                items[keys[i as int]].debug_info_off,
                debug,
                base,
            );
            lemma_debug_linked_len(
                remap,
                items,
                debug,
                base,
                overlay(blob, at, le32(place)),
                i + 1,
            );
        }
    }
}

proof fn lemma_protos_moved_len(protos: Seq<ProtoIdItem>, lists: Link, i: nat, acc: Seq<ProtoIdItem>)
    requires
        i <= protos.len(),
        protos_moved(protos, lists, i, acc) is Ok,
    ensures
        protos_moved(protos, lists, i, acc)->Ok_0.len() == acc.len() + protos.len() - i,
    decreases protos.len() - i,
{
    if i < protos.len() {
        let p = crate::emit_dex::layout::proto_moved(protos[i as int], lists)->Ok_0;
        lemma_protos_moved_len(protos, lists, i + 1, acc.push(p));
    }
}

proof fn lemma_classes_moved_len(classes: Seq<ClassDefItem>, to: Links, i: nat, acc: Seq<ClassDefItem>)
    requires
        i <= classes.len(),
        classes_moved(classes, to, i, acc) is Ok,
    ensures
        classes_moved(classes, to, i, acc)->Ok_0.len() == acc.len() + classes.len() - i,
    decreases classes.len() - i,
{
    if i < classes.len() {
        let c = crate::emit_dex::layout::class_moved(classes[i as int], to)->Ok_0;
        lemma_classes_moved_len(classes, to, i + 1, acc.push(c));
    }
}

/// The linked pools have twelve bytes for each prototype and 32 for each class.
pub proof fn linked_pools_len(protos: Seq<ProtoIdItem>, classes: Seq<ClassDefItem>, to: Links)
    ensures
        linked_protos(protos, to.lists) matches Ok(b) ==> b.len() == 12 * protos.len(),
        linked_classes(classes, to) matches Ok(b) ==> b.len() == 32 * classes.len(),
{
    reveal(linked_protos);
    reveal(linked_classes);
    if protos_moved(protos, to.lists, 0, Seq::empty()) is Ok {
        let moved = protos_moved(protos, to.lists, 0, Seq::empty())->Ok_0;
        lemma_protos_moved_len(protos, to.lists, 0, Seq::empty());
        proto_ids_len(moved, moved.len());
    }
    if classes_moved(classes, to, 0, Seq::empty()) is Ok {
        let moved = classes_moved(classes, to, 0, Seq::empty())->Ok_0;
        lemma_classes_moved_len(classes, to, 0, Seq::empty());
        if class_defs(moved, 0).fault is None {
            class_defs_len(moved, 0);
        }
    }
}

// Where the parts are

/// The sections of the canonical layout with the gaps between them.
#[verifier::opaque]
pub open spec fn section_parts(f: Front, d: Data) -> Seq<Seq<u8>> {
    seq![
        f.string_data,
        gap(d.string_end, d.bodies.code_base),
        d.bodies.code,
        f.debug.blob,
        d.bodies.classes.blob,
        d.notes.items.blob,
        gap(d.notes.item_end, d.notes.set_base),
        d.notes.sets.blob,
        gap(d.notes.set_end, d.notes.ref_base),
        d.notes.refs.blob,
        gap(d.notes.ref_end, d.notes.dir_base),
        d.notes.dirs.blob,
        d.tail.arrays.blob,
        gap(d.tail.array_end, d.tail.list_base),
        f.lists.blob,
        gap(d.tail.list_end, d.tail.map_base),
    ]
}

/// The header and the id pools of the canonical layout.
#[verifier::opaque]
pub open spec fn pool_parts(
    dex: DexFile,
    header: Seq<u8>,
    f: Front,
    d: Data,
    data_off: u32,
    protos: Seq<u8>,
    classes: Seq<u8>,
) -> Seq<Seq<u8>> {
    seq![
        header,
        lifted(f.string_ids, data_off, f.string_ids.len() / 4),
        f.types,
        protos,
        f.fields,
        f.methods,
        classes,
        words(d.tail.call_sites, d.tail.call_sites.len()),
        method_handles(dex.method_handles@, dex.method_handles@.len()),
    ]
}

proof fn lemma_section_parts(f: Front, d: Data)
    ensures
        section_parts(f, d).len() == 16,
        section_bytes(f, d) == run(section_parts(f, d), 16),
{
    reveal(section_parts);
    reveal(section_bytes);
    let parts = section_parts(f, d);
    assert(run(parts, 1) =~= parts[0]) by {
        assert(run(parts, 0) =~= Seq::empty());
    }
    assert(run(parts, 2) == run(parts, 1) + parts[1]);
    assert(run(parts, 3) == run(parts, 2) + parts[2]);
    assert(run(parts, 4) == run(parts, 3) + parts[3]);
    assert(run(parts, 5) == run(parts, 4) + parts[4]);
    assert(run(parts, 6) == run(parts, 5) + parts[5]);
    assert(run(parts, 7) == run(parts, 6) + parts[6]);
    assert(run(parts, 8) == run(parts, 7) + parts[7]);
    assert(run(parts, 9) == run(parts, 8) + parts[8]);
    assert(run(parts, 10) == run(parts, 9) + parts[9]);
    assert(run(parts, 11) == run(parts, 10) + parts[10]);
    assert(run(parts, 12) == run(parts, 11) + parts[11]);
    assert(run(parts, 13) == run(parts, 12) + parts[12]);
    assert(run(parts, 14) == run(parts, 13) + parts[13]);
    assert(run(parts, 15) == run(parts, 14) + parts[14]);
    assert(run(parts, 16) == run(parts, 15) + parts[15]);
}

proof fn lemma_pool_parts(
    dex: DexFile,
    header: Seq<u8>,
    f: Front,
    d: Data,
    data_off: u32,
    protos: Seq<u8>,
    classes: Seq<u8>,
)
    ensures
        pool_parts(dex, header, f, d, data_off, protos, classes).len() == 9,
        pool_parts(dex, header, f, d, data_off, protos, classes)[0] == header,
        pool_bytes(dex, header, f, d, data_off, protos, classes) == run(
            pool_parts(dex, header, f, d, data_off, protos, classes),
            9,
        ),
{
    reveal(pool_parts);
    reveal(pool_bytes);
    let parts = pool_parts(dex, header, f, d, data_off, protos, classes);
    assert(run(parts, 1) =~= parts[0]) by {
        assert(run(parts, 0) =~= Seq::empty());
    }
    assert(run(parts, 2) == run(parts, 1) + parts[1]);
    assert(run(parts, 3) == run(parts, 2) + parts[2]);
    assert(run(parts, 4) == run(parts, 3) + parts[3]);
    assert(run(parts, 5) == run(parts, 4) + parts[4]);
    assert(run(parts, 6) == run(parts, 5) + parts[5]);
    assert(run(parts, 7) == run(parts, 6) + parts[6]);
    assert(run(parts, 8) == run(parts, 7) + parts[7]);
    assert(run(parts, 9) == run(parts, 8) + parts[8]);
}

/// The offset `off` is where `len` bytes end, unless they end beyond 32 bits.
spec fn tracks(len: int, off: u32) -> bool {
    len == off || len > u32::MAX
}

proof fn lemma_tracks_part(len: int, off: u32, part: nat)
    requires
        tracks(len, off),
    ensures
        tracks(len + part, sat32(off + part)),
{
}

proof fn lemma_tracks_gap(len: int, off: u32, base: u32)
    requires
        tracks(len, off),
        aligned_up(off, 4) == Some(base),
    ensures
        off <= base,
        tracks(len + gap(off, base).len(), base),
{
    aligned_up_is_near(off);
}

proof fn lemma_pieces(dex: DexFile, config: EmitConfig, f: Front, off: u32, d: Data)
    requires
        data(dex, config, f, off) == Ok::<Data, DexEmitError>(d),
    ensures
        d.string_end == sat32(off + f.string_data.len()),
        bodies(dex, f.code, f.debug, d.string_end) == Ok::<Bodies, DexEmitError>(d.bodies),
        annotations(dex, d.bodies.end) == Ok::<Annotations, DexEmitError>(d.notes),
        tail(dex, config, f.lists, d.notes.dir_end) == Ok::<Tail, DexEmitError>(d.tail),
{
    reveal(data);
}

proof fn lemma_bodies_track(dex: DexFile, f: Front, off: u32, b: Bodies, len: int)
    requires
        bodies(dex, f.code, f.debug, off) == Ok::<Bodies, DexEmitError>(b),
        tracks(len, off),
    ensures
        ({
            let n0 = len + gap(off, b.code_base).len();
            let n1 = n0 + b.code.len();
            let n2 = n1 + f.debug.blob.len();
            &&& tracks(n0, b.code_base)
            &&& tracks(n1, b.debug_base)
            &&& tracks(n2, b.class_base)
            &&& tracks(n2 + b.classes.blob.len(), b.end)
        }),
{
    lemma_debug_linked_len(
        f.code.remap,
        dex.code_items@,
        f.debug.remap,
        b.debug_base,
        f.code.blob,
        0,
    );
    lemma_tracks_gap(len, off, b.code_base);
}

proof fn lemma_notes_track(dex: DexFile, off: u32, a: Annotations, len: int)
    requires
        annotations(dex, off) == Ok::<Annotations, DexEmitError>(a),
        tracks(len, off),
    ensures
        ({
            let n0 = len + a.items.blob.len();
            let n1 = n0 + gap(a.item_end, a.set_base).len();
            let n2 = n1 + a.sets.blob.len();
            let n3 = n2 + gap(a.set_end, a.ref_base).len();
            let n4 = n3 + a.refs.blob.len();
            let n5 = n4 + gap(a.ref_end, a.dir_base).len();
            &&& a.item_base == off
            &&& tracks(n0, a.item_end)
            &&& tracks(n1, a.set_base)
            &&& tracks(n2, a.set_end)
            &&& tracks(n3, a.ref_base)
            &&& tracks(n4, a.ref_end)
            &&& tracks(n5, a.dir_base)
            &&& tracks(n5 + a.dirs.blob.len(), a.dir_end)
        }),
{
    let n0 = len + a.items.blob.len();
    lemma_tracks_part(len, off, a.items.blob.len());
    lemma_tracks_gap(n0, a.item_end, a.set_base);
    let n2 = n0 + gap(a.item_end, a.set_base).len() + a.sets.blob.len();
    lemma_tracks_gap(n2, a.set_end, a.ref_base);
    let n4 = n2 + gap(a.set_end, a.ref_base).len() + a.refs.blob.len();
    lemma_tracks_gap(n4, a.ref_end, a.dir_base);
}

proof fn lemma_tail_tracks(
    dex: DexFile,
    config: EmitConfig,
    lists: Section,
    off: u32,
    t: Tail,
    len: int,
)
    requires
        tail(dex, config, lists, off) == Ok::<Tail, DexEmitError>(t),
        tracks(len, off),
    ensures
        ({
            let n0 = len + t.arrays.blob.len();
            let n1 = n0 + gap(t.array_end, t.list_base).len();
            let n2 = n1 + lists.blob.len();
            &&& t.array_base == off
            &&& tracks(n0, t.array_end)
            &&& tracks(n1, t.list_base)
            &&& tracks(n2, t.list_end)
            &&& tracks(n2 + gap(t.list_end, t.map_base).len(), t.map_base)
        }),
{
    let n0 = len + t.arrays.blob.len();
    lemma_tracks_part(len, off, t.arrays.blob.len());
    lemma_tracks_gap(n0, t.array_end, t.list_base);
    let n2 = n0 + gap(t.array_end, t.list_base).len() + lists.blob.len();
    lemma_tracks_gap(n2, t.list_end, t.map_base);
}

proof fn lemma_section_lens(f: Front, d: Data)
    ensures
        run(section_parts(f, d), 0).len() == 0,
        run(section_parts(f, d), 1).len() == run(section_parts(f, d), 0).len() + f.string_data.len(),
        run(section_parts(f, d), 2).len() == run(section_parts(f, d), 1).len() + gap(d.string_end, d.bodies.code_base).len(),
        run(section_parts(f, d), 3).len() == run(section_parts(f, d), 2).len() + d.bodies.code.len(),
        run(section_parts(f, d), 4).len() == run(section_parts(f, d), 3).len() + f.debug.blob.len(),
        run(section_parts(f, d), 5).len() == run(section_parts(f, d), 4).len() + d.bodies.classes.blob.len(),
        run(section_parts(f, d), 6).len() == run(section_parts(f, d), 5).len() + d.notes.items.blob.len(),
        run(section_parts(f, d), 7).len() == run(section_parts(f, d), 6).len() + gap(d.notes.item_end, d.notes.set_base).len(),
        run(section_parts(f, d), 8).len() == run(section_parts(f, d), 7).len() + d.notes.sets.blob.len(),
        run(section_parts(f, d), 9).len() == run(section_parts(f, d), 8).len() + gap(d.notes.set_end, d.notes.ref_base).len(),
        run(section_parts(f, d), 10).len() == run(section_parts(f, d), 9).len() + d.notes.refs.blob.len(),
        run(section_parts(f, d), 11).len() == run(section_parts(f, d), 10).len() + gap(d.notes.ref_end, d.notes.dir_base).len(),
        run(section_parts(f, d), 12).len() == run(section_parts(f, d), 11).len() + d.notes.dirs.blob.len(),
        run(section_parts(f, d), 13).len() == run(section_parts(f, d), 12).len() + d.tail.arrays.blob.len(),
        run(section_parts(f, d), 14).len() == run(section_parts(f, d), 13).len() + gap(d.tail.array_end, d.tail.list_base).len(),
        run(section_parts(f, d), 15).len() == run(section_parts(f, d), 14).len() + f.lists.blob.len(),
        run(section_parts(f, d), 16).len() == run(section_parts(f, d), 15).len() + gap(d.tail.list_end, d.tail.map_base).len(),
{
    reveal(section_parts);
    let parts = section_parts(f, d);
    assert(run(parts, 1) == run(parts, 0) + parts[0]);
    assert(run(parts, 2) == run(parts, 1) + parts[1]);
    assert(run(parts, 3) == run(parts, 2) + parts[2]);
    assert(run(parts, 4) == run(parts, 3) + parts[3]);
    assert(run(parts, 5) == run(parts, 4) + parts[4]);
    assert(run(parts, 6) == run(parts, 5) + parts[5]);
    assert(run(parts, 7) == run(parts, 6) + parts[6]);
    assert(run(parts, 8) == run(parts, 7) + parts[7]);
    assert(run(parts, 9) == run(parts, 8) + parts[8]);
    assert(run(parts, 10) == run(parts, 9) + parts[9]);
    assert(run(parts, 11) == run(parts, 10) + parts[10]);
    assert(run(parts, 12) == run(parts, 11) + parts[11]);
    assert(run(parts, 13) == run(parts, 12) + parts[12]);
    assert(run(parts, 14) == run(parts, 13) + parts[13]);
    assert(run(parts, 15) == run(parts, 14) + parts[14]);
    assert(run(parts, 16) == run(parts, 15) + parts[15]);
}

proof fn lemma_data_tracks(dex: DexFile, config: EmitConfig, f: Front, off: u32, d: Data, len: int)
    requires
        data(dex, config, f, off) == Ok::<Data, DexEmitError>(d),
        tracks(len, off),
    ensures
        tracks(len + run(section_parts(f, d), 0).len(), off),
        tracks(len + run(section_parts(f, d), 1).len(), d.string_end),
        tracks(len + run(section_parts(f, d), 2).len(), d.bodies.code_base),
        tracks(len + run(section_parts(f, d), 3).len(), d.bodies.debug_base),
        tracks(len + run(section_parts(f, d), 4).len(), d.bodies.class_base),
        tracks(len + run(section_parts(f, d), 5).len(), d.notes.item_base),
        tracks(len + run(section_parts(f, d), 6).len(), d.notes.item_end),
        tracks(len + run(section_parts(f, d), 7).len(), d.notes.set_base),
        tracks(len + run(section_parts(f, d), 8).len(), d.notes.set_end),
        tracks(len + run(section_parts(f, d), 9).len(), d.notes.ref_base),
        tracks(len + run(section_parts(f, d), 10).len(), d.notes.ref_end),
        tracks(len + run(section_parts(f, d), 11).len(), d.notes.dir_base),
        tracks(len + run(section_parts(f, d), 12).len(), d.tail.array_base),
        tracks(len + run(section_parts(f, d), 13).len(), d.tail.array_end),
        tracks(len + run(section_parts(f, d), 14).len(), d.tail.list_base),
        tracks(len + run(section_parts(f, d), 15).len(), d.tail.list_end),
        tracks(len + run(section_parts(f, d), 16).len(), d.tail.map_base),
{
    lemma_pieces(dex, config, f, off, d);
    lemma_section_lens(f, d);
    let n1 = len + f.string_data.len();
    lemma_tracks_part(len, off, f.string_data.len());
    lemma_bodies_track(dex, f, d.string_end, d.bodies, n1);
    let n5 = n1 + gap(d.string_end, d.bodies.code_base).len() + d.bodies.code.len()
        + f.debug.blob.len() + d.bodies.classes.blob.len();
    lemma_notes_track(dex, d.bodies.end, d.notes, n5);
    let a = d.notes;
    let n12 = n5 + a.items.blob.len() + gap(a.item_end, a.set_base).len() + a.sets.blob.len() + gap(
        a.set_end,
        a.ref_base,
    ).len() + a.refs.blob.len() + gap(a.ref_end, a.dir_base).len() + a.dirs.blob.len();
    lemma_tail_tracks(dex, config, f.lists, a.dir_end, d.tail, n12);
}

// The header

/// A number among many that take 32 bits each reads back.
pub proof fn words_read_back(v: Seq<u32>, n: nat, i: int)
    requires
        0 <= i < n <= v.len(),
    ensures
        words(v, n).len() == 4 * n,
        read_le32(words(v, n), 4 * i) == v[i],
    decreases n,
{
    let before = words(v, (n - 1) as nat);
    words_len(v, n);
    words_len(v, (n - 1) as nat);
    if i < n - 1 {
        words_read_back(v, (n - 1) as nat, i);
        assert(words(v, n)[4 * i] == before[4 * i]);
        assert(words(v, n)[4 * i + 1] == before[4 * i + 1]);
        assert(words(v, n)[4 * i + 2] == before[4 * i + 2]);
        assert(words(v, n)[4 * i + 3] == before[4 * i + 3]);
    } else {
        le32_reads_back(before, v[i], Seq::empty());
        assert(before + le32(v[i]) + Seq::<u8>::empty() =~= words(v, n));
    }
}

/// The numbers in the header behind the digest.
pub open spec fn header_words(l: HeaderLayout) -> Seq<u32> {
    seq![
        l.file_size,
        112,
        0x1234_5678,
        0,
        0,
        l.map_off,
        l.string_ids_size,
        l.string_ids_off,
        l.type_ids_size,
        l.type_ids_off,
        l.proto_ids_size,
        l.proto_ids_off,
        l.field_ids_size,
        l.field_ids_off,
        l.method_ids_size,
        l.method_ids_off,
        l.class_defs_size,
        l.class_defs_off,
        l.data_size,
        l.data_off,
    ]
}

proof fn lemma_next_word(v: Seq<u32>, n: nat, before: Seq<u8>, these: Seq<u8>)
    requires
        words(v, n) == before + these,
    ensures
        words(v, n + 1) == before + (these + le32(v[n as int])),
{
    assert(words(v, n + 1) =~= before + (these + le32(v[n as int])));
}

proof fn lemma_header_words(l: HeaderLayout)
    ensures
        header_middle(l) + header_pools(l) == words(header_words(l), 20),
{
    let v = header_words(l);
    assert(words(v, 0) =~= Seq::empty());
    assert(words(v, 1) =~= le32(v[0]));
    assert(words(v, 6) == header_middle(l)) by {
        reveal_with_fuel(words, 6);
    }
    assert(words(v, 7) =~= header_middle(l) + le32(v[6]));
    let p7 = le32(v[6]);
    lemma_next_word(v, 7, header_middle(l), p7);
    let p8 = p7 + le32(v[7]);
    lemma_next_word(v, 8, header_middle(l), p8);
    let p9 = p8 + le32(v[8]);
    lemma_next_word(v, 9, header_middle(l), p9);
    let p10 = p9 + le32(v[9]);
    lemma_next_word(v, 10, header_middle(l), p10);
    let p11 = p10 + le32(v[10]);
    lemma_next_word(v, 11, header_middle(l), p11);
    let p12 = p11 + le32(v[11]);
    lemma_next_word(v, 12, header_middle(l), p12);
    let p13 = p12 + le32(v[12]);
    lemma_next_word(v, 13, header_middle(l), p13);
    let p14 = p13 + le32(v[13]);
    lemma_next_word(v, 14, header_middle(l), p14);
    let p15 = p14 + le32(v[14]);
    lemma_next_word(v, 15, header_middle(l), p15);
    let p16 = p15 + le32(v[15]);
    lemma_next_word(v, 16, header_middle(l), p16);
    let p17 = p16 + le32(v[16]);
    lemma_next_word(v, 17, header_middle(l), p17);
    let p18 = p17 + le32(v[17]);
    lemma_next_word(v, 18, header_middle(l), p18);
    let p19 = p18 + le32(v[18]);
    lemma_next_word(v, 19, header_middle(l), p19);
    let p20 = p19 + le32(v[19]);
    assert(p20 == header_pools(l));
}

/// The header takes 112 bytes. It starts with the magic bytes and the version, has
/// zeros for checksum and digest, and each of its numbers reads back.
pub proof fn header_reads_back(l: HeaderLayout, i: int)
    requires
        0 <= i < 20,
    ensures
        header_bytes(l).len() == DEX_HEADER_SIZE,
        header_bytes(l).take(8) == seq![0x64u8, 0x65u8, 0x78u8, 0x0Au8] + l.version@ + seq![0u8],
        header_bytes(l).subrange(8, 32) == zeros(24),
        read_le32(header_bytes(l), 32 + 4 * i) == header_words(l)[i],
{
    reveal(header_bytes);
    let ws = words(header_words(l), 20);
    let h = header_bytes(l);
    lemma_header_words(l);
    words_read_back(header_words(l), 20, i);
    assert(l.version@.len() == 3);
    let f = header_front(l.version@);
    assert(f.len() == 32);
    assert(h =~= f + ws);
    assert(h.take(8) =~= seq![0x64u8, 0x65u8, 0x78u8, 0x0Au8] + l.version@ + seq![0u8]);
    assert(h.subrange(8, 32) =~= zeros(24));
    assert(h[32 + 4 * i] == ws[4 * i]);
    assert(h[32 + 4 * i + 1] == ws[4 * i + 1]);
    assert(h[32 + 4 * i + 2] == ws[4 * i + 2]);
    assert(h[32 + 4 * i + 3] == ws[4 * i + 3]);
}

/// Sealing a file replaces only the checksum and the digest.
pub proof fn sealing_keeps_the_rest(dex: DexFile, config: EmitConfig, file: Seq<u8>)
    requires
        file.len() >= 32,
    ensures
        sealed(dex, config, file).len() == file.len(),
        sealed(dex, config, file).take(8) == file.take(8),
        sealed(dex, config, file).skip(32) == file.skip(32),
{
    reveal(sealed);
    assert(sealed(dex, config, file).take(8) =~= file.take(8));
    assert(sealed(dex, config, file).skip(32) =~= file.skip(32));
}

/// The digest of a sealed file covers what follows it, and the checksum covers the
/// digest and what follows it, unless the checksums read were to be kept; then the
/// file holds those.
pub proof fn sealed_checksums(dex: DexFile, config: EmitConfig, file: Seq<u8>)
    requires
        file.len() >= 32,
    ensures
        ({
            let out = sealed(dex, config, file);
            if config.preserve_input_checksums {
                &&& out.subrange(12, 32) == dex.header.signature@
                &&& out.subrange(8, 12) == le32(dex.header.checksum)
            } else {
                &&& out.subrange(12, 32) == digest_of(out.skip(32))
                &&& out.subrange(8, 12) == le32(adler32(out.skip(12)))
            }
        }),
{
    reveal(sealed);
    finalized_file_is_valid(file);
    if config.preserve_input_checksums {
        let out = sealed(dex, config, file);
        assert(dex.header.signature@.len() == 20);
        assert(out.subrange(12, 32) =~= dex.header.signature@);
        assert(out.subrange(8, 12) =~= le32(dex.header.checksum));
    }
}

// The canonical layout

proof fn lemma_all_resolved_len(
    offs: Seq<u32>,
    base: u32,
    remap: Map<u32, u32>,
    missing: &'static str,
    section: &'static str,
    context: &'static str,
    i: nat,
    acc: Seq<u32>,
)
    requires
        i <= offs.len(),
        all_resolved(offs, base, remap, missing, section, context, i, acc) is Ok,
    ensures
        all_resolved(offs, base, remap, missing, section, context, i, acc)->Ok_0.len() == acc.len()
            + offs.len() - i,
    decreases offs.len() - i,
{
    if i < offs.len() {
        let p = resolved(offs[i as int], base, remap, missing, section, context)->Ok_0;
        lemma_all_resolved_len(offs, base, remap, missing, section, context, i + 1, acc.push(p));
    }
}

/// Where the id pools go in the canonical layout.
pub open spec fn canonical_places(dex: DexFile, f: Front) -> Result<PoolPlaces, DexEmitError> {
    pool_layout(pool_sizes(dex, f.string_ids, f.types, f.fields, f.methods), false)
}

/// The pool `part` stands at `at`, which is 0 where it is empty.
pub open spec fn pool_at(file: Seq<u8>, at: u32, part: Seq<u8>) -> bool {
    if part.len() == 0 {
        at == 0
    } else {
        holds_at(file, at as int, part)
    }
}

proof fn lemma_pool_tracks(
    dex: DexFile,
    header: Seq<u8>,
    f: Front,
    d: Data,
    p: PoolPlaces,
    protos: Seq<u8>,
    classes: Seq<u8>,
)
    requires
        canonical_places(dex, f) == Ok::<PoolPlaces, DexEmitError>(p),
        header.len() == DEX_HEADER_SIZE,
        f.string_ids.len() % 4 == 0,
        protos.len() == 12 * dex.protos@.len(),
        classes.len() == 32 * dex.class_defs@.len(),
        d.tail.call_sites.len() == dex.call_site_ids@.len(),
    ensures
        ({
            let parts = pool_parts(dex, header, f, d, p.data_off, protos, classes);
            &&& if parts[1].len() == 0 {
                p.string_ids_off == 0
            } else {
                tracks(run(parts, 1).len() as int, p.string_ids_off)
            }
            &&& if parts[2].len() == 0 {
                p.type_ids_off == 0
            } else {
                tracks(run(parts, 2).len() as int, p.type_ids_off)
            }
            &&& if parts[3].len() == 0 {
                p.proto_ids_off == 0
            } else {
                tracks(run(parts, 3).len() as int, p.proto_ids_off)
            }
            &&& if parts[4].len() == 0 {
                p.field_ids_off == 0
            } else {
                tracks(run(parts, 4).len() as int, p.field_ids_off)
            }
            &&& if parts[5].len() == 0 {
                p.method_ids_off == 0
            } else {
                tracks(run(parts, 5).len() as int, p.method_ids_off)
            }
            &&& if parts[6].len() == 0 {
                p.class_defs_off == 0
            } else {
                tracks(run(parts, 6).len() as int, p.class_defs_off)
            }
            &&& if parts[7].len() == 0 {
                p.call_site_ids_off == 0
            } else {
                tracks(run(parts, 7).len() as int, p.call_site_ids_off)
            }
            &&& if parts[8].len() == 0 {
                p.method_handles_off == 0
            } else {
                tracks(run(parts, 8).len() as int, p.method_handles_off)
            }
            &&& tracks(run(parts, 9).len() as int, p.data_off)
        }),
{
    reveal(pool_parts);
    let parts = pool_parts(dex, header, f, d, p.data_off, protos, classes);
    let s = pool_sizes(dex, f.string_ids, f.types, f.fields, f.methods);
    lifted_len(f.string_ids, p.data_off, f.string_ids.len() / 4);
    words_len(d.tail.call_sites, d.tail.call_sites.len());
    method_handles_len(dex.method_handles@, dex.method_handles@.len());
    assert(run(parts, 0).len() == 0);
    assert(run(parts, 1) == run(parts, 0) + parts[0]);
    let mut off: u32 = DEX_HEADER_SIZE;
    assert(run(parts, 2) == run(parts, 1) + parts[1]);
    assert(parts[1].len() == s.strings);
    lemma_tracks_part(run(parts, 1).len() as int, off, parts[1].len());
    off = sat32(off + s.strings);
    assert(run(parts, 3) == run(parts, 2) + parts[2]);
    assert(parts[2].len() == s.types);
    lemma_tracks_part(run(parts, 2).len() as int, off, parts[2].len());
    off = sat32(off + s.types);
    assert(run(parts, 4) == run(parts, 3) + parts[3]);
    assert(parts[3].len() == s.protos);
    lemma_tracks_part(run(parts, 3).len() as int, off, parts[3].len());
    off = sat32(off + s.protos);
    assert(run(parts, 5) == run(parts, 4) + parts[4]);
    assert(parts[4].len() == s.fields);
    lemma_tracks_part(run(parts, 4).len() as int, off, parts[4].len());
    off = sat32(off + s.fields);
    assert(run(parts, 6) == run(parts, 5) + parts[5]);
    assert(parts[5].len() == s.methods);
    lemma_tracks_part(run(parts, 5).len() as int, off, parts[5].len());
    off = sat32(off + s.methods);
    assert(run(parts, 7) == run(parts, 6) + parts[6]);
    assert(parts[6].len() == s.classes);
    lemma_tracks_part(run(parts, 6).len() as int, off, parts[6].len());
    off = sat32(off + s.classes);
    assert(run(parts, 8) == run(parts, 7) + parts[7]);
    assert(parts[7].len() == s.call_sites);
    lemma_tracks_part(run(parts, 7).len() as int, off, parts[7].len());
    off = sat32(off + s.call_sites);
    assert(run(parts, 9) == run(parts, 8) + parts[8]);
    assert(parts[8].len() == s.handles);
    lemma_tracks_part(run(parts, 8).len() as int, off, parts[8].len());
    off = sat32(off + s.handles);
}

/// The parts of a file in the canonical layout before it is sealed.
pub struct Parts {
    pub front: Front,
    pub places: PoolPlaces,
    pub data: Data,
    pub map: Seq<u8>,
    pub protos: Seq<u8>,
    pub classes: Seq<u8>,
}

/// The parts that a file in the canonical layout is made of.
#[verifier::opaque]
pub open spec fn canonical_parts(dex: DexFile, config: EmitConfig) -> Parts {
    let front = front(dex)->Ok_0;
    let places = canonical_places(dex, front)->Ok_0;
    let data = data(dex, config, front, places.data_off)->Ok_0;
    let links = data_links(front, data);
    Parts {
        front,
        places,
        data,
        map: layout_map(dex, config, places, data)->Ok_0,
        protos: linked_protos(dex.protos@, links.lists)->Ok_0,
        classes: linked_classes(dex.class_defs@, links)->Ok_0,
    }
}

/// What the header of a file of `size` bytes in the canonical layout says.
#[verifier::opaque]
pub open spec fn canonical_header(dex: DexFile, c: Parts, size: nat) -> HeaderLayout {
    header_layout(
        dex,
        c.places,
        size as u32,
        c.data.tail.map_base,
        c.places.data_off,
        (size - c.places.data_off) as u32,
    )
}

/// Every step of the canonical layout succeeded where the whole did.
pub proof fn canonical_steps(dex: DexFile, config: EmitConfig)
    requires
        canonical_file(dex, config) is Ok,
    ensures
        ({
            let c = canonical_parts(dex, config);
            &&& front(dex) == Ok::<Front, DexEmitError>(c.front)
            &&& canonical_places(dex, c.front) == Ok::<PoolPlaces, DexEmitError>(c.places)
            &&& data(dex, config, c.front, c.places.data_off) == Ok::<Data, DexEmitError>(c.data)
            &&& canonical_file(dex, config) == joined(dex, config, c.front, c.places, c.data)
        }),
{
    reveal(canonical_file);
    reveal(canonical_parts);
}

proof fn lemma_call_sites(dex: DexFile, config: EmitConfig, f: Front, off: u32, d: Data)
    requires
        data(dex, config, f, off) == Ok::<Data, DexEmitError>(d),
    ensures
        d.tail.call_sites.len() == dex.call_site_ids@.len(),
{
    reveal(data);
    lemma_all_resolved_len(
        dex.call_site_ids@,
        d.tail.array_base,
        d.tail.arrays.remap,
        "call_site_id references encoded_array not in dex.encoded_arrays",
        "call_site_id",
        "absolute offset overflow",
        0,
        Seq::empty(),
    );
}

proof fn lemma_string_ids(dex: DexFile, f: Front)
    requires
        front(dex) == Ok::<Front, DexEmitError>(f),
    ensures
        f.string_ids.len() == 4 * dex.strings@.len(),
{
    reveal(front);
    string_ids_len(stored(dex.strings@), dex.strings@.len());
}

/// A file in the canonical layout before it is sealed, with its header.
spec fn unsealed(dex: DexFile, f: Front, p: PoolPlaces, d: Data, map: Seq<u8>) -> (
    Seq<u8>,
    Seq<u8>,
) {
    let links = data_links(f, d);
    let protos = linked_protos(dex.protos@, links.lists)->Ok_0;
    let classes = linked_classes(dex.class_defs@, links)->Ok_0;
    let file_size = sat32(d.tail.map_base + map.len());
    let data_size = if file_size >= p.data_off {
        (file_size - p.data_off) as u32
    } else {
        0
    };
    let header = header_of(dex, p, file_size, d.tail.map_base, p.data_off, data_size);
    (
        pool_bytes(dex, header, f, d, p.data_off, protos, classes) + section_bytes(f, d) + map,
        header,
    )
}

proof fn lemma_joined(dex: DexFile, config: EmitConfig, f: Front, p: PoolPlaces, d: Data)
    requires
        joined(dex, config, f, p, d) is Ok,
    ensures
        ({
            let map = layout_map(dex, config, p, d)->Ok_0;
            let links = data_links(f, d);
            let (whole, header) = unsealed(dex, f, p, d, map);
            &&& joined(dex, config, f, p, d)->Ok_0.bytes == sealed(dex, config, whole)
            &&& whole.len() == sat32(d.tail.map_base + map.len())
            &&& linked_protos(dex.protos@, links.lists) is Ok
            &&& linked_classes(dex.class_defs@, links) is Ok
        }),
{
    reveal(joined);
}

proof fn lemma_canonical(dex: DexFile, config: EmitConfig) -> (r: (Seq<u8>, Seq<u8>))
    requires
        canonical_file(dex, config) is Ok,
    ensures
        ({
            let c = canonical_parts(dex, config);
            let (whole, header) = r;
            let pools = pool_parts(
                dex,
                header,
                c.front,
                c.data,
                c.places.data_off,
                c.protos,
                c.classes,
            );
            let secs = section_parts(c.front, c.data);
            &&& canonical_file(dex, config)->Ok_0.bytes == sealed(dex, config, whole)
            &&& whole == run(pools, 9) + run(secs, 16) + c.map
            &&& pools.len() == 9
            &&& pools[0] == header
            &&& secs.len() == 16
            &&& whole.len() <= u32::MAX
            &&& header == header_of(
                dex,
                c.places,
                whole.len() as u32,
                c.data.tail.map_base,
                c.places.data_off,
                if whole.len() >= c.places.data_off {
                    (whole.len() - c.places.data_off) as u32
                } else {
                    0
                },
            )
            &&& whole.len() == sat32(c.data.tail.map_base + c.map.len())
            &&& canonical_places(dex, c.front) == Ok::<PoolPlaces, DexEmitError>(c.places)
            &&& data(dex, config, c.front, c.places.data_off) == Ok::<Data, DexEmitError>(c.data)
            &&& c.protos.len() == 12 * dex.protos@.len()
            &&& c.classes.len() == 32 * dex.class_defs@.len()
            &&& c.front.string_ids.len() % 4 == 0
            &&& c.data.tail.call_sites.len() == dex.call_site_ids@.len()
        }),
{
    reveal(canonical_parts);
    let c = canonical_parts(dex, config);
    canonical_steps(dex, config);
    lemma_joined(dex, config, c.front, c.places, c.data);
    linked_pools_len(dex.protos@, dex.class_defs@, data_links(c.front, c.data));
    lemma_string_ids(dex, c.front);
    lemma_call_sites(dex, config, c.front, c.places.data_off, c.data);
    let r = unsealed(dex, c.front, c.places, c.data, c.map);
    lemma_pool_parts(dex, r.1, c.front, c.data, c.places.data_off, c.protos, c.classes);
    lemma_section_parts(c.front, c.data);
    r
}

/// What stands behind the checksums stands there still when the file is sealed.
pub proof fn sealing_keeps_parts(
    dex: DexFile,
    config: EmitConfig,
    file: Seq<u8>,
    at: int,
    part: Seq<u8>,
)
    requires
        file.len() >= 32,
        at >= 32,
        holds_at(file, at, part),
    ensures
        holds_at(sealed(dex, config, file), at, part),
{
    sealing_keeps_the_rest(dex, config, file);
    let out = sealed(dex, config, file);
    assert forall|i: int| at <= i < at + part.len() implies out[i] == file[i] by {
        assert(out.skip(32)[i - 32] == file.skip(32)[i - 32]);
    }
    assert(out.subrange(at, at + part.len()) =~= file.subrange(at, at + part.len()));
}

/// What stands in the sections behind the pools stands in the sealed file.
proof fn lemma_section_at(
    dex: DexFile,
    config: EmitConfig,
    pools: Seq<u8>,
    secs: Seq<Seq<u8>>,
    map: Seq<u8>,
    k: nat,
    off: u32,
)
    requires
        secs.len() == 16,
        k < 16,
        pools.len() >= DEX_HEADER_SIZE,
        (pools + run(secs, 16) + map).len() <= u32::MAX,
        tracks((pools.len() + run(secs, k).len()) as int, off),
    ensures
        holds_at(sealed(dex, config, pools + run(secs, 16) + map), off as int, secs[k as int]),
{
    let whole = pools + run(secs, 16) + map;
    lemma_run_grows(secs, k, 16);
    lemma_run_part(secs, k, 16);
    lemma_holds_behind(pools, run(secs, 16), map, run(secs, k).len() as int, secs[k as int]);
    sealing_keeps_parts(dex, config, whole, off as int, secs[k as int]);
}

/// The map list stands at the end of the sealed file.
proof fn lemma_map_at(
    dex: DexFile,
    config: EmitConfig,
    pools: Seq<u8>,
    secs: Seq<u8>,
    map: Seq<u8>,
    off: u32,
)
    requires
        pools.len() >= DEX_HEADER_SIZE,
        (pools + secs + map).len() <= u32::MAX,
        tracks((pools.len() + secs.len()) as int, off),
    ensures
        holds_at(sealed(dex, config, pools + secs + map), off as int, map),
        sealed(dex, config, pools + secs + map).len() == off + map.len(),
{
    let whole = pools + secs + map;
    assert(whole.subrange(off as int, off + map.len()) =~= map);
    sealing_keeps_parts(dex, config, whole, off as int, map);
    sealing_keeps_the_rest(dex, config, whole);
}

/// What a pool behind the header holds stands in the sealed file.
proof fn lemma_pool_at(
    dex: DexFile,
    config: EmitConfig,
    pools: Seq<Seq<u8>>,
    secs: Seq<u8>,
    map: Seq<u8>,
    k: nat,
    off: u32,
)
    requires
        pools.len() == 9,
        1 <= k < 9,
        pools[0].len() == DEX_HEADER_SIZE,
        (run(pools, 9) + secs + map).len() <= u32::MAX,
        if pools[k as int].len() == 0 {
            off == 0
        } else {
            tracks(run(pools, k).len() as int, off)
        },
    ensures
        pool_at(sealed(dex, config, run(pools, 9) + secs + map), off, pools[k as int]),
{
    let whole = run(pools, 9) + secs + map;
    if pools[k as int].len() > 0 {
        lemma_run_grows(pools, 1, k);
        assert(run(pools, 1).len() == DEX_HEADER_SIZE) by {
            assert(run(pools, 1) == run(pools, 0) + pools[0]);
        }
        lemma_run_part(pools, k, 9);
        lemma_holds_behind(Seq::empty(), run(pools, 9), secs + map, off as int, pools[k as int]);
        assert(Seq::<u8>::empty() + run(pools, 9) + (secs + map) =~= whole);
        sealing_keeps_parts(dex, config, whole, off as int, pools[k as int]);
    }
}

/// Everything about the parts that the places are computed from.
proof fn lemma_places(dex: DexFile, config: EmitConfig) -> (r: (Seq<u8>, Seq<u8>))
    requires
        canonical_file(dex, config) is Ok,
    ensures
        ({
            let c = canonical_parts(dex, config);
            let (whole, header) = r;
            let pools = pool_parts(
                dex,
                header,
                c.front,
                c.data,
                c.places.data_off,
                c.protos,
                c.classes,
            );
            let secs = section_parts(c.front, c.data);
            &&& canonical_file(dex, config)->Ok_0.bytes == sealed(dex, config, whole)
            &&& whole == run(pools, 9) + run(secs, 16) + c.map
            &&& pools.len() == 9
            &&& pools[0] == header
            &&& secs.len() == 16
            &&& DEX_HEADER_SIZE <= c.places.data_off <= whole.len() <= u32::MAX
            &&& whole.len() == c.data.tail.map_base + c.map.len()
            &&& header == header_bytes(canonical_header(dex, c, whole.len()))
            &&& header.len() == DEX_HEADER_SIZE
            &&& run(pools, 9).len() >= DEX_HEADER_SIZE
            &&& canonical_places(dex, c.front) == Ok::<PoolPlaces, DexEmitError>(c.places)
            &&& data(dex, config, c.front, c.places.data_off) == Ok::<Data, DexEmitError>(c.data)
            &&& tracks(run(pools, 9).len() as int, c.places.data_off)
            &&& c.protos.len() == 12 * dex.protos@.len()
            &&& c.classes.len() == 32 * dex.class_defs@.len()
            &&& c.front.string_ids.len() % 4 == 0
            &&& c.data.tail.call_sites.len() == dex.call_site_ids@.len()
        }),
{
    reveal(header_of);
    let c = canonical_parts(dex, config);
    let (whole, header) = lemma_canonical(dex, config);
    let pools = pool_parts(dex, header, c.front, c.data, c.places.data_off, c.protos, c.classes);
    assert(header.len() == DEX_HEADER_SIZE) by {
        let data_size = if whole.len() >= c.places.data_off {
            (whole.len() - c.places.data_off) as u32
        } else {
            0
        };
        header_reads_back(
            header_layout(
                dex,
                c.places,
                whole.len() as u32,
                c.data.tail.map_base,
                c.places.data_off,
                data_size,
            ),
            0,
        );
    }
    assert(run(pools, 9).len() >= DEX_HEADER_SIZE) by {
        lemma_run_grows(pools, 1, 9);
        assert(run(pools, 1) == run(pools, 0) + pools[0]);
    }
    assert(tracks(run(pools, 9).len() as int, c.places.data_off)) by {
        lemma_pool_tracks(dex, header, c.front, c.data, c.places, c.protos, c.classes);
    }
    let secs = section_parts(c.front, c.data);
    assert(tracks((run(pools, 9).len() + run(secs, 16).len()) as int, c.data.tail.map_base)) by {
        lemma_data_tracks(
            dex,
            config,
            c.front,
            c.places.data_off,
            c.data,
            run(pools, 9).len() as int,
        );
    }
    reveal(canonical_header);
    (whole, header)
}

/// In a file in the canonical layout every section stands at the offset computed
/// for it: the string data where the data starts, and the map list at the end.
pub proof fn canonical_sections_stand(dex: DexFile, config: EmitConfig)
    requires
        canonical_file(dex, config) is Ok,
    ensures
        ({
            let c = canonical_parts(dex, config);
            let d = c.data;
            let out = canonical_file(dex, config)->Ok_0.bytes;
            &&& holds_at(out, c.places.data_off as int, c.front.string_data)
            &&& holds_at(out, d.bodies.code_base as int, d.bodies.code)
            &&& holds_at(out, d.bodies.debug_base as int, c.front.debug.blob)
            &&& holds_at(out, d.bodies.class_base as int, d.bodies.classes.blob)
            &&& holds_at(out, d.notes.item_base as int, d.notes.items.blob)
            &&& holds_at(out, d.notes.set_base as int, d.notes.sets.blob)
            &&& holds_at(out, d.notes.ref_base as int, d.notes.refs.blob)
            &&& holds_at(out, d.notes.dir_base as int, d.notes.dirs.blob)
            &&& holds_at(out, d.tail.array_base as int, d.tail.arrays.blob)
            &&& holds_at(out, d.tail.list_base as int, c.front.lists.blob)
            &&& holds_at(out, d.tail.map_base as int, c.map)
            &&& out.len() == d.tail.map_base + c.map.len()
        }),
{
    reveal(section_parts);
    let c = canonical_parts(dex, config);
    let d = c.data;
    let (whole, header) = lemma_places(dex, config);
    let pools = run(
        pool_parts(dex, header, c.front, d, c.places.data_off, c.protos, c.classes),
        9,
    );
    let secs = section_parts(c.front, d);
    lemma_data_tracks(dex, config, c.front, c.places.data_off, d, pools.len() as int);
    lemma_section_at(dex, config, pools, secs, c.map, 0, c.places.data_off);
    lemma_section_at(dex, config, pools, secs, c.map, 2, d.bodies.code_base);
    lemma_section_at(dex, config, pools, secs, c.map, 3, d.bodies.debug_base);
    lemma_section_at(dex, config, pools, secs, c.map, 4, d.bodies.class_base);
    lemma_section_at(dex, config, pools, secs, c.map, 5, d.notes.item_base);
    lemma_section_at(dex, config, pools, secs, c.map, 7, d.notes.set_base);
    lemma_section_at(dex, config, pools, secs, c.map, 9, d.notes.ref_base);
    lemma_section_at(dex, config, pools, secs, c.map, 11, d.notes.dir_base);
    lemma_section_at(dex, config, pools, secs, c.map, 12, d.tail.array_base);
    lemma_section_at(dex, config, pools, secs, c.map, 14, d.tail.list_base);
    lemma_map_at(dex, config, pools, run(secs, 16), c.map, d.tail.map_base);
}

/// The header of a file in the canonical layout: the magic bytes, then numbers that
/// give the length of the file, the place of the map list, and the size and place
/// of each pool and of the data.
pub proof fn canonical_header_describes_the_file(dex: DexFile, config: EmitConfig, i: int)
    requires
        canonical_file(dex, config) is Ok,
        0 <= i < 20,
    ensures
        ({
            let c = canonical_parts(dex, config);
            let out = canonical_file(dex, config)->Ok_0.bytes;
            let header = canonical_header(dex, c, out.len());
            &&& DEX_HEADER_SIZE <= c.places.data_off <= out.len() <= u32::MAX
            &&& out.take(8) == seq![0x64u8, 0x65u8, 0x78u8, 0x0Au8] + header.version@ + seq![0u8]
            &&& read_le32(out, 32 + 4 * i) == header_words(header)[i]
        }),
{
    let c = canonical_parts(dex, config);
    let (whole, header) = lemma_places(dex, config);
    sealing_keeps_the_rest(dex, config, whole);
    let out = canonical_file(dex, config)->Ok_0.bytes;
    let l = canonical_header(dex, c, out.len());
    assert(header == header_bytes(l));
    header_reads_back(l, i);
    let pools = pool_parts(dex, header, c.front, c.data, c.places.data_off, c.protos, c.classes);
    lemma_run_grows(pools, 1, 9);
    assert(run(pools, 1) =~= header) by {
        assert(run(pools, 1) == run(pools, 0) + pools[0]);
    }
    assert forall|j: int| 0 <= j < 112 implies whole[j] == header[j] by {
        assert(run(pools, 9)[j] == run(pools, 9).take(112)[j]);
    }
    assert(out.take(8) =~= header.take(8)) by {
        assert forall|j: int| 0 <= j < 8 implies out[j] == header[j] by {
            assert(out.take(8)[j] == whole.take(8)[j]);
        }
    }
    assert forall|j: int| 32 <= j < 112 implies out[j] == header[j] by {
        assert(out.skip(32)[j - 32] == whole.skip(32)[j - 32]);
    }
}

/// In a file in the canonical layout every pool stands at the offset that the header
/// or the map list gives for it, which is 0 for an empty pool.
pub proof fn canonical_pools_stand(dex: DexFile, config: EmitConfig)
    requires
        canonical_file(dex, config) is Ok,
    ensures
        ({
            let c = canonical_parts(dex, config);
            let f = c.front;
            let p = c.places;
            let sites = c.data.tail.call_sites;
            let handles = dex.method_handles@;
            let out = canonical_file(dex, config)->Ok_0.bytes;
            &&& pool_at(
                out,
                p.string_ids_off,
                lifted(f.string_ids, p.data_off, f.string_ids.len() / 4),
            )
            &&& pool_at(out, p.type_ids_off, f.types)
            &&& pool_at(out, p.proto_ids_off, c.protos)
            &&& pool_at(out, p.field_ids_off, f.fields)
            &&& pool_at(out, p.method_ids_off, f.methods)
            &&& pool_at(out, p.class_defs_off, c.classes)
            &&& pool_at(out, p.call_site_ids_off, words(sites, sites.len()))
            &&& pool_at(out, p.method_handles_off, method_handles(handles, handles.len()))
        }),
{
    reveal(pool_parts);
    let c = canonical_parts(dex, config);
    let (whole, header) = lemma_places(dex, config);
    let p = c.places;
    let pools = pool_parts(dex, header, c.front, c.data, p.data_off, c.protos, c.classes);
    let secs = run(section_parts(c.front, c.data), 16);
    lemma_pool_tracks(dex, header, c.front, c.data, p, c.protos, c.classes);
    lemma_pool_at(dex, config, pools, secs, c.map, 1, p.string_ids_off);
    lemma_pool_at(dex, config, pools, secs, c.map, 2, p.type_ids_off);
    lemma_pool_at(dex, config, pools, secs, c.map, 3, p.proto_ids_off);
    lemma_pool_at(dex, config, pools, secs, c.map, 4, p.field_ids_off);
    lemma_pool_at(dex, config, pools, secs, c.map, 5, p.method_ids_off);
    lemma_pool_at(dex, config, pools, secs, c.map, 6, p.class_defs_off);
    lemma_pool_at(dex, config, pools, secs, c.map, 7, p.call_site_ids_off);
    lemma_pool_at(dex, config, pools, secs, c.map, 8, p.method_handles_off);
}

/// The checksums of a file in the canonical layout are right, or are those read
/// where they were to be kept.
pub proof fn canonical_checksums(dex: DexFile, config: EmitConfig)
    requires
        canonical_file(dex, config) is Ok,
    ensures
        ({
            let out = canonical_file(dex, config)->Ok_0.bytes;
            if config.preserve_input_checksums {
                &&& out.subrange(12, 32) == dex.header.signature@
                &&& out.subrange(8, 12) == le32(dex.header.checksum)
            } else {
                &&& out.subrange(12, 32) == digest_of(out.skip(32))
                &&& out.subrange(8, 12) == le32(adler32(out.skip(12)))
            }
        }),
{
    let (whole, _) = lemma_places(dex, config);
    sealed_checksums(dex, config, whole);
}

/// The links of a file in the canonical layout could all be made.
pub proof fn canonical_links(dex: DexFile, config: EmitConfig)
    requires
        canonical_file(dex, config) is Ok,
    ensures
        ({
            let c = canonical_parts(dex, config);
            let links = data_links(c.front, c.data);
            &&& linked_protos(dex.protos@, links.lists) == Ok::<Seq<u8>, DexEmitError>(c.protos)
            &&& linked_classes(dex.class_defs@, links) == Ok::<Seq<u8>, DexEmitError>(c.classes)
        }),
{
    let c = canonical_parts(dex, config);
    canonical_steps(dex, config);
    lemma_joined(dex, config, c.front, c.places, c.data);
    reveal(canonical_parts);
}

// What is refused

/// How many bytes the header, the id pools, the sections with the gaps between them and the map
/// list take together.
pub open spec fn bytes_in_all(dex: DexFile, f: Front, d: Data, map: Seq<u8>) -> int {
    let pools = 112 + f.string_ids.len() + f.types.len() + 12 * dex.protos@.len() + f.fields.len()
        + f.methods.len() + 32 * dex.class_defs@.len() + 4 * dex.call_site_ids@.len() + 8
        * dex.method_handles@.len();
    let sections = f.string_data.len() + d.bodies.code.len() + f.debug.blob.len()
        + d.bodies.classes.blob.len() + d.notes.items.blob.len() + d.notes.sets.blob.len()
        + d.notes.refs.blob.len() + d.notes.dirs.blob.len() + d.tail.arrays.blob.len()
        + f.lists.blob.len();
    let gaps = (d.bodies.code_base - d.string_end) + (d.notes.set_base - d.notes.item_end) + (
    d.notes.ref_base - d.notes.set_end) + (d.notes.dir_base - d.notes.ref_end) + (
    d.tail.list_base - d.tail.array_end) + (d.tail.map_base - d.tail.list_end);
    pools + sections + gaps + map.len()
}

proof fn lemma_in_sequence(dex: DexFile, config: EmitConfig, f: Front, off: u32, d: Data)
    requires
        data(dex, config, f, off) == Ok::<Data, DexEmitError>(d),
    ensures
        d.string_end <= d.bodies.code_base,
        d.notes.item_end <= d.notes.set_base,
        d.notes.set_end <= d.notes.ref_base,
        d.notes.ref_end <= d.notes.dir_base,
        d.tail.array_end <= d.tail.list_base,
        d.tail.list_end <= d.tail.map_base,
{
    reveal(data);
    aligned_up_is_near(d.string_end);
    aligned_up_is_near(d.notes.item_end);
    aligned_up_is_near(d.notes.set_end);
    aligned_up_is_near(d.notes.ref_end);
    aligned_up_is_near(d.tail.array_end);
    aligned_up_is_near(d.tail.list_end);
}

proof fn lemma_pools_in_all(
    dex: DexFile,
    header: Seq<u8>,
    f: Front,
    d: Data,
    p: PoolPlaces,
    protos: Seq<u8>,
    classes: Seq<u8>,
)
    requires
        header.len() == DEX_HEADER_SIZE,
        f.string_ids.len() % 4 == 0,
        protos.len() == 12 * dex.protos@.len(),
        classes.len() == 32 * dex.class_defs@.len(),
        d.tail.call_sites.len() == dex.call_site_ids@.len(),
    ensures
        run(pool_parts(dex, header, f, d, p.data_off, protos, classes), 9).len() == 112
            + f.string_ids.len() + f.types.len() + 12 * dex.protos@.len() + f.fields.len()
            + f.methods.len() + 32 * dex.class_defs@.len() + 4 * dex.call_site_ids@.len() + 8
            * dex.method_handles@.len(),
{
    reveal(pool_parts);
    let parts = pool_parts(dex, header, f, d, p.data_off, protos, classes);
    lifted_len(f.string_ids, p.data_off, f.string_ids.len() / 4);
    words_len(d.tail.call_sites, d.tail.call_sites.len());
    method_handles_len(dex.method_handles@, dex.method_handles@.len());
    assert(run(parts, 0).len() == 0);
    assert(run(parts, 1) == run(parts, 0) + parts[0]);
    assert(run(parts, 2) == run(parts, 1) + parts[1]);
    assert(run(parts, 3) == run(parts, 2) + parts[2]);
    assert(run(parts, 4) == run(parts, 3) + parts[3]);
    assert(run(parts, 5) == run(parts, 4) + parts[4]);
    assert(run(parts, 6) == run(parts, 5) + parts[5]);
    assert(run(parts, 7) == run(parts, 6) + parts[6]);
    assert(run(parts, 8) == run(parts, 7) + parts[7]);
    assert(run(parts, 9) == run(parts, 8) + parts[8]);
}

/// Once everything has its place, a file in the canonical layout can be put together where its
/// map list can be serialized, what its prototypes and classes refer to has places, and 32 bits
/// can say how long it is.
pub proof fn parts_are_joined_unless_too_long(
    dex: DexFile,
    config: EmitConfig,
    f: Front,
    p: PoolPlaces,
    d: Data,
)
    requires
        front(dex) == Ok::<Front, DexEmitError>(f),
        canonical_places(dex, f) == Ok::<PoolPlaces, DexEmitError>(p),
        data(dex, config, f, p.data_off) == Ok::<Data, DexEmitError>(d),
    ensures
        joined(dex, config, f, p, d) is Ok <==> layout_map(dex, config, p, d) is Ok
            && linked_protos(dex.protos@, data_links(f, d).lists) is Ok && linked_classes(
            dex.class_defs@,
            data_links(f, d),
        ) is Ok && bytes_in_all(dex, f, d, layout_map(dex, config, p, d)->Ok_0) <= u32::MAX,
{
    let links = data_links(f, d);
    let map = layout_map(dex, config, p, d)->Ok_0;
    if layout_map(dex, config, p, d) is Ok && linked_protos(dex.protos@, links.lists) is Ok
        && linked_classes(dex.class_defs@, links) is Ok {
        let protos = linked_protos(dex.protos@, links.lists)->Ok_0;
        let classes = linked_classes(dex.class_defs@, links)->Ok_0;
        let (whole, header) = unsealed(dex, f, p, d, map);
        let secs = section_parts(f, d);
        let pools = pool_parts(dex, header, f, d, p.data_off, protos, classes);
        linked_pools_len(dex.protos@, dex.class_defs@, links);
        lemma_string_ids(dex, f);
        lemma_call_sites(dex, config, f, p.data_off, d);
        lemma_pool_parts(dex, header, f, d, p.data_off, protos, classes);
        lemma_section_parts(f, d);
        lemma_section_lens(f, d);
        lemma_in_sequence(dex, config, f, p.data_off, d);
        let file_size = sat32(d.tail.map_base + map.len());
        let data_size = if file_size >= p.data_off {
            (file_size - p.data_off) as u32
        } else {
            0
        };
        assert(header.len() == DEX_HEADER_SIZE) by {
            reveal(header_of);
            header_reads_back(
                header_layout(dex, p, file_size, d.tail.map_base, p.data_off, data_size),
                0,
            );
        }
        lemma_pools_in_all(dex, header, f, d, p, protos, classes);
        lemma_pool_tracks(dex, header, f, d, p, protos, classes);
        lemma_data_tracks(dex, config, f, p.data_off, d, run(pools, 9).len() as int);
        assert(whole.len() == bytes_in_all(dex, f, d, map));
        reveal(joined);
    } else {
        reveal(joined);
    }
}

} // verus!
