//! What a file says: how its contents read back from its bytes.
use vstd::prelude::*;

use crate::annotation::{AnnotationDirectoryItem, AnnotationItem, EncodedValue};
use crate::bytes::{le32, read_le16, read_le32, zeros};
use crate::collections::sorted_keys;
use crate::decode::{ClassData, CodeItem, EncodedMethod};
use crate::dex_file::DexFile;
use crate::emit_dex::map_type;
use crate::emit_dex::assembly::{extent, extents, file_map, Bases};
use crate::emit_dex::canonical::stored;
use crate::emit_dex::code_item::{code_item, handler_written, insn_stream, insns_extent};
use crate::emit_dex::config::EmitConfig;
use crate::emit_dex::directory::{
    directory_part, field_idxs, field_offs, method_idxs, method_offs, pairs, param_idxs, param_offs,
    part_labels, part_offs, resolved_len, DirectoryPart, Labels, Moved,
};
use crate::emit_dex::error::DexEmitError;
use crate::emit_dex::in_place::annotation_item_kept;
use crate::emit_dex::laws::code::{
    catch_pairs, container_fields_read_back, handler_read, handlers_read_back,
    tries_name_their_handlers, tries_start,
};
use crate::emit_dex::laws::contents::{
    annotation_read, annotations_read_back, list_entry, type_lists_read_back,
};
use crate::emit_dex::laws::map::{
    entry_of, entry_read, map_list_reads_back, the_map_lists_every_section_once,
};
use crate::emit_dex::laws::members::{class_data_reads_back, members_read, number_then_rest};
use crate::emit_dex::laws::notes::{
    directories_read_back, offset_lists_read_back, pairs_read_back, resolved_one_by_one, word_at,
};
use crate::emit_dex::laws::place::{
    half_carries, holding_is_transitive, holds_at, in_front, rest_after, word_carries,
};
use crate::emit_dex::laws::pools::{
    class_read, field_read, handle_read, method_read, proto_read, type_read,
};
use crate::emit_dex::laws::refusals::{
    bodies_placed, body_fits, body_found, moved_methods_have_places, with_places,
};
use crate::emit_dex::laws::sections::type_list_len;
use crate::emit_dex::laws::values::{
    array_read, arrays_read_back, body_height, body_meaning, items_height, meanings,
    recorded_widths_keep_the_annotation,
};
use crate::emit_dex::layout::PoolPlaces;
use crate::emit_dex::map_list::{map_list, MapItem};
use crate::emit_dex::pools::{low32, string_item, type_list, words, words_len};
use crate::emit_dex::sections::{
    all_resolved, class_data_part, offset_list, resolved, type_list_part,
};
use crate::emit_dex::widths::{array_written, elements_deep};
use crate::ids::TypeIdx;
use crate::leb128::uleb;

verus! {

// Places

/// Where everything that was found at an offset now is.
pub struct NewPlaces {
    pub lists: Map<u32, int>,
    pub bodies: Map<u32, int>,
    pub debug: Map<u32, int>,
    pub members: Map<u32, int>,
    pub notes: Map<u32, int>,
    pub sets: Map<u32, int>,
    pub set_lists: Map<u32, int>,
    pub directories: Map<u32, int>,
    pub arrays: Map<u32, int>,
    /// Where the pool of call sites is.
    pub call_sites: int,
    /// Where the pool of method handles is.
    pub handles: int,
}

/// The places of a section that starts at `base`.
pub open spec fn shifted(base: u32, remap: Map<u32, u32>) -> Map<u32, int> {
    remap.map_values(|p: u32| base + p)
}

/// An offset as it was and as it is: 0, or the place of what it leads to.
pub open spec fn moves(places: Map<u32, int>, was: u32, now: int) -> bool {
    if was == 0 {
        now == 0
    } else {
        places.contains_key(was) && now == places[was]
    }
}

// Pools

/// The number at position `i` of the header.
pub open spec fn header_word(out: Seq<u8>, i: int) -> int {
    read_le32(out, 32 + 4 * i)
}

/// The header gives the magic bytes, the version and the length of the file, and the size
/// of each pool.
pub open spec fn header_says(out: Seq<u8>, dex: DexFile) -> bool {
    &&& out.take(8) == seq![0x64u8, 0x65u8, 0x78u8, 0x0Au8] + seq![
        dex.header.magic[4],
        dex.header.magic[5],
        dex.header.magic[6],
        0u8,
    ]
    &&& header_word(out, 0) == out.len()
    &&& header_word(out, 6) == dex.strings@.len()
    &&& header_word(out, 8) == dex.type_descriptors@.len()
    &&& header_word(out, 10) == dex.protos@.len()
    &&& header_word(out, 12) == dex.fields@.len()
    &&& header_word(out, 14) == dex.methods@.len()
    &&& header_word(out, 16) == dex.class_defs@.len()
}

/// The string pool leads to every string.
pub open spec fn strings_say(out: Seq<u8>, dex: DexFile) -> bool {
    forall|i: int|
        #![trigger dex.strings@[i]]
        0 <= i < dex.strings@.len() ==> holds_at(
            out,
            read_le32(out, header_word(out, 7) + 4 * i),
            string_item(dex.strings@[i].declared(), dex.strings@[i].stored()),
        )
}

/// The type entry at position `i` names a string that spells the type's descriptor.
pub open spec fn type_says(out: Seq<u8>, dex: DexFile, i: int) -> bool {
    let idx = type_read(out, header_word(out, 9) + 4 * i);
    idx.0 < dex.strings@.len() && dex.strings@[idx.0 as int].text() == dex.type_descriptors@[i]@
}

/// The type pool gives, for every type, a string that spells its descriptor.
pub open spec fn types_say(out: Seq<u8>, dex: DexFile) -> bool {
    forall|i: int| 0 <= i < dex.type_descriptors@.len() ==> #[trigger] type_says(out, dex, i)
}

/// The pools of fields and methods read back.
pub open spec fn references_say(out: Seq<u8>, dex: DexFile) -> bool {
    &&& forall|i: int|
        #![trigger dex.fields@[i]]
        0 <= i < dex.fields@.len() ==> field_read(out, header_word(out, 13) + 8 * i)
            == dex.fields@[i]
    &&& forall|i: int|
        #![trigger dex.methods@[i]]
        0 <= i < dex.methods@.len() ==> method_read(out, header_word(out, 15) + 8 * i)
            == dex.methods@[i]
}

/// The prototypes read back, with the places of their parameter lists.
pub open spec fn protos_say(out: Seq<u8>, dex: DexFile, n: NewPlaces) -> bool {
    forall|i: int|
        #![trigger dex.protos@[i]]
        0 <= i < dex.protos@.len() ==> {
            let was = dex.protos@[i];
            let now = proto_read(out, header_word(out, 11) + 12 * i);
            &&& now.shorty_idx == was.shorty_idx
            &&& now.return_type_idx == was.return_type_idx
            &&& moves(n.lists, was.parameters_off, now.parameters_off as int)
        }
}

/// The class definitions read back, with the places of what they lead to.
pub open spec fn classes_say(out: Seq<u8>, dex: DexFile, n: NewPlaces) -> bool {
    forall|i: int|
        #![trigger dex.class_defs@[i]]
        0 <= i < dex.class_defs@.len() ==> {
            let was = dex.class_defs@[i];
            let now = class_read(out, header_word(out, 17) + 32 * i);
            &&& now.class_idx == was.class_idx
            &&& now.access_flags == was.access_flags
            &&& now.superclass_idx == was.superclass_idx
            &&& now.source_file_idx == was.source_file_idx
            &&& moves(n.lists, was.interfaces_off, now.interfaces_off as int)
            &&& moves(n.directories, was.annotations_off, now.annotations_off as int)
            &&& moves(n.members, was.class_data_off, now.class_data_off as int)
            &&& moves(n.arrays, was.static_values_off, now.static_values_off as int)
        }
}

// Items

/// The type list at `at` reads back.
pub open spec fn list_says(out: Seq<u8>, at: int, idxs: Seq<TypeIdx>) -> bool {
    &&& read_le32(out, at) == idxs.len()
    &&& forall|i: int| 0 <= i < idxs.len() ==> list_entry(out, at, i) == #[trigger] idxs[i]
}

/// The try at position `j` of the body at `at` reads back, and leads to its handler, which
/// reads back. The body has `units` code units.
pub open spec fn try_says(out: Seq<u8>, at: int, ci: CodeItem, units: nat, j: int) -> bool {
    let t = ci.tries@[j];
    let place = at + tries_start(units) + 8 * j;
    let handlers = at + tries_start(units) + 8 * ci.tries@.len();
    &&& read_le32(out, place) == t.start_addr
    &&& read_le16(out, place + 4) == t.insn_count
    &&& t.handler_idx < ci.catch_handlers@.len()
    &&& handler_read(out.skip(handlers + read_le16(out, place + 6))) == Some(
        (
            catch_pairs(ci.catch_handlers@[t.handler_idx as int].catches@),
            match ci.catch_handlers@[t.handler_idx as int].catch_all_addr {
                Some(addr) => Some(addr as nat),
                None => None,
            },
        ),
    )
}

/// The method body at `at` reads back: its sizes, the place of its debug info if there is
/// any, its instructions and payloads as they are assembled, and its tries.
pub open spec fn body_says(out: Seq<u8>, at: int, ci: CodeItem, debug: Map<u32, int>) -> bool {
    let size = insns_extent(ci.instructions@, ci.payloads@);
    let stream = insn_stream(ci.instructions@, ci.payloads@, size->Ok_0);
    &&& read_le16(out, at) == ci.registers_size
    &&& read_le16(out, at + 2) == ci.ins_size
    &&& read_le16(out, at + 4) == ci.outs_size
    &&& read_le16(out, at + 6) == ci.tries@.len()
    &&& read_le32(out, at + 8) == if ci.debug_info_off != 0 && debug.contains_key(
        ci.debug_info_off,
    ) {
        debug[ci.debug_info_off]
    } else {
        0
    }
    &&& size is Ok
    &&& stream is Ok
    &&& 2 * read_le32(out, at + 12) == stream->Ok_0.len()
    &&& holds_at(out, at + 16, stream->Ok_0)
    &&& forall|j: int|
        0 <= j < ci.tries@.len() ==> #[trigger] try_says(
            out,
            at,
            ci,
            stream->Ok_0.len() / 2,
            j,
        )
}

/// Methods read back, with the places of their bodies.
pub open spec fn methods_say(
    now: Seq<EncodedMethod>,
    was: Seq<EncodedMethod>,
    bodies: Map<u32, int>,
) -> bool {
    &&& now.len() == was.len()
    &&& forall|j: int|
        #![trigger was[j]]
        0 <= j < was.len() ==> {
            &&& now[j].method_idx == was[j].method_idx
            &&& now[j].access_flags == was[j].access_flags
            &&& moves(bodies, was[j].code_off, now[j].code_off as int)
        }
}

/// The class members at `at` read back.
pub open spec fn class_says(out: Seq<u8>, at: int, cd: ClassData, bodies: Map<u32, int>) -> bool {
    match members_read(out.skip(at)) {
        None => false,
        Some((m, _)) => {
            &&& m.static_fields == cd.static_fields@
            &&& m.instance_fields == cd.instance_fields@
            &&& methods_say(m.direct_methods, cd.direct_methods@, bodies)
            &&& methods_say(m.virtual_methods, cd.virtual_methods@, bodies)
        },
    }
}

/// The encoded array at `at` reads back.
pub open spec fn array_says(out: Seq<u8>, at: int, values: Seq<EncodedValue>) -> bool {
    match array_read(out.skip(at), items_height(values, 0)) {
        None => false,
        Some((read, _)) => read == meanings(values, 0),
    }
}

/// The annotation at `at` reads back.
pub open spec fn note_says(out: Seq<u8>, at: int, item: AnnotationItem) -> bool {
    annotation_read(out.skip(at), body_height(item.annotation)) == Some(
        (item.visibility, item.annotation.type_idx.0 as nat, body_meaning(item.annotation)),
    )
}

/// The list of offsets at `at` reads back, with the places of what it leads to.
pub open spec fn offsets_say(
    out: Seq<u8>,
    at: int,
    offs: Seq<u32>,
    places: Map<u32, int>,
) -> bool {
    &&& read_le32(out, at) == offs.len()
    &&& forall|j: int|
        #![trigger offs[j]]
        0 <= j < offs.len() ==> moves(places, offs[j], read_le32(out, at + 4 + 4 * j))
}

/// The annotation directory at `at` reads back, with the places of what it leads to.
pub open spec fn directory_says(
    out: Seq<u8>,
    at: int,
    dir: AnnotationDirectoryItem,
    n: NewPlaces,
) -> bool {
    let fields = at + 16;
    let methods = fields + 8 * dir.fields@.len();
    let params = methods + 8 * dir.methods@.len();
    &&& moves(n.sets, dir.class_annotations_off, read_le32(out, at))
    &&& read_le32(out, at + 4) == dir.fields@.len()
    &&& read_le32(out, at + 8) == dir.methods@.len()
    &&& read_le32(out, at + 12) == dir.parameters@.len()
    &&& forall|j: int|
        #![trigger dir.fields@[j]]
        0 <= j < dir.fields@.len() ==> read_le32(out, fields + 8 * j) == dir.fields@[j].field_idx.0
            && moves(n.sets, dir.fields@[j].annotations_off, read_le32(out, fields + 8 * j + 4))
    &&& forall|j: int|
        #![trigger dir.methods@[j]]
        0 <= j < dir.methods@.len() ==> read_le32(out, methods + 8 * j)
            == dir.methods@[j].method_idx.0 && moves(
            n.sets,
            dir.methods@[j].annotations_off,
            read_le32(out, methods + 8 * j + 4),
        )
    &&& forall|j: int|
        #![trigger dir.parameters@[j]]
        0 <= j < dir.parameters@.len() ==> read_le32(out, params + 8 * j)
            == dir.parameters@[j].method_idx.0 && moves(
            n.set_lists,
            dir.parameters@[j].annotations_off,
            read_le32(out, params + 8 * j + 4),
        )
}

// Bodies

/// What the body of a method holds, apart from its tries.
spec fn fields_stand(body: Seq<u8>, ci: CodeItem, off: u32, stream: Seq<u8>) -> bool {
    &&& body.len() >= 16
    &&& read_le16(body, 0) == ci.registers_size
    &&& read_le16(body, 2) == ci.ins_size
    &&& read_le16(body, 4) == ci.outs_size
    &&& read_le16(body, 6) == ci.tries@.len()
    &&& read_le32(body, 8) == off
    &&& 2 * read_le32(body, 12) == stream.len()
    &&& holds_at(body, 16, stream)
}

/// What the body of a method holds of a try.
spec fn try_stands(body: Seq<u8>, ci: CodeItem, units: nat, j: int) -> bool {
    let t = ci.tries@[j];
    let place = tries_start(units) + 8 * j;
    let list = tries_start(units) + 8 * ci.tries@.len();
    let h = handler_written(ci.catch_handlers@[t.handler_idx as int]);
    &&& read_le32(body, place) == t.start_addr
    &&& read_le16(body, place + 4) == t.insn_count
    &&& t.handler_idx < ci.catch_handlers@.len()
    &&& h.fault is None
    &&& holds_at(body, list + read_le16(body, place + 6), h.bytes)
}

/// The instructions and payloads of a method body as they are assembled.
spec fn stream_of(ci: CodeItem) -> Seq<u8> {
    insn_stream(
        ci.instructions@,
        ci.payloads@,
        insns_extent(ci.instructions@, ci.payloads@)->Ok_0,
    )->Ok_0
}

proof fn lemma_fields_stand(ci: CodeItem, off: u32)
    requires
        code_item(ci, off) is Ok,
    ensures
        insns_extent(ci.instructions@, ci.payloads@) is Ok,
        insn_stream(
            ci.instructions@,
            ci.payloads@,
            insns_extent(ci.instructions@, ci.payloads@)->Ok_0,
        ) is Ok,
        fields_stand(code_item(ci, off)->Ok_0, ci, off, stream_of(ci)),
{
    container_fields_read_back(
        ci.registers_size,
        ci.ins_size,
        ci.outs_size,
        off,
        stream_of(ci),
        ci.tries@,
        ci.catch_handlers@,
    );
}

proof fn lemma_try_stands(ci: CodeItem, off: u32, j: int)
    requires
        code_item(ci, off) is Ok,
        0 <= j < ci.tries@.len(),
    ensures
        try_stands(code_item(ci, off)->Ok_0, ci, stream_of(ci).len() / 2, j),
{
    tries_name_their_handlers(
        ci.registers_size,
        ci.ins_size,
        ci.outs_size,
        off,
        stream_of(ci),
        ci.tries@,
        ci.catch_handlers@,
        j,
    );
}

proof fn lemma_try_says(out: Seq<u8>, at: int, body: Seq<u8>, ci: CodeItem, units: nat, j: int)
    requires
        holds_at(out, at, body),
        0 <= j < ci.tries@.len(),
        try_stands(body, ci, units, j),
    ensures
        try_says(out, at, ci, units, j),
{
    let h = ci.catch_handlers@[ci.tries@[j].handler_idx as int];
    let place = tries_start(units) + 8 * j;
    let list = tries_start(units) + 8 * ci.tries@.len();
    let written = handler_written(h).bytes;
    let first = list + read_le16(body, place + 6);
    assert(place + 8 <= list);
    assert(0 <= read_le16(body, place + 6));
    word_carries(out, at, body, place);
    half_carries(out, at, body, place + 4);
    half_carries(out, at, body, place + 6);
    holding_is_transitive(out, at, body, first, written);
    rest_after(out, at + first, written);
    handlers_read_back(h, out.skip(at + first + written.len()));
}

/// A method body that stands in a file reads back.
pub proof fn bodies_say(out: Seq<u8>, at: int, ci: CodeItem, off: u32, debug: Map<u32, int>)
    requires
        code_item(ci, off) is Ok,
        holds_at(out, at, code_item(ci, off)->Ok_0),
        off == if ci.debug_info_off != 0 && debug.contains_key(ci.debug_info_off) {
            debug[ci.debug_info_off]
        } else {
            0
        },
    ensures
        body_says(out, at, ci, debug),
{
    let stream = stream_of(ci);
    let body = code_item(ci, off)->Ok_0;
    lemma_fields_stand(ci, off);
    holding_is_transitive(out, at, body, 16, stream);
    half_carries(out, at, body, 0);
    half_carries(out, at, body, 2);
    half_carries(out, at, body, 4);
    half_carries(out, at, body, 6);
    word_carries(out, at, body, 8);
    word_carries(out, at, body, 12);
    assert forall|j: int| 0 <= j < ci.tries@.len() implies #[trigger] try_says(
        out,
        at,
        ci,
        stream.len() / 2,
        j,
    ) by {
        lemma_try_stands(ci, off, j);
        lemma_try_says(out, at, body, ci, stream.len() / 2, j);
    }
}

// Members

/// Methods whose bodies have places read back with these.
pub proof fn moved_methods_say(was: Seq<EncodedMethod>, remap: Map<u32, u32>, base: u32)
    requires
        bodies_placed(was, remap, base),
    ensures
        methods_say(with_places(was, remap, base), was, shifted(base, remap)),
{
    let now = with_places(was, remap, base);
    assert forall|j: int| #![trigger was[j]] 0 <= j < was.len() implies {
        &&& now[j].method_idx == was[j].method_idx
        &&& now[j].access_flags == was[j].access_flags
        &&& moves(shifted(base, remap), was[j].code_off, now[j].code_off as int)
    } by {
        assert(body_found(was[j], remap) && body_fits(was[j], remap, base));
    }
}

/// A list of offsets that stands in a file reads back, with the places of what it leads to.
pub proof fn moved_offsets_say(
    out: Seq<u8>,
    at: int,
    offs: Seq<u32>,
    base: u32,
    remap: Map<u32, u32>,
    l: Labels,
)
    requires
        all_resolved(offs, base, remap, l.missing, l.section, l.context, 0, Seq::empty()) is Ok,
        holds_at(
            out,
            at,
            offset_list(
                all_resolved(
                    offs,
                    base,
                    remap,
                    l.missing,
                    l.section,
                    l.context,
                    0,
                    Seq::empty(),
                )->Ok_0,
            ),
        ),
        out.len() <= u32::MAX,
    ensures
        offsets_say(out, at, offs, shifted(base, remap)),
{
    let abs = all_resolved(
        offs,
        base,
        remap,
        l.missing,
        l.section,
        l.context,
        0,
        Seq::empty(),
    )->Ok_0;
    let list = offset_list(abs);
    let size = (abs.len() % 0x1_0000_0000) as u32;
    resolved_len(offs, base, remap, l, 0, Seq::empty());
    words_len(abs, abs.len());
    assert(size == offs.len());
    in_front(le32(size), words(abs, abs.len()));
    holding_is_transitive(out, at, list, 0, le32(size));
    word_at(out, at, size);
    assert forall|j: int| #![trigger offs[j]] 0 <= j < offs.len() implies moves(
        shifted(base, remap),
        offs[j],
        read_le32(out, at + 4 + 4 * j),
    ) by {
        resolved_one_by_one(offs, base, remap, l, 0, Seq::empty(), j);
        offset_lists_read_back(out, at, abs, j);
    }
}

// Items that stand

/// A type list that stands in a file reads back.
pub proof fn lists_say(out: Seq<u8>, at: int, idxs: Seq<TypeIdx>, last: bool)
    requires
        type_list_part(idxs, last) is Ok,
        holds_at(out, at, type_list_part(idxs, last)->Ok_0),
        out.len() <= u32::MAX,
    ensures
        list_says(out, at, idxs),
{
    let part = type_list_part(idxs, last)->Ok_0;
    let list = type_list(idxs).bytes;
    let size = low32(idxs.len());
    type_list_len(idxs);
    assert(holds_at(part, 0, list)) by {
        if part == list {
            assert(list.subrange(0, list.len() as int) =~= list);
        } else {
            in_front(list, zeros(2));
        }
    }
    assert(part.len() >= list.len());
    assert(size == idxs.len());
    assert(holds_at(part, 0, le32(size))) by {
        in_front(le32(size), part.skip(4));
        assert(le32(size) + part.skip(4) =~= part);
    }
    holding_is_transitive(out, at, part, 0, le32(size));
    word_at(out, at, size);
    holding_is_transitive(out, at, part, 0, list);
    assert forall|i: int| 0 <= i < idxs.len() implies list_entry(out, at, i)
        == #[trigger] idxs[i] by {
        type_lists_read_back(out, at, idxs, i);
    }
}

/// The members of a class that stand in a file read back.
pub proof fn members_say(out: Seq<u8>, at: int, cd: ClassData, remap: Map<u32, u32>, base: u32)
    requires
        class_data_part(cd, remap, base) is Ok,
        holds_at(out, at, class_data_part(cd, remap, base)->Ok_0),
    ensures
        class_says(out, at, cd, shifted(base, remap)),
{
    let part = class_data_part(cd, remap, base)->Ok_0;
    rest_after(out, at, part);
    moved_methods_have_places(cd.direct_methods@, remap, base);
    moved_methods_have_places(cd.virtual_methods@, remap, base);
    class_data_reads_back(
        cd.static_fields@,
        cd.instance_fields@,
        with_places(cd.direct_methods@, remap, base),
        with_places(cd.virtual_methods@, remap, base),
        out.skip(at + part.len()),
    );
    moved_methods_say(cd.direct_methods@, remap, base);
    moved_methods_say(cd.virtual_methods@, remap, base);
}

/// An encoded array that stands in a file reads back, at whatever widths.
pub proof fn arrays_say(
    out: Seq<u8>,
    at: int,
    values: Seq<EncodedValue>,
    widths: Option<Seq<u8>>,
)
    requires
        array_written(values, widths).fault is None,
        holds_at(out, at, array_written(values, widths).bytes),
    ensures
        array_says(out, at, values),
{
    let part = array_written(values, widths).bytes;
    rest_after(out, at, part);
    arrays_read_back(values, widths, out.skip(at + part.len()), items_height(values, 0));
}

/// An annotation that stands in a file reads back, at whatever widths.
pub proof fn annotations_say(
    out: Seq<u8>,
    at: int,
    item: AnnotationItem,
    widths: Option<Seq<u8>>,
)
    requires
        annotation_item_kept(item, widths) is Ok,
        holds_at(out, at, annotation_item_kept(item, widths)->Ok_0),
    ensures
        note_says(out, at, item),
{
    let ann = item.annotation;
    let fuel = body_height(ann);
    let part = annotation_item_kept(item, widths)->Ok_0;
    let rest = out.skip(at + part.len());
    rest_after(out, at, part);
    match widths {
        None => {
            annotations_read_back(item, rest, fuel);
        },
        Some(ws) => {
            let keys = sorted_keys(ann.elements@);
            let ty = ann.type_idx.0 as nat;
            let body = elements_deep(ann.elements@, keys, 0, ws, 0).w.bytes;
            let s = part + rest;
            recorded_widths_keep_the_annotation(ann, ws, 0, rest, fuel);
            assert(s =~= seq![item.visibility] + (uleb(ty) + (uleb(keys.len()) + (body + rest))));
            assert(s.skip(1) =~= uleb(ty) + (uleb(keys.len()) + (body + rest)));
            number_then_rest(ty, uleb(keys.len()) + (body + rest));
            number_then_rest(keys.len(), body + rest);
        },
    }
}

proof fn lemma_pairs(
    out: Seq<u8>,
    at: int,
    idxs: Seq<u32>,
    offs: Seq<u32>,
    base: u32,
    remap: Map<u32, u32>,
    l: Labels,
    j: int,
)
    requires
        part_offs(offs, base, remap, l) is Ok,
        holds_at(out, at, pairs(idxs, part_offs(offs, base, remap, l)->Ok_0, offs.len())),
        0 <= j < offs.len(),
    ensures
        read_le32(out, at + 8 * j) == idxs[j],
        moves(shifted(base, remap), offs[j], read_le32(out, at + 8 * j + 4)),
{
    let abs = part_offs(offs, base, remap, l)->Ok_0;
    resolved_one_by_one(offs, base, remap, l, 0, Seq::empty(), j);
    pairs_read_back(out, at, idxs, abs, offs.len(), j);
}

/// An annotation directory that stands in a file reads back, with the places of what it
/// leads to.
pub proof fn directories_say(
    out: Seq<u8>,
    at: int,
    dir: AnnotationDirectoryItem,
    to: Moved,
    in_place: bool,
    n: NewPlaces,
)
    requires
        directory_part(dir, to, in_place) is Ok,
        holds_at(out, at, directory_part(dir, to, in_place)->Ok_0),
        n.sets == shifted(to.set_base, to.set_remap),
        n.set_lists == shifted(to.list_base, to.list_remap),
    ensures
        directory_says(out, at, dir, n),
{
    let l = part_labels(DirectoryPart::Class, in_place);
    let lf = part_labels(DirectoryPart::Field, in_place);
    let lm = part_labels(DirectoryPart::Method, in_place);
    let lp = part_labels(DirectoryPart::Parameter, in_place);
    let class_abs = resolved(
        dir.class_annotations_off,
        to.set_base,
        to.set_remap,
        l.missing,
        l.section,
        l.context,
    )->Ok_0;
    let fields_abs = part_offs(field_offs(dir), to.set_base, to.set_remap, lf)->Ok_0;
    let methods_abs = part_offs(method_offs(dir), to.set_base, to.set_remap, lm)->Ok_0;
    let params_abs = part_offs(param_offs(dir), to.list_base, to.list_remap, lp)->Ok_0;
    let fields = at + 16;
    let methods = fields + 8 * dir.fields@.len();
    let params = methods + 8 * dir.methods@.len();
    directories_read_back(out, at, dir, class_abs, fields_abs, methods_abs, params_abs);
    assert forall|j: int| #![trigger dir.fields@[j]] 0 <= j < dir.fields@.len() implies read_le32(
        out,
        fields + 8 * j,
    ) == dir.fields@[j].field_idx.0 && moves(
        n.sets,
        dir.fields@[j].annotations_off,
        read_le32(out, fields + 8 * j + 4),
    ) by {
        lemma_pairs(
            out,
            fields,
            field_idxs(dir),
            field_offs(dir),
            to.set_base,
            to.set_remap,
            lf,
            j,
        );
    }
    assert forall|j: int|
        #![trigger dir.methods@[j]]
        0 <= j < dir.methods@.len() implies read_le32(out, methods + 8 * j)
        == dir.methods@[j].method_idx.0 && moves(
        n.sets,
        dir.methods@[j].annotations_off,
        read_le32(out, methods + 8 * j + 4),
    ) by {
        lemma_pairs(
            out,
            methods,
            method_idxs(dir),
            method_offs(dir),
            to.set_base,
            to.set_remap,
            lm,
            j,
        );
    }
    assert forall|j: int|
        #![trigger dir.parameters@[j]]
        0 <= j < dir.parameters@.len() implies read_le32(out, params + 8 * j)
        == dir.parameters@[j].method_idx.0 && moves(
        n.set_lists,
        dir.parameters@[j].annotations_off,
        read_le32(out, params + 8 * j + 4),
    ) by {
        lemma_pairs(
            out,
            params,
            param_idxs(dir),
            param_offs(dir),
            to.list_base,
            to.list_remap,
            lp,
            j,
        );
    }
}

// The map list

/// The entries of the map list of a file.
pub open spec fn map_read(out: Seq<u8>) -> Seq<MapItem> {
    let at = header_word(out, 5);
    Seq::new(read_le32(out, at) as nat, |i: int| entry_read(out, at + 4 + 12 * i))
}

/// The entries of a map list that stands in a file read back.
pub proof fn entries_say(out: Seq<u8>, at: int, map: Seq<u8>, items: Seq<MapItem>, any: bool, i: int)
    requires
        map_list(items, any) == Ok::<Seq<u8>, DexEmitError>(map),
        holds_at(out, at, map),
        0 <= i < items.len(),
    ensures
        read_le32(out, at) == items.len(),
        entry_read(out, at + 4 + 12 * i) == items[i],
{
    map_list_reads_back(items, any, i);
    word_carries(out, at, map, 0);
    half_carries(out, at, map, 4 + 12 * i);
    word_carries(out, at, map, 4 + 12 * i + 4);
    word_carries(out, at, map, 4 + 12 * i + 8);
}

/// The map list of a file is not empty.
pub proof fn maps_are_not_empty(dex: DexFile, config: EmitConfig, p: PoolPlaces, b: Bases)
    ensures
        file_map(dex, config, p, b).len() > 0,
{
    the_map_lists_every_section_once(dex, config, p, b);
    reveal(extents);
    let e = extents(dex, p, b);
    assert(e[0].count == 1);
    assert(file_map(dex, config, p, b).contains(entry_of(e[0])));
}

/// The map list of a file has the pools of call sites and of method handles.
pub proof fn calls_are_listed(dex: DexFile, config: EmitConfig, p: PoolPlaces, b: Bases)
    ensures
        dex.call_site_ids@.len() > 0 ==> file_map(dex, config, p, b).contains(
            (MapItem {
                type_code: map_type::CALL_SITE_ID_ITEM,
                size: low32(dex.call_site_ids@.len()),
                offset: p.call_site_ids_off,
            }),
        ),
        dex.method_handles@.len() > 0 ==> file_map(dex, config, p, b).contains(
            (MapItem {
                type_code: map_type::METHOD_HANDLE_ITEM,
                size: low32(dex.method_handles@.len()),
                offset: p.method_handles_off,
            }),
        ),
{
    the_map_lists_every_section_once(dex, config, p, b);
    reveal(extents);
    let e = extents(dex, p, b);
    assert(e[7] == extent(
        map_type::CALL_SITE_ID_ITEM,
        dex.call_site_ids@.len() as int,
        p.call_site_ids_off,
    ));
    assert(e[8] == extent(
        map_type::METHOD_HANDLE_ITEM,
        dex.method_handles@.len() as int,
        p.method_handles_off,
    ));
    assert(dex.call_site_ids.len() == dex.call_site_ids@.len());
    assert(dex.method_handles.len() == dex.method_handles@.len());
}

// The whole

/// Every item of every section reads back at its new place, and nothing else has one.
pub open spec fn sections_say(out: Seq<u8>, dex: DexFile, n: NewPlaces) -> bool {
    &&& n.lists.dom() == dex.type_lists@.dom()
    &&& forall|key: u32| #[trigger]
        dex.type_lists@.contains_key(key) ==> list_says(out, n.lists[key], dex.type_lists@[key]@)
    &&& n.bodies.dom() == dex.code_items@.dom()
    &&& forall|key: u32| #[trigger]
        dex.code_items@.contains_key(key) ==> body_says(
            out,
            n.bodies[key],
            dex.code_items@[key],
            n.debug,
        )
    &&& n.debug.dom() == dex.debug_info_raw_bytes@.dom()
    &&& forall|key: u32| #[trigger]
        dex.debug_info_raw_bytes@.contains_key(key) ==> holds_at(
            out,
            n.debug[key],
            dex.debug_info_raw_bytes@[key]@,
        )
    &&& n.members.dom() == dex.class_datas@.dom()
    &&& forall|key: u32| #[trigger]
        dex.class_datas@.contains_key(key) ==> class_says(
            out,
            n.members[key],
            dex.class_datas@[key],
            n.bodies,
        )
    &&& n.arrays.dom() == dex.encoded_arrays@.dom()
    &&& forall|key: u32| #[trigger]
        dex.encoded_arrays@.contains_key(key) ==> array_says(
            out,
            n.arrays[key],
            dex.encoded_arrays@[key]@,
        )
}

/// Every annotation, every set of annotations and every directory reads back at its new
/// place, and nothing else has one.
pub open spec fn notes_say(out: Seq<u8>, dex: DexFile, n: NewPlaces) -> bool {
    &&& n.notes.dom() == dex.annotation_items@.dom()
    &&& forall|key: u32| #[trigger]
        dex.annotation_items@.contains_key(key) ==> note_says(
            out,
            n.notes[key],
            dex.annotation_items@[key],
        )
    &&& n.sets.dom() == dex.annotation_sets@.dom()
    &&& forall|key: u32| #[trigger]
        dex.annotation_sets@.contains_key(key) ==> offsets_say(
            out,
            n.sets[key],
            dex.annotation_sets@[key]@,
            n.notes,
        )
    &&& n.set_lists.dom() == dex.annotation_set_ref_lists@.dom()
    &&& forall|key: u32| #[trigger]
        dex.annotation_set_ref_lists@.contains_key(key) ==> offsets_say(
            out,
            n.set_lists[key],
            dex.annotation_set_ref_lists@[key]@,
            n.sets,
        )
    &&& n.directories.dom() == dex.annotations@.dom()
    &&& forall|key: u32| #[trigger]
        dex.annotations@.contains_key(key) ==> directory_says(
            out,
            n.directories[key],
            dex.annotations@[key],
            n,
        )
}

/// The call sites lead to their encoded arrays, the method handles read back, and the map
/// list has both pools.
pub open spec fn calls_say(out: Seq<u8>, dex: DexFile, n: NewPlaces) -> bool {
    &&& forall|i: int|
        #![trigger dex.call_site_ids@[i]]
        0 <= i < dex.call_site_ids@.len() ==> moves(
            n.arrays,
            dex.call_site_ids@[i],
            read_le32(out, n.call_sites + 4 * i),
        )
    &&& forall|i: int|
        #![trigger dex.method_handles@[i]]
        0 <= i < dex.method_handles@.len() ==> handle_read(out, n.handles + 8 * i)
            == dex.method_handles@[i]
    &&& dex.call_site_ids@.len() > 0 ==> map_read(out).contains(
        (MapItem {
            type_code: map_type::CALL_SITE_ID_ITEM,
            size: low32(dex.call_site_ids@.len()),
            offset: n.call_sites as u32,
        }),
    )
    &&& dex.method_handles@.len() > 0 ==> map_read(out).contains(
        (MapItem {
            type_code: map_type::METHOD_HANDLE_ITEM,
            size: low32(dex.method_handles@.len()),
            offset: n.handles as u32,
        }),
    )
}

/// The file says what `dex` says: its pools and sections read back, and every offset
/// in it leads to what the same offset of `dex` leads to.
pub open spec fn says(out: Seq<u8>, dex: DexFile, n: NewPlaces) -> bool {
    &&& header_says(out, dex)
    &&& strings_say(out, dex)
    &&& types_say(out, dex)
    &&& references_say(out, dex)
    &&& protos_say(out, dex, n)
    &&& classes_say(out, dex, n)
    &&& calls_say(out, dex, n)
    &&& sections_say(out, dex, n)
    &&& notes_say(out, dex, n)
}

} // verus!
