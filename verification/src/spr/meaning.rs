//! What a token shows of its instruction.
use vstd::prelude::*;
use vstd::string::*;

use crate::classes::{class_places, definition};
use crate::decode::{CodeItem, Instruction, PoolIndex};
use crate::dex_file::{DexError, DexFile};
use crate::dex_string::DexString;
use crate::ids::{ClassDefItem, FieldIdx, MethodIdx, ProtoIdx, StringIdx, TypeIdx};
use crate::instruction_set::from_to;
use crate::spr::ancestors::{of_platform, platform_types_stand_for_themselves};
use crate::spr::supertypes::{
    element, joined, platform, platform_prefixes, starts_with, supertypes, text_before,
};
use crate::spr::token::{
    desynced, lines, method_tokens, regs_text, token_of, tokens, Branch, Level, TokenText,
};
use crate::text::{decimal, signed_decimal};

verus! {

// Operands

/// A token shows a number where the instruction sets a register to a constant or computes
/// with one, and only there.
pub proof fn numbers_are_shown(
    dex: DexFile,
    insn: Instruction,
    level: Level,
    places: Option<Map<u32, usize>>,
)
    ensures
        ({
            let b = insn.op.byte();
            let t = token_of(dex, insn, level, places);
            t.lit == if from_to(b, 0x12, 0x19) || from_to(b, 0xd0, 0xe2) {
                Some(insn.literal)
            } else {
                None
            }
        }),
{
}

/// A token shows a branch where the instruction is a jump, with or without a condition, and
/// has a target. The most concrete level shows the target, the others on which side of the
/// instruction it is.
pub proof fn branches_are_shown(
    dex: DexFile,
    insn: Instruction,
    level: Level,
    places: Option<Map<u32, usize>>,
)
    ensures
        ({
            let b = insn.op.byte();
            let jumps = from_to(b, 0x28, 0x2a) || from_to(b, 0x32, 0x3d);
            let t = token_of(dex, insn, level, places).branch;
            &&& t is Some <==> jumps && insn.target is Some
            &&& jumps ==> match insn.target {
                None => true,
                Some(to) => {
                    &&& level is Bc ==> t == Some(Branch::Absolute(to))
                    &&& !(level is Bc) && to > insn.addr ==> t == Some(Branch::Forward)
                    &&& !(level is Bc) && to < insn.addr ==> t == Some(Branch::Backward)
                    &&& !(level is Bc) && to == insn.addr ==> t == Some(Branch::Zero)
                },
            }
        }),
{
}

/// A token shows the destination register, if there is one, and behind it the registers of
/// the list.
pub proof fn registers_are_shown(
    dex: DexFile,
    insn: Instruction,
    level: Level,
    places: Option<Map<u32, usize>>,
    i: int,
)
    requires
        0 <= i < insn.src.count,
    ensures
        ({
            let regs = token_of(dex, insn, level, places).regs;
            let first: int = if insn.dst is Some {
                1
            } else {
                0
            };
            &&& regs.len() == first + insn.src.count
            &&& insn.dst matches Some(d) ==> regs[0] == d
            &&& insn.src.count <= 5 ==> regs[first + i] == insn.src.regs@[i]
            &&& insn.src.count > 5 ==> regs[first + i] == (insn.src.regs@[0] + i) % 0x1_0000
        }),
{
}

/// An instruction without source registers shows at most its destination.
pub proof fn no_other_registers_are_shown(
    dex: DexFile,
    insn: Instruction,
    level: Level,
    places: Option<Map<u32, usize>>,
)
    requires
        insn.src.count == 0,
    ensures
        insn.dst is None ==> token_of(dex, insn, level, places).regs.len() == 0,
        insn.dst matches Some(d) ==> token_of(dex, insn, level, places).regs == seq![d],
{
    assert(insn.src.listed() =~= Seq::<u16>::empty());
    match insn.dst {
        None => {},
        Some(d) => {
            assert(token_of(dex, insn, level, places).regs =~= seq![d]);
        },
    }
}

// References

/// The text of a string of the file.
pub open spec fn string_reads(dex: DexFile, idx: StringIdx, t: Seq<char>) -> bool {
    idx.0 < dex.strings@.len() && match dex.strings@[idx.0 as int] {
        DexString::Decoded { s, .. } => s@ == t,
        DexString::MalformedMutf8 { lossy, .. } => lossy@ == t,
    }
}

/// The descriptor of a type of the file.
pub open spec fn type_reads(dex: DexFile, idx: TypeIdx, t: Seq<char>) -> bool {
    idx.0 < dex.type_descriptors@.len() && dex.type_descriptors@[idx.0 as int]@ == t
}

/// The instruction refers to a member of a pool, and not to a handle or a type of methods.
pub open spec fn refers(insn: Instruction, p: PoolIndex) -> bool {
    insn.pool_idx == Some(p) && insn.op.byte() != 0xfe && insn.op.byte() != 0xff
}

/// A token shows what its instruction refers to, and nothing where it refers to nothing.
/// Handles and types of methods, and call sites, are shown by their kind alone.
pub proof fn references_are_shown(
    dex: DexFile,
    insn: Instruction,
    level: Level,
    places: Option<Map<u32, usize>>,
)
    ensures
        ({
            let t = token_of(dex, insn, level, places).pool;
            &&& t is Some <==> insn.pool_idx is Some
            &&& insn.pool_idx is Some && insn.op.byte() == 0xfe ==> t == Some("<method-handle>"@)
            &&& insn.pool_idx is Some && insn.op.byte() == 0xff ==> t == Some("<method-type>"@)
            &&& forall|c| #[trigger] refers(insn, PoolIndex::CallSite(c)) ==> t == Some(
                "<call-site>"@,
            )
        }),
{
}

/// At every level a string is shown in quotes, as it reads.
pub proof fn strings_are_shown_in_quotes(
    dex: DexFile,
    insn: Instruction,
    level: Level,
    places: Option<Map<u32, usize>>,
    idx: StringIdx,
    s: Seq<char>,
)
    requires
        refers(insn, PoolIndex::String(idx)),
    ensures
        string_reads(dex, idx, s) ==> token_of(dex, insn, level, places).pool == Some(
            "\""@ + s + "\""@,
        ),
        idx.0 >= dex.strings@.len() ==> token_of(dex, insn, level, places).pool == Some(
            "\""@ + "<?str>"@ + "\""@,
        ),
{
}

/// The error names an index and how many entries there are.
pub open spec fn out_of_bounds(e: DexError, i: u32, n: nat) -> bool {
    e matches DexError::IndexOutOfBounds { index, len } && index == i && len == n
}

/// An entry that a pool does not have is refused with its index and the length of the pool; one
/// that it has has a text.
pub proof fn missing_entries_are_named(
    dex: DexFile,
    s: StringIdx,
    t: TypeIdx,
    f: FieldIdx,
    m: MethodIdx,
)
    ensures
        s.0 < dex.strings@.len() <==> dex.string_at(s) is Ok,
        t.0 < dex.type_descriptors@.len() <==> dex.descriptor_at(t) is Ok,
        dex.string_at(s) matches Err(e) ==> out_of_bounds(e, s.0, dex.strings@.len()),
        dex.descriptor_at(t) matches Err(e) ==> out_of_bounds(e, t.0, dex.type_descriptors@.len()),
        f.0 >= dex.fields@.len() ==> (dex.field_text(f) matches Err(e) && out_of_bounds(
            e,
            f.0,
            dex.fields@.len(),
        )),
        m.0 >= dex.methods@.len() ==> (dex.method_text(m) matches Err(e) && out_of_bounds(
            e,
            m.0,
            dex.methods@.len(),
        )),
{
    assert(dex.strings@.len() == dex.strings.len());
    assert(dex.type_descriptors@.len() == dex.type_descriptors.len());
    assert(dex.fields@.len() == dex.fields.len());
    assert(dex.methods@.len() == dex.methods.len());
}

/// With names, a type is shown by its descriptor.
pub proof fn types_are_shown_by_name(
    dex: DexFile,
    insn: Instruction,
    level: Level,
    idx: TypeIdx,
    s: Seq<char>,
)
    requires
        refers(insn, PoolIndex::Type(idx)),
    ensures
        type_reads(dex, idx, s) ==> token_of(dex, insn, level, None).pool == Some(s),
        idx.0 >= dex.type_descriptors@.len() ==> token_of(dex, insn, level, None).pool == Some(
            "<?type>"@,
        ),
{
}

/// With names, a field is shown as its class, an arrow, its name, a colon and its type.
pub proof fn fields_are_shown_by_name(
    dex: DexFile,
    insn: Instruction,
    level: Level,
    idx: FieldIdx,
    class: Seq<char>,
    name: Seq<char>,
    ty: Seq<char>,
)
    requires
        refers(insn, PoolIndex::Field(idx)),
    ensures
        idx.0 >= dex.fields@.len() ==> token_of(dex, insn, level, None).pool == Some(
            "<?field>"@,
        ),
        idx.0 < dex.fields@.len() && type_reads(
            dex,
            dex.fields@[idx.0 as int].class_idx,
            class,
        ) && string_reads(dex, dex.fields@[idx.0 as int].name_idx, name) && type_reads(
            dex,
            dex.fields@[idx.0 as int].type_idx,
            ty,
        ) ==> token_of(dex, insn, level, None).pool == Some(class + "->"@ + name + ":"@ + ty),
{
}

/// The descriptors of some types, one after the other.
pub open spec fn types_read(dex: DexFile, types: Seq<TypeIdx>, texts: Seq<Seq<char>>) -> bool {
    texts.len() == types.len() && forall|i: int|
        0 <= i < types.len() ==> type_reads(dex, types[i], #[trigger] texts[i])
}

proof fn lemma_descriptors(
    dex: DexFile,
    types: Seq<TypeIdx>,
    texts: Seq<Seq<char>>,
    i: nat,
    acc: Seq<char>,
)
    requires
        types_read(dex, types, texts),
        i <= types.len(),
        acc == "("@ + texts.take(i as int).flatten(),
    ensures
        dex.descriptors_text(types, i, acc) == Ok::<Seq<char>, DexError>(
            "("@ + texts.flatten(),
        ),
    decreases types.len() - i,
{
    if i < types.len() {
        let d = texts[i as int];
        assert(type_reads(dex, types[i as int], texts[i as int]));
        assert(texts.take(i as int + 1) =~= texts.take(i as int).push(d));
        texts.take(i as int).lemma_flatten_push(d);
        assert(acc + d =~= "("@ + texts.take(i as int + 1).flatten());
        lemma_descriptors(dex, types, texts, i + 1, acc + d);
    } else {
        assert(texts.take(i as int) =~= texts);
    }
}

/// The types of the parameters of a prototype.
pub open spec fn parameters(dex: DexFile, idx: ProtoIdx) -> Seq<TypeIdx> {
    let off = dex.protos@[idx.0 as int].parameters_off;
    if off != 0 && dex.type_lists@.contains_key(off) {
        dex.type_lists@[off]@
    } else {
        Seq::empty()
    }
}

/// With names, a method is shown as its class, an arrow, its name, the types of its
/// parameters in brackets and the type that it returns.
pub proof fn methods_are_shown_by_name(
    dex: DexFile,
    insn: Instruction,
    level: Level,
    idx: MethodIdx,
    class: Seq<char>,
    name: Seq<char>,
    params: Seq<Seq<char>>,
    ret: Seq<char>,
)
    requires
        refers(insn, PoolIndex::Method(idx)) || exists|p| #[trigger]
            refers(insn, PoolIndex::MethodAndProto(idx, p)),
    ensures
        idx.0 >= dex.methods@.len() ==> token_of(dex, insn, level, None).pool == Some(
            "<?method>"@,
        ),
        ({
            let m = dex.methods@[idx.0 as int];
            let p = dex.protos@[m.proto_idx.0 as int];
            idx.0 < dex.methods@.len() && m.proto_idx.0 < dex.protos@.len() && type_reads(
                dex,
                m.class_idx,
                class,
            ) && string_reads(dex, m.name_idx, name) && types_read(
                dex,
                parameters(dex, m.proto_idx),
                params,
            ) && type_reads(dex, p.return_type_idx, ret) ==> token_of(dex, insn, level, None).pool
                == Some(class + "->"@ + name + ("("@ + params.flatten() + ")"@ + ret))
        }),
{
    let m = dex.methods@[idx.0 as int];
    if idx.0 < dex.methods@.len() && m.proto_idx.0 < dex.protos@.len() && types_read(
        dex,
        parameters(dex, m.proto_idx),
        params,
    ) {
        assert("("@ =~= "("@ + params.take(0).flatten());
        lemma_descriptors(dex, parameters(dex, m.proto_idx), params, 0, "("@);
    }
}

/// Without names, a type is shown by its platform supertypes, and a field or a method by
/// those of the class that declares it; a platform type is shown as it is.
pub proof fn names_are_not_shown(
    dex: DexFile,
    insn: Instruction,
    places: Map<u32, usize>,
    ty: TypeIdx,
)
    requires
        refers(insn, PoolIndex::Type(ty)) || (exists|f: FieldIdx| #[trigger]
            refers(insn, PoolIndex::Field(f)) && f.0 < dex.fields@.len()
                && dex.fields@[f.0 as int].class_idx == ty) || (exists|m: MethodIdx| #[trigger]
            refers(insn, PoolIndex::Method(m)) && m.0 < dex.methods@.len()
                && dex.methods@[m.0 as int].class_idx == ty) || (exists|m: MethodIdx, p: ProtoIdx|
         #[trigger]
            refers(insn, PoolIndex::MethodAndProto(m, p)) && m.0 < dex.methods@.len()
                && dex.methods@[m.0 as int].class_idx == ty),
    ensures
        ({
            let up = supertypes(dex, places, ty);
            let t = token_of(dex, insn, Level::Nr, Some(places)).pool;
            &&& t == Some(joined(up, up.len()))
            &&& of_platform(dex, ty) ==> t == Some(dex.type_descriptors@[ty.0 as int]@)
        }),
{
    if of_platform(dex, ty) {
        platform_types_stand_for_themselves(dex, places, ty);
    }
}

/// Without names, a member that is not in the file is shown by its kind alone.
pub proof fn missing_members_are_shown_by_kind(
    dex: DexFile,
    insn: Instruction,
    places: Map<u32, usize>,
    f: FieldIdx,
    m: MethodIdx,
)
    ensures
        refers(insn, PoolIndex::Field(f)) && f.0 >= dex.fields@.len() ==> token_of(
            dex,
            insn,
            Level::Nr,
            Some(places),
        ).pool == Some("<?field>"@),
        refers(insn, PoolIndex::Method(m)) && m.0 >= dex.methods@.len() ==> token_of(
            dex,
            insn,
            Level::Nr,
            Some(places),
        ).pool == Some("<?method>"@),
{
}

/// What names show depends neither on the level nor on where classes are defined: only the
/// level without names leaves them out, where it is told where classes are defined.
pub proof fn other_levels_show_the_same_names(
    dex: DexFile,
    insn: Instruction,
    level: Level,
    other: Level,
    places: Option<Map<u32, usize>>,
)
    requires
        !(level is Nr) || places is None,
    ensures
        token_of(dex, insn, level, places).pool == token_of(dex, insn, other, None).pool,
{
}

// Methods

/// The most concrete level has the token of each instruction at its position.
pub proof fn concrete_tokens_stand_in_place(
    dex: DexFile,
    insns: Seq<Instruction>,
    places: Option<Map<u32, usize>>,
    n: nat,
    i: int,
)
    requires
        0 <= i < n <= insns.len(),
    ensures
        tokens(dex, insns, Level::Bc, places, n).len() == n,
        tokens(dex, insns, Level::Bc, places, n)[i] == token_of(
            dex,
            insns[i],
            Level::Bc,
            places,
        ),
    decreases n,
{
    if n > 1 {
        concrete_tokens_stand_in_place(
            dex,
            insns,
            places,
            (n - 1) as nat,
            if i < n - 1 {
                i
            } else {
                0
            },
        );
    } else {
        assert(tokens(dex, insns, Level::Bc, places, 0).len() == 0);
    }
}

/// How many of the first `n` instructions are not nops.
pub open spec fn working(insns: Seq<Instruction>, n: int) -> int
    decreases n,
{
    if n <= 0 {
        0
    } else {
        working(insns, n - 1) + if insns[n - 1].op is Nop {
            0int
        } else {
            1int
        }
    }
}

/// At the abstract levels the token of an instruction that is no nop stands behind those of
/// the earlier ones that are none, and there are no others.
pub proof fn abstract_tokens_skip_nops(
    dex: DexFile,
    insns: Seq<Instruction>,
    level: Level,
    places: Option<Map<u32, usize>>,
    n: nat,
    i: int,
)
    requires
        !(level is Bc),
        n <= insns.len(),
    ensures
        tokens(dex, insns, level, places, n).len() == working(insns, n as int),
        0 <= i < n && !(insns[i].op is Nop) ==> 0 <= working(insns, i) < working(insns, n as int)
            && tokens(dex, insns, level, places, n)[working(insns, i)] == token_of(
            dex,
            insns[i],
            level,
            places,
        ),
    decreases n,
{
    if n > 0 {
        abstract_tokens_skip_nops(dex, insns, level, places, (n - 1) as nat, i);
    }
}

/// The tokens of a method are those of its instructions, with the classes of the file where
/// names are left out.
pub proof fn methods_are_their_instructions(dex: DexFile, code: CodeItem, level: Level)
    ensures
        !(level is Nr) ==> method_tokens(dex, code, level) == tokens(
            dex,
            code.instructions@,
            level,
            None,
            code.instructions@.len(),
        ),
        level is Nr ==> method_tokens(dex, code, level) == tokens(
            dex,
            code.instructions@,
            level,
            Some(class_places(dex.class_defs@)),
            code.instructions@.len(),
        ),
        desynced(code) <==> exists|i: int|
            0 <= i < code.invariant_violations@.len() && (
            #[trigger] code.invariant_violations@[i]) is UnknownOpcodeByte,
{
}

// Text

/// What each part of a token adds to its text, in this order: the operation, a space and a
/// `v` before each register, a space and a `#` before the number, a word for the branch, and
/// a space before the reference.
pub proof fn tokens_are_spelled_in_order(t: TokenText, r: u16, n: i64, to: u32, p: Seq<char>)
    ensures
        ({
            let bare = TokenText { regs: Seq::empty(), lit: None, branch: None, pool: None, ..t };
            let regs = TokenText { lit: None, branch: None, pool: None, ..t };
            let more = TokenText { regs: t.regs.push(r), ..regs };
            let lit = TokenText { branch: None, pool: None, ..t };
            let branch = TokenText { pool: None, ..t };
            &&& bare.spelled() == t.op
            &&& more.spelled() == regs.spelled() + " v"@ + decimal(r as nat)
            &&& (TokenText { lit: Some(n), ..regs }).spelled() == regs.spelled() + " #"@
                + signed_decimal(n as int)
            &&& (TokenText { branch: Some(Branch::Forward), ..lit }).spelled() == lit.spelled()
                + " along"@
            &&& (TokenText { branch: Some(Branch::Backward), ..lit }).spelled() == lit.spelled()
                + " back"@
            &&& (TokenText { branch: Some(Branch::Zero), ..lit }).spelled() == lit.spelled()
                + " zero"@
            &&& (TokenText { branch: Some(Branch::Absolute(to)), ..lit }).spelled()
                == lit.spelled() + " @"@ + decimal(to as nat)
            &&& (TokenText { pool: Some(p), ..t }).spelled() == branch.spelled() + " "@ + p
        }),
{
    let bare = TokenText { regs: Seq::empty(), lit: None, branch: None, pool: None, ..t };
    let regs = TokenText { lit: None, branch: None, pool: None, ..t };
    let more = TokenText { regs: t.regs.push(r), ..regs };
    let lit = TokenText { branch: None, pool: None, ..t };
    let branch = TokenText { pool: None, ..t };
    let none = Seq::<char>::empty();
    assert(bare.spelled() =~= t.op);
    assert(t.regs.take(t.regs.len() as int) =~= t.regs.push(r).take(t.regs.len() as int));
    lemma_same_regs(t.regs, t.regs.push(r), t.regs.len());
    assert(more.spelled() =~= regs.spelled() + " v"@ + decimal(r as nat));
    assert((TokenText { lit: Some(n), ..regs }).spelled() =~= regs.spelled() + " #"@
        + signed_decimal(n as int));
    assert((TokenText { branch: Some(Branch::Forward), ..lit }).spelled() =~= lit.spelled()
        + " along"@);
    assert((TokenText { branch: Some(Branch::Backward), ..lit }).spelled() =~= lit.spelled()
        + " back"@);
    assert((TokenText { branch: Some(Branch::Zero), ..lit }).spelled() =~= lit.spelled()
        + " zero"@);
    assert((TokenText { branch: Some(Branch::Absolute(to)), ..lit }).spelled() =~= lit.spelled()
        + " @"@ + decimal(to as nat));
    assert((TokenText { pool: Some(p), ..t }).spelled() =~= branch.spelled() + " "@ + p);
}

proof fn lemma_same_regs(a: Seq<u16>, b: Seq<u16>, n: nat)
    requires
        n <= a.len(),
        n <= b.len(),
        a.take(n as int) == b.take(n as int),
    ensures
        regs_text(a, n) == regs_text(b, n),
    decreases n,
{
    if n > 0 {
        assert(a[n - 1] == a.take(n as int)[n - 1]);
        assert(b[n - 1] == b.take(n as int)[n - 1]);
        assert(a.take(n - 1) =~= a.take(n as int).take(n - 1));
        assert(b.take(n - 1) =~= b.take(n as int).take(n - 1));
        lemma_same_regs(a, b, (n - 1) as nat);
    }
}

/// Where text `i` starts where texts stand one after the other with one character between
/// each two.
pub open spec fn start_of_text(texts: Seq<Seq<char>>, i: int) -> int
    decreases i,
{
    if i <= 0 {
        0
    } else {
        start_of_text(texts, i - 1) + texts[i - 1].len() + 1
    }
}

/// Texts stand one after the other with `c` between each two.
pub open spec fn separated(whole: Seq<char>, texts: Seq<Seq<char>>, c: char) -> bool {
    &&& texts.len() == 0 ==> whole.len() == 0
    &&& texts.len() > 0 ==> whole.len() == start_of_text(texts, texts.len() as int) - 1
    &&& forall|i: int| 0 <= i < texts.len() ==> #[trigger] stands_in(whole, texts, c, i)
}

proof fn lemma_same_starts(a: Seq<Seq<char>>, b: Seq<Seq<char>>, i: int)
    requires
        0 <= i <= a.len(),
        a.len() <= b.len(),
        a == b.take(a.len() as int),
    ensures
        start_of_text(a, i) == start_of_text(b, i),
    decreases i,
{
    if i > 0 {
        lemma_same_starts(a, b, i - 1);
        assert(a[i - 1] == b[i - 1]);
    }
}

/// Text `i` stands in its place, with `c` before it unless it is the first.
pub open spec fn stands_in(whole: Seq<char>, texts: Seq<Seq<char>>, c: char, i: int) -> bool {
    let at = start_of_text(texts, i);
    &&& 0 <= at <= at + texts[i].len() <= whole.len()
    &&& whole.subrange(at, at + texts[i].len()) == texts[i]
    &&& i > 0 ==> at > 0 && whole[at - 1] == c
}

proof fn lemma_separated(
    whole: Seq<char>,
    texts: Seq<Seq<char>>,
    c: char,
    longer: Seq<Seq<char>>,
)
    requires
        separated(whole, texts, c),
        texts.len() > 0,
        longer.len() == texts.len() + 1,
        texts == longer.take(texts.len() as int),
    ensures
        separated(whole + seq![c] + longer.last(), longer, c),
{
    let n = texts.len() as int;
    let out = whole + seq![c] + longer.last();
    lemma_same_starts(texts, longer, n);
    assert forall|i: int| 0 <= i < longer.len() implies #[trigger] stands_in(
        out,
        longer,
        c,
        i,
    ) by {
        if i < n {
            let a = start_of_text(texts, i);
            lemma_same_starts(texts, longer, i);
            assert(stands_in(whole, texts, c, i));
            assert(longer[i] == longer.take(n)[i]);
            assert(out.subrange(a, a + texts[i].len()) =~= whole.subrange(
                a,
                a + texts[i].len(),
            ));
        } else {
            let a = whole.len() as int + 1;
            assert(start_of_text(longer, n) == a);
            assert(out.subrange(a, a + longer[n].len()) =~= longer[n]);
        }
    }
}

proof fn lemma_joined(set: Seq<Seq<char>>, n: nat)
    requires
        n <= set.len(),
    ensures
        separated(joined(set, n), set.take(n as int), '+'),
    decreases n,
{
    reveal_strlit("+");
    reveal_with_fuel(start_of_text, 2);
    if n == 1 {
        assert(set.take(1)[0] == set[0]);
        assert(joined(set, 1).subrange(0, set[0].len() as int) =~= set[0]);
    } else if n > 1 {
        let front = (n - 1) as nat;
        lemma_joined(set, front);
        assert("+"@ =~= seq!['+']);
        assert(set.take(n as int).take(n - 1) =~= set.take(n - 1));
        assert(set.take(n as int).last() == set[n - 1]);
        lemma_separated(joined(set, front), set.take(n - 1), '+', set.take(n as int));
    }
}

/// A set of supertypes reads as its texts, in their order, with a plus sign between each two.
pub proof fn supertypes_are_joined_by_plus_signs(set: Seq<Seq<char>>)
    ensures
        separated(joined(set, set.len()), set, '+'),
{
    lemma_joined(set, set.len());
    assert(set.take(set.len() as int) =~= set);
}

/// What tokens read.
pub open spec fn spellings(t: Seq<TokenText>) -> Seq<Seq<char>> {
    t.map_values(|x: TokenText| x.spelled())
}

proof fn lemma_lines(t: Seq<TokenText>, n: nat)
    requires
        n <= t.len(),
    ensures
        separated(lines(t, n), spellings(t).take(n as int), '\n'),
    decreases n,
{
    let all = spellings(t);
    reveal_strlit("\n");
    reveal_with_fuel(start_of_text, 2);
    if n == 1 {
        assert(all.take(1)[0] == t[0].spelled());
        assert(lines(t, 1).subrange(0, t[0].spelled().len() as int) =~= t[0].spelled());
    } else if n > 1 {
        let front = (n - 1) as nat;
        lemma_lines(t, front);
        assert("\n"@ =~= seq!['\n']);
        assert(all.take(n as int).take(n - 1) =~= all.take(n - 1));
        assert(all.take(n as int).last() == t[n - 1].spelled());
        lemma_separated(lines(t, front), all.take(n - 1), '\n', all.take(n as int));
    }
}

/// Tokens as text stand one to a line, with nothing behind the last.
pub proof fn tokens_stand_one_to_a_line(t: Seq<TokenText>)
    ensures
        separated(lines(t, t.len()), spellings(t), '\n'),
{
    lemma_lines(t, t.len());
    assert(spellings(t).take(t.len() as int) =~= spellings(t));
}

// Platform types

/// A type is of the platform where its descriptor starts with one of ten names; an array is
/// where its elements are.
pub proof fn platform_types_have_known_names(d: Seq<char>)
    ensures
        d.len() > 0 && d[0] == '[' ==> platform(d) == platform(d.skip(1)),
        !(d.len() > 0 && d[0] == '[') ==> (platform(d) <==> "Landroid/"@.is_prefix_of(d)
            || "Ldalvik/"@.is_prefix_of(d) || "Ljava/"@.is_prefix_of(d) || "Ljavax/"@.is_prefix_of(
            d,
        ) || "Lorg/w3c/dom/"@.is_prefix_of(d) || "Lorg/xml/sax/"@.is_prefix_of(d)
            || "Lorg/xmlpull/"@.is_prefix_of(d) || "Lorg/json/"@.is_prefix_of(d)
            || "Lorg/apache/http/"@.is_prefix_of(d) || "Ljunit/"@.is_prefix_of(d)),
{
    let ps = platform_prefixes();
    if d.len() > 0 && d[0] == '[' {
        assert(element(d) == element(d.skip(1)));
    } else {
        assert(element(d) == d);
        assert forall|i: int| 0 <= i < ps.len() implies starts_with(d, #[trigger] ps[i])
            == ps[i].is_prefix_of(d) by {
            lemma_prefix(d, ps[i]);
        }
        assert(ps[0] == "Landroid/"@ && ps[1] == "Ldalvik/"@ && ps[2] == "Ljava/"@ && ps[3]
            == "Ljavax/"@ && ps[4] == "Lorg/w3c/dom/"@ && ps[5] == "Lorg/xml/sax/"@ && ps[6]
            == "Lorg/xmlpull/"@ && ps[7] == "Lorg/json/"@ && ps[8] == "Lorg/apache/http/"@ && ps[9]
            == "Ljunit/"@);
        assert(starts_with(element(d), ps[0]) == "Landroid/"@.is_prefix_of(d));
        assert(starts_with(element(d), ps[1]) == "Ldalvik/"@.is_prefix_of(d));
        assert(starts_with(element(d), ps[2]) == "Ljava/"@.is_prefix_of(d));
        assert(starts_with(element(d), ps[3]) == "Ljavax/"@.is_prefix_of(d));
        assert(starts_with(element(d), ps[4]) == "Lorg/w3c/dom/"@.is_prefix_of(d));
        assert(starts_with(element(d), ps[5]) == "Lorg/xml/sax/"@.is_prefix_of(d));
        assert(starts_with(element(d), ps[6]) == "Lorg/xmlpull/"@.is_prefix_of(d));
        assert(starts_with(element(d), ps[7]) == "Lorg/json/"@.is_prefix_of(d));
        assert(starts_with(element(d), ps[8]) == "Lorg/apache/http/"@.is_prefix_of(d));
        assert(starts_with(element(d), ps[9]) == "Ljunit/"@.is_prefix_of(d));
    }
}

proof fn lemma_prefix(s: Seq<char>, p: Seq<char>)
    ensures
        starts_with(s, p) == p.is_prefix_of(s),
{
    if p.len() <= s.len() {
        assert(s.take(p.len() as int) =~= s.subrange(0, p.len() as int));
    }
}

/// Of two texts the one comes first that has the lesser character where they first differ, or
/// that the other goes on from.
pub proof fn texts_are_ordered_by_their_first_difference(a: Seq<char>, b: Seq<char>, k: int)
    requires
        0 <= k <= a.len(),
        k <= b.len(),
        a.take(k) == b.take(k),
        k == a.len() || k == b.len() || a[k] != b[k],
    ensures
        text_before(a, b, 0) <==> (k == a.len() && k < b.len()) || (k < a.len() && k < b.len() && (
        a[k] as u32) < (b[k] as u32)),
{
    lemma_text_before(a, b, 0, k);
}

proof fn lemma_text_before(a: Seq<char>, b: Seq<char>, i: int, k: int)
    requires
        0 <= i <= k <= a.len(),
        k <= b.len(),
        a.take(k) == b.take(k),
        k == a.len() || k == b.len() || a[k] != b[k],
    ensures
        text_before(a, b, i) <==> (k == a.len() && k < b.len()) || (k < a.len() && k < b.len() && (
        a[k] as u32) < (b[k] as u32)),
    decreases k - i,
{
    if i < k {
        assert(a[i] == a.take(k)[i]);
        assert(b[i] == b.take(k)[i]);
        lemma_text_before(a, b, i + 1, k);
    }
}

// Classes

proof fn lemma_definition(classes: Seq<ClassDefItem>, ty: u32, n: nat)
    requires
        n <= classes.len(),
    ensures
        match definition(classes, ty, n) {
            None => forall|k: int| 0 <= k < n ==> (#[trigger] classes[k]).class_idx.0 != ty,
            Some(i) => i < n && classes[i as int].class_idx.0 == ty && forall|k: int|
                i < k < n ==> (#[trigger] classes[k]).class_idx.0 != ty,
        },
    decreases n,
{
    if n > 0 {
        lemma_definition(classes, ty, (n - 1) as nat);
    }
}

/// The place of a type's definition is that of the last class of that type, and there is one
/// where there is such a class.
pub proof fn the_last_definition_counts(classes: Seq<ClassDefItem>, ty: u32, i: int)
    requires
        classes.len() <= usize::MAX,
    ensures
        0 <= i < classes.len() && classes[i].class_idx.0 == ty ==> class_places(
            classes,
        ).contains_key(ty) && class_places(classes)[ty] >= i,
        class_places(classes).contains_key(ty) ==> class_places(classes)[ty] < classes.len()
            && classes[class_places(classes)[ty] as int].class_idx.0 == ty,
{
    lemma_definition(classes, ty, classes.len());
}

} // verus!
