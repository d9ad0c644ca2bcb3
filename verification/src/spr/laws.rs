//! What holds of tokens whatever the file.
use vstd::prelude::*;

use crate::classes::class_places;
use crate::decode::{CodeItem, Instruction};
use crate::dex_file::DexFile;
use crate::ids::{StringIdx, TypeIdx};
use crate::opcodes::Opcode;
use crate::spr::supertypes::{
    ordered_set, parents, platform, platform_at, searched, supertypes, text_before, with_text,
    Search, NR_EXT_PLACEHOLDER, NR_WALK_NODE_CAP,
};
use crate::spr::token::{
    before_slash, dropped, lines, method_tokens, op_text, slash_from, token_of, tokens, Level,
    TokenText,
};

verus! {

// Structure

/// Two tokens differ at most in what they refer to.
pub open spec fn same_structure(a: TokenText, b: TokenText) -> bool {
    a.op == b.op && a.regs == b.regs && a.lit == b.lit && a.branch == b.branch
}

/// Operations, registers, numbers and branches of the tokens of a method do not
/// depend on the file and its names.
pub proof fn structure_is_independent_of_names(
    a: DexFile,
    b: DexFile,
    insns: Seq<Instruction>,
    level: Level,
    places: Option<Map<u32, usize>>,
    other: Option<Map<u32, usize>>,
    n: nat,
)
    ensures
        tokens(a, insns, level, places, n).len() == tokens(b, insns, level, other, n).len(),
        forall|i: int|
            0 <= i < tokens(a, insns, level, places, n).len() ==> same_structure(
                #[trigger] tokens(a, insns, level, places, n)[i],
                tokens(b, insns, level, other, n)[i],
            ),
    decreases n,
{
    if n > 0 {
        structure_is_independent_of_names(a, b, insns, level, places, other, (n - 1) as nat);
    }
}

/// How many of the first `n` instructions have a token at a level.
pub open spec fn kept(insns: Seq<Instruction>, level: Level, n: nat) -> nat
    decreases n,
{
    if n == 0 {
        0
    } else {
        kept(insns, level, (n - 1) as nat) + if dropped(insns[n - 1], level) {
            0nat
        } else {
            1nat
        }
    }
}

/// The most concrete level has a token for every instruction; the others have one
/// for every instruction but nops.
pub proof fn only_nops_are_dropped(
    dex: DexFile,
    insns: Seq<Instruction>,
    level: Level,
    places: Option<Map<u32, usize>>,
    n: nat,
)
    ensures
        tokens(dex, insns, level, places, n).len() == kept(insns, level, n),
        level is Bc ==> kept(insns, level, n) == n,
    decreases n,
{
    if n > 0 {
        only_nops_are_dropped(dex, insns, level, places, (n - 1) as nat);
    }
}

proof fn slash_comes_first(s: Seq<char>, i: int)
    requires
        0 <= i <= s.len(),
    ensures
        i <= slash_from(s, i) <= s.len(),
        forall|j: int| i <= j < slash_from(s, i) ==> s[j] != '/',
        slash_from(s, i) < s.len() ==> s[slash_from(s, i)] == '/',
    decreases s.len() - i,
{
    if i < s.len() && s[i] != '/' {
        slash_comes_first(s, i + 1);
    }
}

/// The abstract levels spell an operation without what follows its first slash, and
/// the same way as each other.
pub proof fn abstract_operations_have_no_suffix(op: Opcode)
    ensures
        op_text(op, Level::Ar) == op_text(op, Level::Nr),
        !op_text(op, Level::Ar).contains('/'),
        op_text(op, Level::Ar).is_prefix_of(op.spelling()),
        op.spelling().len() > op_text(op, Level::Ar).len() ==> op.spelling()[op_text(
            op,
            Level::Ar,
        ).len() as int] == '/',
{
    slash_comes_first(op.spelling(), 0);
    let short = before_slash(op.spelling());
    assert forall|j: int| 0 <= j < short.len() implies short[j] != '/' by {
        assert(short[j] == op.spelling()[j]);
    }
}

// Renaming

/// `b` is `a` with other names for types that are not of the platform.
pub open spec fn renamed(a: DexFile, b: DexFile) -> bool {
    &&& a.class_defs@ == b.class_defs@
    &&& a.fields@ == b.fields@
    &&& a.methods@ == b.methods@
    &&& forall|off: u32| #[trigger] a.list_at(off) == b.list_at(off)
    &&& forall|idx: StringIdx| #[trigger] a.string_at(idx) == b.string_at(idx)
    &&& a.type_descriptors@.len() == b.type_descriptors@.len()
    &&& forall|i: int|
        #![trigger a.type_descriptors@[i]]
        #![trigger b.type_descriptors@[i]]
        0 <= i < a.type_descriptors@.len() ==> {
            &&& platform(a.type_descriptors@[i]@) == platform(b.type_descriptors@[i]@)
            &&& platform(a.type_descriptors@[i]@) ==> a.type_descriptors@[i]@
                == b.type_descriptors@[i]@
        }
}

proof fn renamed_platform(a: DexFile, b: DexFile, ty: TypeIdx)
    requires
        renamed(a, b),
    ensures
        platform_at(a, ty) == platform_at(b, ty),
{
    if ty.0 < a.type_descriptors@.len() {
        let x = a.type_descriptors@[ty.0 as int];
        let y = b.type_descriptors@[ty.0 as int];
    }
}

proof fn renamed_search(
    a: DexFile,
    b: DexFile,
    places: Map<u32, usize>,
    root: TypeIdx,
    s: Search,
)
    requires
        renamed(a, b),
    ensures
        searched(a, places, root, s) == searched(b, places, root, s),
    decreases NR_WALK_NODE_CAP - s.visited.len(), s.stack.len(),
{
    if s.stack.len() > 0 && s.visited.len() < NR_WALK_NODE_CAP {
        let cur = s.stack.last();
        let rest = s.stack.drop_last();
        if s.visited.contains(cur) {
            renamed_search(a, b, places, root, Search { stack: rest, ..s });
        } else {
            let visited = s.visited.push(cur);
            renamed_platform(a, b, cur);
            match platform_at(a, cur) {
                Some(d) if cur != root => {
                    renamed_search(
                        a,
                        b,
                        places,
                        root,
                        Search { stack: rest, visited, found: s.found.push(d) },
                    );
                },
                _ => {
                    assert(parents(a, places, cur) == parents(b, places, cur));
                    match parents(a, places, cur) {
                        None => {
                            renamed_search(
                                a,
                                b,
                                places,
                                root,
                                Search {
                                    stack: rest,
                                    visited,
                                    found: s.found.push(NR_EXT_PLACEHOLDER@),
                                },
                            );
                        },
                        Some(up) => {
                            renamed_search(
                                a,
                                b,
                                places,
                                root,
                                Search { stack: rest + up, visited, found: s.found },
                            );
                        },
                    }
                },
            }
        }
    }
}

/// Renaming changes the platform supertypes of no type.
pub proof fn renaming_keeps_supertypes(
    a: DexFile,
    b: DexFile,
    places: Map<u32, usize>,
    ty: TypeIdx,
)
    requires
        renamed(a, b),
    ensures
        supertypes(a, places, ty) == supertypes(b, places, ty),
{
    renamed_platform(a, b, ty);
    renamed_search(
        a,
        b,
        places,
        ty,
        Search { stack: seq![ty], visited: Seq::empty(), found: Seq::empty() },
    );
}

proof fn renamed_tokens(
    a: DexFile,
    b: DexFile,
    insns: Seq<Instruction>,
    places: Map<u32, usize>,
    n: nat,
)
    requires
        renamed(a, b),
    ensures
        tokens(a, insns, Level::Nr, Some(places), n) == tokens(
            b,
            insns,
            Level::Nr,
            Some(places),
            n,
        ),
    decreases n,
{
    if n > 0 {
        renamed_tokens(a, b, insns, places, (n - 1) as nat);
        assert forall|ty: TypeIdx| #[trigger]
            supertypes(a, places, ty) == supertypes(b, places, ty) by {
            renaming_keeps_supertypes(a, b, places, ty);
        }
        let x = token_of(a, insns[n - 1], Level::Nr, Some(places));
        let y = token_of(b, insns[n - 1], Level::Nr, Some(places));
        assert(x.pool == y.pool);
        assert(x == y);
    }
}

/// At the level without names, renaming changes no token of any method, nor its
/// text.
pub proof fn renaming_changes_no_token(a: DexFile, b: DexFile, code: CodeItem)
    requires
        renamed(a, b),
    ensures
        method_tokens(a, code, Level::Nr) == method_tokens(b, code, Level::Nr),
        lines(method_tokens(a, code, Level::Nr), method_tokens(a, code, Level::Nr).len()) == lines(
            method_tokens(b, code, Level::Nr),
            method_tokens(b, code, Level::Nr).len(),
        ),
{
    renamed_tokens(
        a,
        b,
        code.instructions@,
        class_places(a.class_defs@),
        code.instructions@.len(),
    );
}

// Supertypes

/// Every text comes before all later ones.
pub open spec fn texts_ascend(s: Seq<Seq<char>>) -> bool {
    forall|i: int, j: int| 0 <= i < j < s.len() ==> text_before(s[i], s[j], 0)
}

proof fn before_is_transitive(a: Seq<char>, b: Seq<char>, c: Seq<char>, i: int)
    requires
        0 <= i,
        text_before(a, b, i),
        text_before(b, c, i),
    ensures
        text_before(a, c, i),
    decreases c.len() - i,
{
    if i < a.len() && i < b.len() && i < c.len() && a[i] == b[i] && b[i] == c[i] {
        before_is_transitive(a, b, c, i + 1);
    }
}

proof fn characters_differ(a: char, b: char)
    requires
        a != b,
    ensures
        (a as u32) != (b as u32),
{
}

proof fn before_is_total(a: Seq<char>, b: Seq<char>, i: int)
    requires
        0 <= i <= a.len(),
        i <= b.len(),
        a.take(i) == b.take(i),
        a != b,
    ensures
        text_before(a, b, i) || text_before(b, a, i),
    decreases a.len() + b.len() - 2 * i,
{
    if i < a.len() && i < b.len() {
        if a[i] == b[i] {
            assert(a.take(i + 1) =~= a.take(i).push(a[i]));
            assert(b.take(i + 1) =~= b.take(i).push(b[i]));
            before_is_total(a, b, i + 1);
        } else {
            characters_differ(a[i], b[i]);
        }
    } else if i == a.len() && i == b.len() {
        assert(a.take(i) =~= a);
        assert(b.take(i) =~= b);
    }
}

proof fn with_text_ascends(sorted: Seq<Seq<char>>, x: Seq<char>)
    requires
        texts_ascend(sorted),
    ensures
        texts_ascend(with_text(sorted, x)),
        with_text(sorted, x).to_set() == sorted.to_set().insert(x),
        with_text(sorted, x).len() > 0,
    decreases sorted.len(),
{
    if sorted.len() == 0 {
        assert(with_text(sorted, x).to_set() =~= sorted.to_set().insert(x)) by {
            assert(seq![x][0] == x);
            assert forall|y: Seq<char>| with_text(sorted, x).contains(y) == (y == x) by {
                if y == x {
                    assert(with_text(sorted, x)[0] == y);
                }
            }
        }
    } else {
        let last = sorted.last();
        let front = sorted.drop_last();
        assert(sorted =~= front.push(last));
        if last == x {
            assert(sorted[sorted.len() - 1] == x);
            assert(sorted.to_set() =~= sorted.to_set().insert(x));
        } else if text_before(x, last, 0) {
            with_text_ascends(front, x);
            let w = with_text(front, x);
            assert forall|i: int| 0 <= i < w.len() implies text_before(
                #[trigger] w[i],
                last,
                0,
            ) by {
                assert(w.to_set().contains(w[i]));
                if w[i] != x {
                    assert(front.to_set().contains(w[i]));
                    let k = choose|k: int| 0 <= k < front.len() && front[k] == w[i];
                    assert(sorted[k] == w[i]);
                    assert(sorted[sorted.len() - 1] == last);
                }
            }
            assert(w.push(last).to_set() =~= w.to_set().insert(last)) by {
                pushed_set(w, last);
            }
            assert(sorted.to_set() =~= front.to_set().insert(last)) by {
                pushed_set(front, last);
            }
            assert(w.push(last).to_set() =~= sorted.to_set().insert(x));
        } else {
            assert(last.take(0) =~= x.take(0));
            before_is_total(last, x, 0);
            assert forall|i: int| 0 <= i < sorted.len() implies text_before(
                #[trigger] sorted[i],
                x,
                0,
            ) by {
                if i < sorted.len() - 1 {
                    before_is_transitive(sorted[i], last, x, 0);
                }
            }
            pushed_set(sorted, x);
        }
    }
}

proof fn pushed_set(s: Seq<Seq<char>>, x: Seq<char>)
    ensures
        s.push(x).to_set() == s.to_set().insert(x),
{
    assert forall|y: Seq<char>| s.push(x).to_set().contains(y) == s.to_set().insert(x).contains(
        y,
    ) by {
        if s.contains(y) {
            let k = choose|k: int| 0 <= k < s.len() && s[k] == y;
            assert(s.push(x)[k] == y);
        }
        if y == x {
            assert(s.push(x)[s.len() as int] == y);
        }
    }
    assert(s.push(x).to_set() =~= s.to_set().insert(x));
}

/// The texts in an ordered set stand in order, and are those that were put in.
pub proof fn ordered_set_ascends(found: Seq<Seq<char>>)
    ensures
        texts_ascend(ordered_set(found)),
        ordered_set(found).to_set() == found.to_set(),
        found.len() > 0 ==> ordered_set(found).len() > 0,
    decreases found.len(),
{
    if found.len() == 0 {
        assert(ordered_set(found).to_set() =~= found.to_set());
    } else {
        ordered_set_ascends(found.drop_last());
        with_text_ascends(ordered_set(found.drop_last()), found.last());
        assert(found =~= found.drop_last().push(found.last()));
        pushed_set(found.drop_last(), found.last());
    }
}

/// What a search may find: platform types and the placeholder.
pub open spec fn findable(t: Seq<char>) -> bool {
    platform(t) || t == NR_EXT_PLACEHOLDER@
}

proof fn search_finds_findable(dex: DexFile, places: Map<u32, usize>, root: TypeIdx, s: Search)
    requires
        forall|i: int| 0 <= i < s.found.len() ==> findable(#[trigger] s.found[i]),
    ensures
        forall|i: int|
            0 <= i < searched(dex, places, root, s).len() ==> findable(
                #[trigger] searched(dex, places, root, s)[i],
            ),
    decreases NR_WALK_NODE_CAP - s.visited.len(), s.stack.len(),
{
    if s.stack.len() > 0 && s.visited.len() < NR_WALK_NODE_CAP {
        let cur = s.stack.last();
        let rest = s.stack.drop_last();
        let visited = s.visited.push(cur);
        let next = if s.visited.contains(cur) {
            Search { stack: rest, ..s }
        } else {
            match platform_at(dex, cur) {
                Some(d) if cur != root => Search {
                    stack: rest,
                    visited,
                    found: s.found.push(d),
                },
                _ => match parents(dex, places, cur) {
                    None => Search {
                        stack: rest,
                        visited,
                        found: s.found.push(NR_EXT_PLACEHOLDER@),
                    },
                    Some(up) => Search { stack: rest + up, visited, found: s.found },
                },
            }
        };
        assert(searched(dex, places, root, s) == searched(dex, places, root, next));
        search_finds_findable(dex, places, root, next);
    }
}

/// The supertypes of a type are never none, stand in order without repetition, and
/// each is a platform type or the placeholder.
pub proof fn supertypes_are_an_ordered_set(dex: DexFile, places: Map<u32, usize>, ty: TypeIdx)
    ensures
        supertypes(dex, places, ty).len() > 0,
        texts_ascend(supertypes(dex, places, ty)),
        forall|i: int|
            0 <= i < supertypes(dex, places, ty).len() ==> findable(
                #[trigger] supertypes(dex, places, ty)[i],
            ),
{
    if platform_at(dex, ty) is None {
        let start = Search { stack: seq![ty], visited: Seq::empty(), found: Seq::empty() };
        let found = searched(dex, places, ty, start);
        search_finds_findable(dex, places, ty, start);
        if found.len() > 0 {
            ordered_set_ascends(found);
            let s = ordered_set(found);
            assert forall|i: int| 0 <= i < s.len() implies findable(#[trigger] s[i]) by {
                assert(s.to_set().contains(s[i]));
                assert(found.to_set().contains(s[i]));
                let k = choose|k: int| 0 <= k < found.len() && found[k] == s[i];
                assert(findable(found[k]));
            }
        }
    }
}

} // verus!
