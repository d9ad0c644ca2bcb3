//! Which types count as the platform supertypes of a type.
use vstd::prelude::*;

use crate::dex_file::DexFile;
use crate::ids::TypeIdx;
use crate::spr::laws::ordered_set_ascends;
use crate::spr::supertypes::{
    ordered_set, parents, platform, platform_at, searched, supertypes, with_text, Search,
};

verus! {

// One step up

/// The file defines the type.
pub open spec fn has_definition(dex: DexFile, places: Map<u32, usize>, ty: TypeIdx) -> bool {
    places.contains_key(ty.0) && places[ty.0] < dex.class_defs@.len()
}

/// The definition of `ty` names `up` as its superclass or in its list of interfaces.
pub open spec fn extends(
    dex: DexFile,
    places: Map<u32, usize>,
    ty: TypeIdx,
    up: TypeIdx,
) -> bool {
    let c = dex.class_defs@[places[ty.0] as int];
    &&& has_definition(dex, places, ty)
    &&& c.superclass_idx == Some(up) || (c.interfaces_off != 0 && dex.type_lists@.contains_key(
        c.interfaces_off,
    ) && dex.type_lists@[c.interfaces_off]@.contains(up))
}

/// The type has a descriptor, and it is one of the platform.
pub open spec fn of_platform(dex: DexFile, ty: TypeIdx) -> bool {
    ty.0 < dex.type_descriptors@.len() && platform(dex.type_descriptors@[ty.0 as int]@)
}

/// A way up: each type extends the one before, and only the last may be of the platform.
pub open spec fn climbs(dex: DexFile, places: Map<u32, usize>, way: Seq<TypeIdx>) -> bool {
    &&& way.len() > 0
    &&& forall|i: int|
        0 <= i < way.len() - 1 ==> !of_platform(dex, #[trigger] way[i]) && extends(
            dex,
            places,
            way[i],
            way[i + 1],
        )
}

/// There is a way up from `ty` to `up`.
pub open spec fn reaches(
    dex: DexFile,
    places: Map<u32, usize>,
    ty: TypeIdx,
    up: TypeIdx,
) -> bool {
    exists|way: Seq<TypeIdx>| #[trigger]
        climbs(dex, places, way) && way[0] == ty && way.last() == up
}

/// All types to which there is a way up from `ty` are in `all`.
pub open spec fn within(
    dex: DexFile,
    places: Map<u32, usize>,
    ty: TypeIdx,
    all: Set<TypeIdx>,
) -> bool {
    forall|up: TypeIdx| #[trigger] reaches(dex, places, ty, up) ==> all.contains(up)
}

/// Where a type stands for itself: a platform type above `ty`, or one outside the file.
pub open spec fn stands_for(
    dex: DexFile,
    places: Map<u32, usize>,
    ty: TypeIdx,
    up: TypeIdx,
    t: Seq<char>,
) -> bool {
    &&& reaches(dex, places, ty, up)
    &&& if of_platform(dex, up) {
        t == dex.type_descriptors@[up.0 as int]@
    } else {
        !has_definition(dex, places, up) && t == "<ext>"@
    }
}

proof fn lemma_parents(dex: DexFile, places: Map<u32, usize>, ty: TypeIdx)
    ensures
        parents(dex, places, ty) is Some == has_definition(dex, places, ty),
        forall|up: TypeIdx| #[trigger]
            extends(dex, places, ty, up) <==> (parents(dex, places, ty) is Some && parents(
                dex,
                places,
                ty,
            )->0.contains(up)),
        platform_at(dex, ty) is Some == of_platform(dex, ty),
        of_platform(dex, ty) ==> platform_at(dex, ty)->0 == dex.type_descriptors@[ty.0 as int]@,
{
    if has_definition(dex, places, ty) {
        let c = dex.class_defs@[places[ty.0] as int];
        let ps = parents(dex, places, ty)->0;
        let list = dex.list_at(c.interfaces_off);
        let first = match c.superclass_idx {
            Some(s) => seq![s],
            None => Seq::empty(),
        };
        assert(ps == first + list);
        assert forall|up: TypeIdx| #[trigger] extends(dex, places, ty, up) == ps.contains(up) by {
            if c.superclass_idx == Some(up) {
                assert(ps[0] == up);
            }
            if list.contains(up) {
                let k = choose|k: int| 0 <= k < list.len() && list[k] == up;
                assert(ps[first.len() + k] == up);
            }
            if ps.contains(up) {
                let k = choose|k: int| 0 <= k < ps.len() && ps[k] == up;
                if k >= first.len() {
                    assert(list[k - first.len()] == up);
                }
            }
        }
    }
}

proof fn lemma_reaches_itself(dex: DexFile, places: Map<u32, usize>, ty: TypeIdx)
    ensures
        reaches(dex, places, ty, ty),
{
    let way = seq![ty];
    assert(climbs(dex, places, way));
    assert(way[0] == ty && way.last() == ty);
}

proof fn lemma_reaches_further(
    dex: DexFile,
    places: Map<u32, usize>,
    ty: TypeIdx,
    mid: TypeIdx,
    up: TypeIdx,
)
    requires
        reaches(dex, places, ty, mid),
        !of_platform(dex, mid),
        extends(dex, places, mid, up),
    ensures
        reaches(dex, places, ty, up),
{
    let way = choose|way: Seq<TypeIdx>| #[trigger]
        climbs(dex, places, way) && way[0] == ty && way.last() == mid;
    let longer = way.push(up);
    assert forall|i: int| 0 <= i < longer.len() - 1 implies !of_platform(dex, #[trigger] longer[i])
        && extends(dex, places, longer[i], longer[i + 1]) by {
        if i < way.len() - 1 {
            assert(longer[i] == way[i]);
            assert(longer[i + 1] == way[i + 1]);
        }
    }
    assert(climbs(dex, places, longer));
    assert(longer[0] == ty && longer.last() == up);
}

// The search

/// Everything on the stack, visited or found comes from types above `root`.
spec fn comes_from(dex: DexFile, places: Map<u32, usize>, root: TypeIdx, s: Search) -> bool {
    &&& forall|i: int| 0 <= i < s.stack.len() ==> reaches(dex, places, root, #[trigger] s.stack[i])
    &&& forall|i: int|
        0 <= i < s.visited.len() ==> reaches(dex, places, root, #[trigger] s.visited[i])
    &&& forall|i: int| 0 <= i < s.found.len() ==> accounted(dex, places, root, #[trigger] s.found[i])
}

/// The text stands for a type above `root`.
spec fn accounted(dex: DexFile, places: Map<u32, usize>, root: TypeIdx, t: Seq<char>) -> bool {
    exists|up: TypeIdx| #[trigger] stands_for(dex, places, root, up, t)
}

/// What is owed for a type that was visited: a text, or its parents.
spec fn settled(
    dex: DexFile,
    places: Map<u32, usize>,
    v: TypeIdx,
    known: Set<TypeIdx>,
    found: Seq<Seq<char>>,
) -> bool {
    if of_platform(dex, v) {
        found.contains(dex.type_descriptors@[v.0 as int]@)
    } else if !has_definition(dex, places, v) {
        found.contains("<ext>"@)
    } else {
        forall|up: TypeIdx| #[trigger] extends(dex, places, v, up) ==> known.contains(up)
    }
}

/// What is owed for each type that was visited.
spec fn all_settled(
    dex: DexFile,
    places: Map<u32, usize>,
    visited: Set<TypeIdx>,
    known: Set<TypeIdx>,
    found: Seq<Seq<char>>,
) -> bool {
    forall|v: TypeIdx| #[trigger]
        visited.contains(v) ==> settled(dex, places, v, known, found)
}

/// One step of a search.
spec fn after(dex: DexFile, places: Map<u32, usize>, s: Search) -> Search {
    let cur = s.stack.last();
    let rest = s.stack.drop_last();
    if s.visited.contains(cur) {
        Search { stack: rest, ..s }
    } else {
        let visited = s.visited.push(cur);
        match platform_at(dex, cur) {
            Some(d) => Search { stack: rest, visited, found: s.found.push(d) },
            None => match parents(dex, places, cur) {
                None => Search { stack: rest, visited, found: s.found.push("<ext>"@) },
                Some(up) => Search { stack: rest + up, visited, found: s.found },
            },
        }
    }
}

proof fn lemma_after(dex: DexFile, places: Map<u32, usize>, root: TypeIdx, s: Search)
    requires
        !of_platform(dex, root),
        s.stack.len() > 0,
        s.visited.len() < 256,
    ensures
        searched(dex, places, root, s) == searched(dex, places, root, after(dex, places, s)),
{
    let cur = s.stack.last();
    lemma_parents(dex, places, cur);
    lemma_parents(dex, places, root);
}

proof fn lemma_sound(dex: DexFile, places: Map<u32, usize>, root: TypeIdx, s: Search)
    requires
        !of_platform(dex, root),
        comes_from(dex, places, root, s),
    ensures
        forall|i: int|
            0 <= i < searched(dex, places, root, s).len() ==> accounted(
                dex,
                places,
                root,
                #[trigger] searched(dex, places, root, s)[i],
            ),
        s.found.len() <= s.visited.len() <= 256 ==> searched(dex, places, root, s).len() <= 256,
    decreases 256 - s.visited.len(), s.stack.len(),
{
    if s.stack.len() > 0 && s.visited.len() < 256 {
        let next = after(dex, places, s);
        lemma_after(dex, places, root, s);
        lemma_sound_step(dex, places, root, s);
        lemma_sound(dex, places, root, next);
    }
}

proof fn lemma_settled_stays(
    dex: DexFile,
    places: Map<u32, usize>,
    visited: Set<TypeIdx>,
    known: Set<TypeIdx>,
    found: Seq<Seq<char>>,
    more: Set<TypeIdx>,
    longer: Seq<Seq<char>>,
)
    requires
        all_settled(dex, places, visited, known, found),
        known.subset_of(more),
        found.is_prefix_of(longer),
    ensures
        all_settled(dex, places, visited, more, longer),
{
    assert forall|t: Seq<char>| found.contains(t) implies longer.contains(t) by {
        let k = choose|k: int| 0 <= k < found.len() && found[k] == t;
        assert(longer[k] == t);
    }
    assert forall|v: TypeIdx| #[trigger] visited.contains(v) implies settled(
        dex,
        places,
        v,
        more,
        longer,
    ) by {
        assert(settled(dex, places, v, known, found));
    }
}

/// A search that no more than the cap can be above settles all that it meets.
proof fn lemma_complete(
    dex: DexFile,
    places: Map<u32, usize>,
    root: TypeIdx,
    s: Search,
    all: Set<TypeIdx>,
) -> (known: Set<TypeIdx>)
    requires
        !of_platform(dex, root),
        comes_from(dex, places, root, s),
        within(dex, places, root, all),
        all.finite(),
        all.len() <= 256,
        s.visited.no_duplicates(),
        all_settled(
            dex,
            places,
            s.visited.to_set(),
            s.visited.to_set().union(s.stack.to_set()),
            s.found,
        ),
    ensures
        s.visited.to_set().union(s.stack.to_set()).subset_of(known),
        all_settled(dex, places, known, known, searched(dex, places, root, s)),
    decreases 256 - s.visited.len(), s.stack.len(),
{
    let seen = s.visited.to_set();
    let before = seen.union(s.stack.to_set());
    if s.stack.len() == 0 {
        assert(before =~= seen) by {
            assert forall|v: TypeIdx| !s.stack.to_set().contains(v) by {}
        }
        seen
    } else if s.visited.len() >= 256 {
        assert(seen.subset_of(all)) by {
            assert forall|v: TypeIdx| seen.contains(v) implies all.contains(v) by {
                let k = choose|k: int| 0 <= k < s.visited.len() && s.visited[k] == v;
                assert(reaches(dex, places, root, s.visited[k]));
            }
        }
        s.visited.unique_seq_to_set();
        vstd::set_lib::lemma_len_subset(seen, all);
        assert(seen.len() == 256);
        vstd::set_lib::lemma_subset_equality(seen, all);
        assert(before =~= seen) by {
            assert forall|v: TypeIdx| s.stack.to_set().contains(v) implies seen.contains(v) by {
                let k = choose|k: int| 0 <= k < s.stack.len() && s.stack[k] == v;
                assert(reaches(dex, places, root, s.stack[k]));
            }
        }
        seen
    } else {
        let next = after(dex, places, s);
        let cur = s.stack.last();
        let rest = s.stack.drop_last();
        let then = next.visited.to_set().union(next.stack.to_set());
        lemma_after(dex, places, root, s);
        lemma_parents(dex, places, cur);
        assert(reaches(dex, places, root, s.stack[s.stack.len() - 1]));
        lemma_sound_step(dex, places, root, s);
        assert forall|v: TypeIdx| before.contains(v) implies then.contains(v) by {
            if s.stack.contains(v) {
                let k = choose|k: int| 0 <= k < s.stack.len() && s.stack[k] == v;
                if k < rest.len() {
                    assert(next.stack[k] == v);
                } else if !s.visited.contains(cur) {
                    assert(next.visited[s.visited.len() as int] == v);
                }
            }
            if s.visited.contains(v) {
                let k = choose|k: int| 0 <= k < s.visited.len() && s.visited[k] == v;
                assert(next.visited[k] == v);
            }
        }
        lemma_settled_stays(dex, places, seen, before, s.found, then, next.found);
        assert forall|v: TypeIdx| #[trigger]
            next.visited.to_set().contains(v) implies settled(
            dex,
            places,
            v,
            then,
            next.found,
        ) by {
            if s.visited.contains(v) {
                assert(seen.contains(v));
            } else {
                assert(v == cur);
                if of_platform(dex, cur) || !has_definition(dex, places, cur) {
                    assert(next.found[s.found.len() as int] == next.found.last());
                } else {
                    let up = parents(dex, places, cur)->0;
                    assert forall|p: TypeIdx| #[trigger]
                        extends(dex, places, cur, p) implies then.contains(p) by {
                        let k = choose|k: int| 0 <= k < up.len() && up[k] == p;
                        assert(next.stack[rest.len() + k] == p);
                    }
                }
            }
        }
        let known = lemma_complete(dex, places, root, next, all);
        known
    }
}

proof fn lemma_sound_step(dex: DexFile, places: Map<u32, usize>, root: TypeIdx, s: Search)
    requires
        !of_platform(dex, root),
        comes_from(dex, places, root, s),
        s.stack.len() > 0,
    ensures
        comes_from(dex, places, root, after(dex, places, s)),
{
    let next = after(dex, places, s);
    let cur = s.stack.last();
    lemma_parents(dex, places, cur);
    assert(reaches(dex, places, root, s.stack[s.stack.len() - 1]));
    assert forall|i: int| 0 <= i < next.stack.len() implies reaches(
        dex,
        places,
        root,
        #[trigger] next.stack[i],
    ) by {
        if i < s.stack.len() - 1 {
            assert(next.stack[i] == s.stack[i]);
        } else {
            let up = parents(dex, places, cur)->0;
            assert(next.stack[i] == up[i - (s.stack.len() - 1)]);
            assert(up.contains(next.stack[i]));
            assert(extends(dex, places, cur, next.stack[i]));
            lemma_reaches_further(dex, places, root, cur, next.stack[i]);
        }
    }
    assert forall|i: int| 0 <= i < next.visited.len() implies reaches(
        dex,
        places,
        root,
        #[trigger] next.visited[i],
    ) by {
        if i < s.visited.len() {
            assert(next.visited[i] == s.visited[i]);
        }
    }
    assert forall|i: int| 0 <= i < next.found.len() implies accounted(
        dex,
        places,
        root,
        #[trigger] next.found[i],
    ) by {
        if i < s.found.len() {
            assert(next.found[i] == s.found[i]);
        } else {
            assert(stands_for(dex, places, root, cur, next.found[i]));
        }
    }
}

proof fn lemma_way(
    dex: DexFile,
    places: Map<u32, usize>,
    way: Seq<TypeIdx>,
    known: Set<TypeIdx>,
    found: Seq<Seq<char>>,
    n: int,
)
    requires
        climbs(dex, places, way),
        known.contains(way[0]),
        all_settled(dex, places, known, known, found),
        0 <= n < way.len(),
    ensures
        known.contains(way[n]),
    decreases n,
{
    if n > 0 {
        lemma_way(dex, places, way, known, found, n - 1);
        assert(settled(dex, places, way[n - 1], known, found));
        assert(extends(dex, places, way[n - 1], way[n - 1 + 1]));
    }
}

spec fn begun(ty: TypeIdx) -> Search {
    Search { stack: seq![ty], visited: Seq::empty(), found: Seq::empty() }
}

proof fn lemma_begun(dex: DexFile, places: Map<u32, usize>, ty: TypeIdx)
    ensures
        comes_from(dex, places, ty, begun(ty)),
{
    lemma_reaches_itself(dex, places, ty);
}

/// A platform type is its own platform supertype, and has no other.
pub proof fn platform_types_stand_for_themselves(
    dex: DexFile,
    places: Map<u32, usize>,
    ty: TypeIdx,
)
    requires
        of_platform(dex, ty),
    ensures
        supertypes(dex, places, ty) == seq![dex.type_descriptors@[ty.0 as int]@],
{
    lemma_parents(dex, places, ty);
}

/// Every text among the supertypes of a type is the descriptor of a platform type above it, or
/// the placeholder where a type above it is outside the file or nothing is above it at all.
pub proof fn supertypes_are_above(
    dex: DexFile,
    places: Map<u32, usize>,
    ty: TypeIdx,
    t: Seq<char>,
)
    requires
        !of_platform(dex, ty),
        supertypes(dex, places, ty).contains(t),
    ensures
        (exists|up: TypeIdx| #[trigger] stands_for(dex, places, ty, up, t)) || (t == "<ext>"@
            && supertypes(dex, places, ty) == seq!["<ext>"@]),
{
    let found = searched(dex, places, ty, begun(ty));
    lemma_parents(dex, places, ty);
    lemma_begun(dex, places, ty);
    lemma_sound(dex, places, ty, begun(ty));
    if found.len() > 0 {
        ordered_set_ascends(found);
        assert(supertypes(dex, places, ty).to_set().contains(t));
        assert(found.to_set().contains(t));
        let k = choose|k: int| 0 <= k < found.len() && found[k] == t;
        assert(accounted(dex, places, ty, found[k]));
    }
}

proof fn lemma_set_len(found: Seq<Seq<char>>)
    ensures
        ordered_set(found).len() <= found.len(),
    decreases found.len(),
{
    if found.len() > 0 {
        lemma_set_len(found.drop_last());
        lemma_with_text_len(ordered_set(found.drop_last()), found.last());
    }
}

proof fn lemma_with_text_len(sorted: Seq<Seq<char>>, x: Seq<char>)
    ensures
        with_text(sorted, x).len() <= sorted.len() + 1,
    decreases sorted.len(),
{
    if sorted.len() > 0 {
        lemma_with_text_len(sorted.drop_last(), x);
    }
}

/// A type has at most 256 platform supertypes, however many are above it.
pub proof fn supertypes_are_bounded(dex: DexFile, places: Map<u32, usize>, ty: TypeIdx)
    ensures
        supertypes(dex, places, ty).len() <= 256,
{
    lemma_parents(dex, places, ty);
    if !of_platform(dex, ty) {
        lemma_begun(dex, places, ty);
        lemma_sound(dex, places, ty, begun(ty));
        lemma_set_len(searched(dex, places, ty, begun(ty)));
    }
}

/// Where no more than 256 types are above a type, itself among them, each platform type to
/// which there is a way up over superclasses and interfaces is among its supertypes, and so is
/// the placeholder for each type outside the file.
pub proof fn every_platform_type_above_is_found(
    dex: DexFile,
    places: Map<u32, usize>,
    ty: TypeIdx,
    up: TypeIdx,
    t: Seq<char>,
    all: Set<TypeIdx>,
)
    requires
        !of_platform(dex, ty),
        within(dex, places, ty, all),
        all.finite(),
        all.len() <= 256,
        stands_for(dex, places, ty, up, t),
    ensures
        supertypes(dex, places, ty).contains(t),
{
    let found = searched(dex, places, ty, begun(ty));
    let s = begun(ty);
    lemma_parents(dex, places, ty);
    lemma_begun(dex, places, ty);
    let known = lemma_complete(dex, places, ty, s, all);
    let way = choose|way: Seq<TypeIdx>| #[trigger]
        climbs(dex, places, way) && way[0] == ty && way.last() == up;
    assert(s.stack[0] == ty);
    assert(s.visited.to_set().union(s.stack.to_set()).contains(ty));
    lemma_way(dex, places, way, known, found, way.len() - 1);
    assert(settled(dex, places, up, known, found));
    assert(found.contains(t));
    ordered_set_ascends(found);
    assert(found.to_set().contains(t));
    assert(supertypes(dex, places, ty).to_set().contains(t));
}

/// The platform types among the superclass and the interfaces of a class that is not of the
/// platform are among its supertypes, where no more than 256 types are above it.
pub proof fn parents_of_the_platform_are_found(
    dex: DexFile,
    places: Map<u32, usize>,
    ty: TypeIdx,
    up: TypeIdx,
    all: Set<TypeIdx>,
)
    requires
        !of_platform(dex, ty),
        extends(dex, places, ty, up),
        of_platform(dex, up),
        within(dex, places, ty, all),
        all.finite(),
        all.len() <= 256,
    ensures
        supertypes(dex, places, ty).contains(dex.type_descriptors@[up.0 as int]@),
{
    let t = dex.type_descriptors@[up.0 as int]@;
    lemma_reaches_itself(dex, places, ty);
    lemma_reaches_further(dex, places, ty, ty, up);
    assert(stands_for(dex, places, ty, up, t));
    every_platform_type_above_is_found(dex, places, ty, up, t, all);
}

/// The definition of `ty` names `up` last: at the end of its list of interfaces or, where it
/// has none, as its superclass.
pub open spec fn extends_last(
    dex: DexFile,
    places: Map<u32, usize>,
    ty: TypeIdx,
    up: TypeIdx,
) -> bool {
    let c = dex.class_defs@[places[ty.0] as int];
    let listed = c.interfaces_off != 0 && dex.type_lists@.contains_key(c.interfaces_off)
        && dex.type_lists@[c.interfaces_off]@.len() > 0;
    &&& has_definition(dex, places, ty)
    &&& if listed {
        dex.type_lists@[c.interfaces_off]@.last() == up
    } else {
        c.superclass_idx == Some(up)
    }
}

proof fn lemma_last_parent(dex: DexFile, places: Map<u32, usize>, ty: TypeIdx, up: TypeIdx)
    requires
        extends_last(dex, places, ty, up),
    ensures
        parents(dex, places, ty) matches Some(ps) && ps.len() > 0 && ps.last() == up,
{
}

proof fn lemma_keeps(dex: DexFile, places: Map<u32, usize>, root: TypeIdx, s: Search, t: Seq<char>)
    requires
        !of_platform(dex, root),
        s.found.contains(t),
    ensures
        searched(dex, places, root, s).contains(t),
    decreases 256 - s.visited.len(), s.stack.len(),
{
    if s.stack.len() > 0 && s.visited.len() < 256 {
        let next = after(dex, places, s);
        let k = choose|k: int| 0 <= k < s.found.len() && s.found[k] == t;
        lemma_after(dex, places, root, s);
        assert(next.found[k] == t);
        lemma_keeps(dex, places, root, next, t);
    }
}

proof fn lemma_followed(
    dex: DexFile,
    places: Map<u32, usize>,
    way: Seq<TypeIdx>,
    i: int,
    s: Search,
)
    requires
        climbs(dex, places, way),
        forall|k: int|
            0 <= k < way.len() - 1 ==> extends_last(dex, places, #[trigger] way[k], way[k + 1]),
        way.no_duplicates(),
        1 < way.len() <= 256,
        of_platform(dex, way.last()),
        0 <= i < way.len(),
        s.stack.len() > 0,
        s.stack.last() == way[i],
        s.visited == way.take(i),
    ensures
        searched(dex, places, way[0], s).contains(
            dex.type_descriptors@[way.last().0 as int]@,
        ),
    decreases way.len() - i,
{
    let root = way[0];
    let cur = way[i];
    let next = after(dex, places, s);
    assert(!s.visited.contains(cur)) by {
        if s.visited.contains(cur) {
            let k = choose|k: int| 0 <= k < s.visited.len() && s.visited[k] == cur;
            assert(way[k] == way.take(i)[k]);
        }
    }
    lemma_parents(dex, places, cur);
    lemma_after(dex, places, root, s);
    if i == way.len() - 1 {
        let t = dex.type_descriptors@[cur.0 as int]@;
        assert(next.found[s.found.len() as int] == t);
        lemma_keeps(dex, places, root, next, t);
    } else {
        lemma_last_parent(dex, places, way[i], way[i + 1]);
        assert(next.visited =~= way.take(i + 1));
        lemma_followed(dex, places, way, i + 1, next);
    }
}

/// However many types are above a type, the platform type is found to which a way up leads on
/// which each type is the one that the type before names last, where that way has no more than
/// 256 types.
pub proof fn the_last_parent_is_followed_first(
    dex: DexFile,
    places: Map<u32, usize>,
    way: Seq<TypeIdx>,
)
    requires
        climbs(dex, places, way),
        forall|k: int|
            0 <= k < way.len() - 1 ==> extends_last(dex, places, #[trigger] way[k], way[k + 1]),
        way.no_duplicates(),
        1 < way.len() <= 256,
        of_platform(dex, way.last()),
    ensures
        supertypes(dex, places, way[0]).contains(dex.type_descriptors@[way.last().0 as int]@),
{
    let ty = way[0];
    let t = dex.type_descriptors@[way.last().0 as int]@;
    let found = searched(dex, places, ty, begun(ty));
    lemma_parents(dex, places, ty);
    assert(begun(ty).visited =~= way.take(0));
    lemma_followed(dex, places, way, 0, begun(ty));
    ordered_set_ascends(found);
    assert(found.to_set().contains(t));
    assert(supertypes(dex, places, ty).to_set().contains(t));
}

} // verus!
