//! The platform types that a type descends from.
use vstd::prelude::*;
use vstd::string::*;

use crate::classes::TypeToClassDefMap;
use crate::collections::bound;
use crate::dex_file::DexFile;
use crate::ids::{ClassDefItem, TypeIdx};
use crate::text::chars_of;

verus! {

/// How many types a search visits at most.
pub const NR_WALK_NODE_CAP: usize = 256;

/// Stands for a type outside the file that is no platform type.
pub const NR_EXT_PLACEHOLDER: &'static str = "<ext>";

// Platform types

/// What starts the descriptors of platform types.
pub open spec fn platform_prefixes() -> Seq<Seq<char>> {
    seq![
        "Landroid/"@,
        "Ldalvik/"@,
        "Ljava/"@,
        "Ljavax/"@,
        "Lorg/w3c/dom/"@,
        "Lorg/xml/sax/"@,
        "Lorg/xmlpull/"@,
        "Lorg/json/"@,
        "Lorg/apache/http/"@,
        "Ljunit/"@,
    ]
}

/// `s` starts with `prefix`.
pub open spec fn starts_with(s: Seq<char>, prefix: Seq<char>) -> bool {
    prefix.len() <= s.len() && s.take(prefix.len() as int) == prefix
}

/// A descriptor without its array dimensions.
pub open spec fn element(descriptor: Seq<char>) -> Seq<char>
    decreases descriptor.len(),
{
    if descriptor.len() > 0 && descriptor[0] == '[' {
        element(descriptor.skip(1))
    } else {
        descriptor
    }
}

/// The type, or the type of the elements of an array, is one of the platform.
pub open spec fn platform(descriptor: Seq<char>) -> bool {
    exists|i: int|
        0 <= i < platform_prefixes().len() && starts_with(
            element(descriptor),
            #[trigger] platform_prefixes()[i],
        )
}

fn begins(s: &Vec<char>, from: usize, prefix: &str) -> (r: bool)
    requires
        from <= s@.len(),
    ensures
        r == starts_with(s@.skip(from as int), prefix@),
{
    let p = chars_of(prefix);
    let total: usize = s.len();
    if p.len() > total - from {
        return false;
    }
    let mut i: usize = 0;
    while i < p.len()
        invariant
            i <= p@.len(),
            from + p@.len() <= total == s@.len(),
            p@ == prefix@,
            forall|j: int| 0 <= j < i ==> s@[from + j] == p@[j],
        decreases p@.len() - i,
    {
        if s[from + i] != p[i] {
            assert(s@.skip(from as int).take(p@.len() as int)[i as int] != p@[i as int]);
            return false;
        }
        i = i + 1;
    }
    assert(s@.skip(from as int).take(p@.len() as int) =~= p@);
    true
}

/// Whether a type, or the type of the elements of an array, is one of the platform.
/// Types that applications bring along are none, whatever their package.
pub fn is_android_api(descriptor: &str) -> (r: bool)
    ensures
        r == platform(descriptor@),
{
    let s = chars_of(descriptor);
    let mut from: usize = 0;
    assert(s@.skip(0) =~= s@);
    while from < s.len() && s[from] == '['
        invariant
            from <= s@.len(),
            element(s@) == element(s@.skip(from as int)),
        decreases s@.len() - from,
    {
        from = from + 1;
        assert(s@.skip(from - 1).skip(1) =~= s@.skip(from as int));
    }
    let ghost e = s@.skip(from as int);
    let ghost p = platform_prefixes();
    assert(element(descriptor@) == e);
    if begins(&s, from, "Landroid/") {
        assert(starts_with(e, p[0]));
        return true;
    }
    if begins(&s, from, "Ldalvik/") {
        assert(starts_with(e, p[1]));
        return true;
    }
    if begins(&s, from, "Ljava/") {
        assert(starts_with(e, p[2]));
        return true;
    }
    if begins(&s, from, "Ljavax/") {
        assert(starts_with(e, p[3]));
        return true;
    }
    if begins(&s, from, "Lorg/w3c/dom/") {
        assert(starts_with(e, p[4]));
        return true;
    }
    if begins(&s, from, "Lorg/xml/sax/") {
        assert(starts_with(e, p[5]));
        return true;
    }
    if begins(&s, from, "Lorg/xmlpull/") {
        assert(starts_with(e, p[6]));
        return true;
    }
    if begins(&s, from, "Lorg/json/") {
        assert(starts_with(e, p[7]));
        return true;
    }
    if begins(&s, from, "Lorg/apache/http/") {
        assert(starts_with(e, p[8]));
        return true;
    }
    if begins(&s, from, "Ljunit/") {
        assert(starts_with(e, p[9]));
        return true;
    }
    assert forall|i: int| 0 <= i < p.len() implies !starts_with(e, #[trigger] p[i]) by {
        assert(i == 0 || i == 1 || i == 2 || i == 3 || i == 4 || i == 5 || i == 6 || i == 7 || i
            == 8 || i == 9);
    }
    false
}

/// The descriptor of a platform type, if the type is one.
pub open spec fn platform_at(dex: DexFile, ty: TypeIdx) -> Option<Seq<char>> {
    match dex.descriptor_at(ty) {
        Ok(d) => if platform(d) {
            Some(d)
        } else {
            None
        },
        Err(_) => None,
    }
}

fn platform_name(dex: &DexFile, ty: TypeIdx) -> (r: Option<String>)
    ensures
        match platform_at(*dex, ty) {
            Some(d) => r matches Some(s) && s@ == d,
            None => r is None,
        },
{
    match dex.get_type_descriptor(ty) {
        Ok(d) => if is_android_api(d) {
            Some(String::from_str(d))
        } else {
            None
        },
        Err(_) => None,
    }
}

// Ordered sets of texts

/// `a` comes before `b`, by the first character from position `i` on in which they
/// differ.
pub open spec fn text_before(a: Seq<char>, b: Seq<char>, i: int) -> bool
    decreases b.len() - i,
{
    if i < 0 || i >= b.len() {
        false
    } else if i >= a.len() {
        true
    } else if a[i] != b[i] {
        (a[i] as u32) < (b[i] as u32)
    } else {
        text_before(a, b, i + 1)
    }
}

fn code(c: char) -> (r: u32)
    ensures
        r == c as u32,
{
    c as u32
}

fn comes_before(a: &String, b: &String) -> (r: bool)
    ensures
        r == text_before(a@, b@, 0),
{
    let x = chars_of(a.as_str());
    let y = chars_of(b.as_str());
    let mut i: usize = 0;
    while i < y.len()
        invariant
            i <= y@.len(),
            x@ == a@,
            y@ == b@,
            text_before(a@, b@, 0) == text_before(a@, b@, i as int),
        decreases y@.len() - i,
    {
        if i >= x.len() {
            return true;
        }
        if x[i] != y[i] {
            return code(x[i]) < code(y[i]);
        }
        i = i + 1;
    }
    false
}

/// `x` added to an ordered set of texts.
pub open spec fn with_text(sorted: Seq<Seq<char>>, x: Seq<char>) -> Seq<Seq<char>>
    decreases sorted.len(),
{
    if sorted.len() == 0 {
        seq![x]
    } else if sorted.last() == x {
        sorted
    } else if text_before(x, sorted.last(), 0) {
        with_text(sorted.drop_last(), x).push(sorted.last())
    } else {
        sorted.push(x)
    }
}

/// The texts as an ordered set.
pub open spec fn ordered_set(found: Seq<Seq<char>>) -> Seq<Seq<char>>
    decreases found.len(),
{
    if found.len() == 0 {
        Seq::empty()
    } else {
        with_text(ordered_set(found.drop_last()), found.last())
    }
}

/// What strings read.
pub open spec fn texts(v: Seq<String>) -> Seq<Seq<char>> {
    v.map_values(|s: String| s@)
}

proof fn with_text_at(sorted: Seq<Seq<char>>, x: Seq<char>, k: int)
    requires
        0 <= k <= sorted.len(),
        k == 0 || !text_before(x, sorted[k - 1], 0),
        forall|j: int| k <= j < sorted.len() ==> text_before(x, #[trigger] sorted[j], 0),
    ensures
        with_text(sorted, x) == (if k > 0 && sorted[k - 1] == x {
            sorted
        } else {
            sorted.insert(k, x)
        }),
    decreases sorted.len(),
{
    not_before_itself(x, 0);
    if k < sorted.len() {
        assert(sorted.last() != x);
        with_text_at(sorted.drop_last(), x, k);
        assert(sorted.drop_last().push(sorted.last()) =~= sorted);
        assert(sorted.insert(k, x) =~= sorted.drop_last().insert(k, x).push(sorted.last()));
    } else {
        assert(sorted.insert(k, x) =~= sorted.push(x));
        if sorted.len() == 0 {
            assert(seq![x] =~= sorted.push(x));
        }
    }
}

proof fn not_before_itself(x: Seq<char>, i: int)
    ensures
        !text_before(x, x, i),
    decreases x.len() - i,
{
    if 0 <= i < x.len() {
        not_before_itself(x, i + 1);
    }
}

fn add_text(sorted: &mut Vec<String>, x: String)
    ensures
        texts(final(sorted)@) == with_text(texts(old(sorted)@), x@),
{
    let ghost before = sorted@;
    let mut k: usize = sorted.len();
    while k > 0 && comes_before(&x, &sorted[k - 1])
        invariant
            k <= sorted@.len(),
            sorted@ == before,
            forall|j: int| k <= j < sorted@.len() ==> text_before(x@, (#[trigger] sorted@[j])@, 0),
        decreases k,
    {
        k = k - 1;
    }
    proof {
        assert forall|j: int| k <= j < texts(before).len() implies text_before(
            x@,
            #[trigger] texts(before)[j],
            0,
        ) by {
            assert(texts(before)[j] == before[j]@);
        }
        with_text_at(texts(before), x@, k as int);
    }
    if k > 0 && sorted[k - 1] == x {
        return;
    }
    let ghost text = x@;
    sorted.insert(k, x);
    assert(texts(sorted@) =~= texts(before).insert(k as int, text));
}

/// The texts as an ordered set.
fn sort_texts(found: Vec<String>) -> (r: Vec<String>)
    ensures
        texts(r@) == ordered_set(texts(found@)),
{
    let mut out: Vec<String> = Vec::new();
    let mut i: usize = 0;
    let ghost all = texts(found@);
    assert(all.take(0) =~= Seq::empty());
    assert(texts(out@) =~= Seq::empty());
    while i < found.len()
        invariant
            i <= found@.len(),
            all == texts(found@),
            texts(out@) == ordered_set(all.take(i as int)),
        decreases found@.len() - i,
    {
        assert(all.take(i + 1).drop_last() =~= all.take(i as int));
        assert(all.take(i + 1).last() == found@[i as int]@);
        add_text(&mut out, found[i].clone());
        i = i + 1;
    }
    assert(all.take(i as int) =~= all);
    out
}

// The search

/// The types that a type's definition names as its supertypes, if it has one.
pub open spec fn parents(dex: DexFile, places: Map<u32, usize>, ty: TypeIdx) -> Option<
    Seq<TypeIdx>,
> {
    if !places.contains_key(ty.0) || places[ty.0] >= dex.class_defs@.len() {
        None
    } else {
        let c = dex.class_defs@[places[ty.0] as int];
        Some(
            (match c.superclass_idx {
                Some(s) => seq![s],
                None => Seq::empty(),
            }) + dex.list_at(c.interfaces_off),
        )
    }
}

/// A search: the types still to visit, those visited, and what was found.
#[verifier::ext_equal]
pub struct Search {
    pub stack: Seq<TypeIdx>,
    pub visited: Seq<TypeIdx>,
    pub found: Seq<Seq<char>>,
}

/// What a search for the platform supertypes of `root` comes to. It goes up from
/// each type until it meets a platform type or leaves the file, visits no type
/// twice, and ends early after a fixed number of types.
pub open spec fn searched(
    dex: DexFile,
    places: Map<u32, usize>,
    root: TypeIdx,
    s: Search,
) -> Seq<Seq<char>>
    decreases NR_WALK_NODE_CAP - s.visited.len(), s.stack.len(),
{
    if s.stack.len() == 0 || s.visited.len() >= NR_WALK_NODE_CAP {
        s.found
    } else {
        let cur = s.stack.last();
        let rest = s.stack.drop_last();
        if s.visited.contains(cur) {
            searched(dex, places, root, Search { stack: rest, ..s })
        } else {
            let visited = s.visited.push(cur);
            match platform_at(dex, cur) {
                Some(d) if cur != root => searched(
                    dex,
                    places,
                    root,
                    Search { stack: rest, visited, found: s.found.push(d) },
                ),
                _ => match parents(dex, places, cur) {
                    None => searched(
                        dex,
                        places,
                        root,
                        Search {
                            stack: rest,
                            visited,
                            found: s.found.push(NR_EXT_PLACEHOLDER@),
                        },
                    ),
                    Some(up) => searched(
                        dex,
                        places,
                        root,
                        Search { stack: rest + up, visited, found: s.found },
                    ),
                },
            }
        }
    }
}

/// The nearest platform supertypes of a type, in order. A platform type is its own.
/// A placeholder stands for supertypes outside the file, and for none at all.
pub open spec fn supertypes(dex: DexFile, places: Map<u32, usize>, ty: TypeIdx) -> Seq<Seq<char>> {
    match platform_at(dex, ty) {
        Some(d) => seq![d],
        None => {
            let found = searched(
                dex,
                places,
                ty,
                Search { stack: seq![ty], visited: Seq::empty(), found: Seq::empty() },
            );
            if found.len() == 0 {
                seq![NR_EXT_PLACEHOLDER@]
            } else {
                ordered_set(found)
            }
        },
    }
}

fn was_visited(visited: &Vec<TypeIdx>, ty: TypeIdx) -> (r: bool)
    ensures
        r == visited@.contains(ty),
{
    let mut i: usize = 0;
    while i < visited.len()
        invariant
            i <= visited@.len(),
            forall|j: int| 0 <= j < i ==> visited@[j] != ty,
        decreases visited@.len() - i,
    {
        if visited[i] == ty {
            return true;
        }
        i = i + 1;
    }
    false
}

/// Puts the supertypes that a type's definition names on the stack. Says whether
/// the type has a definition.
fn push_parents(dex: &DexFile, ttm: &TypeToClassDefMap, ty: TypeIdx, stack: &mut Vec<TypeIdx>) -> (r:
    bool)
    ensures
        match parents(*dex, ttm@, ty) {
            None => !r && final(stack)@ == old(stack)@,
            Some(up) => r && final(stack)@ == old(stack)@ + up,
        },
{
    match ttm.lookup(ty) {
        None => false,
        Some(place) => {
            if place >= dex.class_defs.len() {
                return false;
            }
            let c: ClassDefItem = dex.class_defs[place];
            match c.superclass_idx {
                Some(s) => {
                    stack.push(s);
                },
                None => {},
            }
            if c.interfaces_off != 0 {
                match bound(&dex.type_lists, c.interfaces_off) {
                    Some(list) => {
                        stack.extend_from_slice(list.as_slice());
                    },
                    None => {},
                }
            }
            assert(stack@ =~= old(stack)@ + parents(*dex, ttm@, ty)->0);
            true
        },
    }
}

/// The nearest platform supertypes of a type, in order.
pub fn nearest_api_supertype_set(dex: &DexFile, ttm: &TypeToClassDefMap, ty: TypeIdx) -> (r: Vec<
    String,
>)
    ensures
        texts(r@) == supertypes(*dex, ttm@, ty),
{
    match platform_name(dex, ty) {
        Some(d) => {
            let mut out: Vec<String> = Vec::new();
            let ghost text = d@;
            out.push(d);
            assert(texts(out@) =~= seq![text]);
            return out;
        },
        None => {},
    }
    let mut found: Vec<String> = Vec::new();
    let mut visited: Vec<TypeIdx> = Vec::new();
    let mut stack: Vec<TypeIdx> = Vec::new();
    stack.push(ty);
    let ghost whole = searched(
        *dex,
        ttm@,
        ty,
        Search { stack: seq![ty], visited: Seq::empty(), found: Seq::empty() },
    );
    assert(stack@ =~= seq![ty]);
    assert(texts(found@) =~= Seq::empty());
    while stack.len() > 0 && visited.len() < NR_WALK_NODE_CAP
        invariant
            visited@.len() <= NR_WALK_NODE_CAP,
            whole == searched(
                *dex,
                ttm@,
                ty,
                Search { stack: stack@, visited: visited@, found: texts(found@) },
            ),
        decreases NR_WALK_NODE_CAP - visited@.len(), stack@.len(),
    {
        let ghost before = stack@;
        let ghost known = texts(found@);
        let last: usize = stack.len() - 1;
        let cur: TypeIdx = stack[last];
        stack.truncate(last);
        assert(stack@ =~= before.drop_last());
        if !was_visited(&visited, cur) {
            visited.push(cur);
            match platform_name(dex, cur) {
                Some(d) if cur != ty => {
                    let ghost text = d@;
                    found.push(d);
                    assert(texts(found@) =~= known.push(text));
                },
                _ => {
                    if !push_parents(dex, ttm, cur, &mut stack) {
                        found.push(String::from_str(NR_EXT_PLACEHOLDER));
                        assert(texts(found@) =~= known.push(NR_EXT_PLACEHOLDER@));
                    }
                },
            }
        }
    }
    if found.len() == 0 {
        found.push(String::from_str(NR_EXT_PLACEHOLDER));
        assert(texts(found@) =~= seq![NR_EXT_PLACEHOLDER@]);
        return found;
    }
    sort_texts(found)
}

/// The first `n` texts with plus signs between them.
pub open spec fn joined(set: Seq<Seq<char>>, n: nat) -> Seq<char>
    decreases n,
{
    if n == 0 {
        Seq::empty()
    } else if n == 1 {
        set[0]
    } else {
        joined(set, (n - 1) as nat) + "+"@ + set[n - 1]
    }
}

/// A set of supertypes as one text: the descriptors with plus signs between them.
pub fn supertype_set_token(set: &[String]) -> (r: String)
    ensures
        r@ == joined(texts(set@), set@.len()),
{
    let mut s = String::new();
    let mut i: usize = 0;
    while i < set.len()
        invariant
            i <= set@.len(),
            s@ == joined(texts(set@), i as nat),
        decreases set@.len() - i,
    {
        if i > 0 {
            s.append("+");
        }
        s.append(set[i].as_str());
        i = i + 1;
        assert(s@ =~= joined(texts(set@), i as nat));
    }
    s
}

} // verus!
