//! Finding the definition of a class.
use std::collections::BTreeMap;
use vstd::prelude::*;

use crate::collections::{bind, bound};
use crate::dex_file::DexFile;
use crate::ids::{ClassDefItem, TypeIdx};

verus! {

/// The position of the last of the first `n` classes that defines a type.
pub open spec fn definition(classes: Seq<ClassDefItem>, ty: u32, n: nat) -> Option<nat>
    decreases n,
{
    if n == 0 {
        None
    } else if classes[n - 1].class_idx.0 == ty {
        Some((n - 1) as nat)
    } else {
        definition(classes, ty, (n - 1) as nat)
    }
}

/// A map holds the position of every definition among the first `n` classes.
spec fn defines(m: Map<u32, usize>, classes: Seq<ClassDefItem>, n: nat) -> bool {
    forall|ty: u32|
        #![trigger m.contains_key(ty)]
        #![trigger definition(classes, ty, n)]
        match definition(classes, ty, n) {
            Some(i) => m.contains_key(ty) && m[ty] == i,
            None => !m.contains_key(ty),
        }
}

/// The position of the definition of each type that some classes define.
pub open spec fn class_places(classes: Seq<ClassDefItem>) -> Map<u32, usize> {
    Map::new(
        |ty: u32| definition(classes, ty, classes.len()) is Some,
        |ty: u32| definition(classes, ty, classes.len())->0 as usize,
    )
}

/// The position of the definition of each type that a file defines.
#[derive(Debug)]
pub struct TypeToClassDefMap {
    pub places: BTreeMap<u32, usize>,
}

impl View for TypeToClassDefMap {
    type V = Map<u32, usize>;

    open spec fn view(&self) -> Map<u32, usize> {
        self.places@
    }
}

impl TypeToClassDefMap {
    /// The position of the definition of each type that a file defines; of the last
    /// one where there are several.
    pub fn build(dex: &DexFile) -> (r: TypeToClassDefMap)
        ensures
            r@ == class_places(dex.class_defs@),
    {
        let ghost classes = dex.class_defs@;
        let mut places: BTreeMap<u32, usize> = BTreeMap::new();
        assert(places@ =~= Map::empty());
        let mut i: usize = 0;
        while i < dex.class_defs.len()
            invariant
                i <= dex.class_defs@.len(),
                classes == dex.class_defs@,
                defines(places@, classes, i as nat),
            decreases dex.class_defs@.len() - i,
        {
            let ghost before = places@;
            bind(&mut places, dex.class_defs[i].class_idx.0, i);
            i = i + 1;
            assert(defines(places@, classes, i as nat)) by {
                assert forall|ty: u32| match #[trigger] definition(classes, ty, i as nat) {
                    Some(k) => places@.contains_key(ty) && places@[ty] == k,
                    None => !places@.contains_key(ty),
                } by {
                    let earlier = definition(classes, ty, (i - 1) as nat);
                    assert(before.contains_key(ty) == (earlier is Some));
                }
            }
        }
        assert forall|ty: u32| places@.contains_key(ty) == class_places(classes).contains_key(
            ty,
        ) by {
            let place = definition(classes, ty, classes.len());
        }
        assert(places@ =~= class_places(classes));
        TypeToClassDefMap { places }
    }

    /// The position of the definition of a type.
    pub fn lookup(&self, ty: TypeIdx) -> (r: Option<usize>)
        ensures
            r == (if self@.contains_key(ty.0) {
                Some(self@[ty.0])
            } else {
                None
            }),
    {
        match bound(&self.places, ty.0) {
            Some(i) => Some(*i),
            None => None,
        }
    }
}

} // verus!
