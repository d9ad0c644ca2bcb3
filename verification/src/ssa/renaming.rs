//! Maps from names to names.
use std::collections::BTreeMap;
use vstd::prelude::*;

use crate::ssa::body::VarId;

verus! {

/// A name as a number.
pub open spec fn code(v: VarId) -> u64 {
    (v.reg * 0x1_0000_0000 + v.ver) as u64
}

fn encode(v: VarId) -> (r: u64)
    ensures
        r == code(v),
{
    v.reg as u64 * 0x1_0000_0000 + v.ver as u64
}

/// Different names have different numbers.
pub proof fn codes_differ(a: VarId, b: VarId)
    ensures
        code(a) == code(b) ==> a == b,
{
}

fn put(m: &mut BTreeMap<u64, VarId>, key: u64, v: VarId)
    ensures
        final(m)@ == old(m)@.insert(key, v),
{
    broadcast use {
        vstd::std_specs::btree::group_btree_axioms,
        vstd::laws_cmp::group_laws_cmp,
    };

    m.insert(key, v);
}

fn get(m: &BTreeMap<u64, VarId>, key: u64) -> (r: Option<VarId>)
    ensures
        match r {
            Some(v) => m@.contains_key(key) && m@[key] == v,
            None => !m@.contains_key(key),
        },
{
    broadcast use {
        vstd::std_specs::btree::group_btree_axioms,
        vstd::laws_cmp::group_laws_cmp,
    };

    match m.get(&key) {
        Some(v) => Some(*v),
        None => None,
    }
}

/// A map from names to names.
pub struct Renaming {
    map: BTreeMap<u64, VarId>,
    keys: Vec<VarId>,
}

impl View for Renaming {
    type V = Map<VarId, VarId>;

    closed spec fn view(&self) -> Map<VarId, VarId> {
        Map::new(|v: VarId| self.map@.contains_key(code(v)), |v: VarId| self.map@[code(v)])
    }
}

impl Renaming {
    /// The names that are mapped are listed.
    pub closed spec fn listed(self) -> bool {
        forall|v: VarId| #[trigger] self@.contains_key(v) == self.keys@.contains(v)
    }

    /// The names that are mapped.
    pub closed spec fn names(self) -> Seq<VarId> {
        self.keys@
    }

    /// The map without names.
    pub fn new() -> (r: Renaming)
        ensures
            r@ == Map::<VarId, VarId>::empty(),
            r.listed(),
    {
        let r = Renaming { map: BTreeMap::new(), keys: Vec::new() };
        assert(r@ =~= Map::empty());
        r
    }

    /// The name that `v` is mapped to.
    pub fn get(&self, v: VarId) -> (r: Option<VarId>)
        ensures
            match r {
                Some(w) => self@.contains_key(v) && self@[v] == w,
                None => !self@.contains_key(v),
            },
    {
        get(&self.map, encode(v))
    }

    /// Maps `v` to `w`.
    pub fn set(&mut self, v: VarId, w: VarId)
        requires
            old(self).listed(),
        ensures
            final(self)@ == old(self)@.insert(v, w),
            final(self).listed(),
    {
        let ghost before = self@;
        let ghost keys = self.keys@;
        put(&mut self.map, encode(v), w);
        self.keys.push(v);
        assert(self@ =~= before.insert(v, w)) by {
            assert forall|x: VarId| self@.contains_key(x) == before.insert(v, w).contains_key(
                x,
            ) by {
                codes_differ(x, v);
            }
            assert forall|x: VarId| #[trigger]
                self@.contains_key(x) implies self@[x] == before.insert(v, w)[x] by {
                codes_differ(x, v);
            }
        }
        assert forall|x: VarId| #[trigger] self@.contains_key(x) == self.keys@.contains(x) by {
            assert(before.contains_key(x) == keys.contains(x));
            if keys.contains(x) {
                let i = choose|i: int| 0 <= i < keys.len() && keys[i] == x;
                assert(self.keys@[i] == x);
            }
            if x == v {
                assert(self.keys@[keys.len() as int] == x);
            }
        }
    }

    /// How many names are listed.
    pub fn len(&self) -> (r: usize)
        ensures
            r == self.names().len(),
    {
        self.keys.len()
    }

    /// The name listed at a position.
    pub fn name(&self, i: usize) -> (r: VarId)
        requires
            i < self.names().len(),
        ensures
            r == self.names()[i as int],
    {
        self.keys[i]
    }

    /// The names that are listed are those that are mapped.
    pub proof fn names_are_mapped(self, v: VarId)
        requires
            self.listed(),
        ensures
            self@.contains_key(v) == self.names().contains(v),
    {
    }
}

} // verus!
