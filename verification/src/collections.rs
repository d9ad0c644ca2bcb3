//! Offset-keyed maps read in ascending key order.
use std::collections::BTreeMap;
use vstd::prelude::*;
use vstd::std_specs::iter::IteratorSpec;

verus! {

/// Each element is smaller than every later one.
pub open spec fn ascending(s: Seq<u32>) -> bool {
    forall|i: int, j: int| 0 <= i < j < s.len() ==> s[i] < s[j]
}

/// The keys of `m` from the smallest to the largest.
pub open spec fn sorted_keys<V>(m: Map<u32, V>) -> Seq<u32> {
    choose|s: Seq<u32>| #[trigger] ascending(s) && s.to_set() == m.dom()
}

/// A finite set of keys has only one ascending listing.
pub proof fn lemma_ascending_unique(a: Seq<u32>, b: Seq<u32>)
    requires
        ascending(a),
        ascending(b),
        a.to_set() == b.to_set(),
    ensures
        a == b,
    decreases a.len(),
{
    assert forall|x: u32| a.contains(x) == b.contains(x) by {
        assert(a.to_set().contains(x) == a.contains(x));
        assert(b.to_set().contains(x) == b.contains(x));
    }
    if a.len() == 0 {
        if b.len() > 0 {
            assert(b.contains(b[0]));
        }
        assert(a =~= b);
    } else if b.len() == 0 {
        assert(a.contains(a[0]));
    } else {
        let x = a.last();
        let y = b.last();
        assert(a.contains(x));
        assert(b.contains(y));
        let i = choose|i: int| 0 <= i < b.len() && b[i] == x;
        let j = choose|j: int| 0 <= j < a.len() && a[j] == y;
        assert(x == y);
        let a1 = a.drop_last();
        let b1 = b.drop_last();
        assert forall|z: u32| a1.to_set().contains(z) == b1.to_set().contains(z) by {
            if a1.contains(z) {
                let k = choose|k: int| 0 <= k < a1.len() && a1[k] == z;
                assert(a[k] == z);
                assert(a.contains(z));
                let l = choose|l: int| 0 <= l < b.len() && b[l] == z;
                assert(b1[l] == z);
            }
            if b1.contains(z) {
                let k = choose|k: int| 0 <= k < b1.len() && b1[k] == z;
                assert(b[k] == z);
                assert(b.contains(z));
                let l = choose|l: int| 0 <= l < a.len() && a[l] == z;
                assert(a1[l] == z);
            }
        }
        assert(a1.to_set() =~= b1.to_set());
        lemma_ascending_unique(a1, b1);
        assert(a =~= a1.push(x));
        assert(b =~= b1.push(y));
    }
}

/// A listing that ascends and holds exactly the keys is the sorted listing.
pub proof fn lemma_sorted_keys_is<V>(m: Map<u32, V>, s: Seq<u32>)
    requires
        ascending(s),
        s.to_set() == m.dom(),
    ensures
        sorted_keys(m) == s,
{
    let t = sorted_keys(m);
    assert(ascending(t) && t.to_set() == m.dom());
    lemma_ascending_unique(t, s);
}

/// The bindings of `m` in ascending key order.
pub fn entries<'a, V>(m: &'a BTreeMap<u32, V>) -> (r: Vec<(u32, &'a V)>)
    ensures
        ascending(sorted_keys(m@)),
        sorted_keys(m@).to_set() == m@.dom(),
        r@.len() == sorted_keys(m@).len(),
        r@.len() == m@.len(),
        forall|i: int|
            #![trigger r@[i]]
            0 <= i < r@.len() ==> r@[i].0 == sorted_keys(m@)[i] && m@.contains_key(r@[i].0)
                && m@[r@[i].0] == *r@[i].1,
{
    broadcast use {
        vstd::std_specs::btree::group_btree_axioms,
        vstd::laws_cmp::group_laws_cmp,
    };

    let mut r: Vec<(u32, &'a V)> = Vec::new();
    assert(vstd::std_specs::btree::key_obeys_cmp_spec::<u32>());
    let it = m.iter();
    let ghost rem = it.remaining();
    let ghost keys = rem.map_values(|kv: (&u32, &V)| *kv.0);
    proof {
        assert(vstd::std_specs::btree::increasing_seq(keys));
        assert forall|i: int, j: int| 0 <= i < j < keys.len() implies keys[i] < keys[j] by {
            assert(vstd::std_specs::cmp::OrdSpec::cmp_spec(&keys[i], &keys[j])
                is Less);
        }
        assert(rem == vstd::std_specs::btree::spec_btree_map_iter(m).remaining());
        assert forall|x: u32| keys.to_set().contains(x) == m@.dom().contains(x) by {
            if m@.contains_key(x) {
                assert(rem.contains((&x, &m@[x])));
                let i = choose|i: int| 0 <= i < rem.len() && rem[i] == (&x, &m@[x]);
                assert(keys[i] == x);
            }
            if keys.contains(x) {
                let i = choose|i: int| 0 <= i < keys.len() && keys[i] == x;
                assert(m@.contains_key(*rem[i].0));
            }
        }
        assert(keys.to_set() =~= m@.dom());
        lemma_sorted_keys_is(m@, keys);
    }
    for kv in iter: it
        invariant
            r@.len() == iter.index(),
            iter.seq() == rem,
            forall|i: int|
                0 <= i < r@.len() ==> (#[trigger] r@[i]).0 == *rem[i].0 && r@[i].1 == rem[i].1,
    {
        r.push((*kv.0, kv.1));
    }
    proof {
        assert forall|i: int| #![trigger r@[i]] 0 <= i < r@.len() implies r@[i].0 == keys[i]
            && m@.contains_key(r@[i].0) && m@[r@[i].0] == *r@[i].1 by {
            assert(m@.contains_key(*rem[i].0));
        }
    }
    r
}

/// Binds `key` to `value`.
pub fn bind<V>(m: &mut BTreeMap<u32, V>, key: u32, value: V)
    ensures
        final(m)@ == old(m)@.insert(key, value),
{
    broadcast use {
        vstd::std_specs::btree::group_btree_axioms,
        vstd::laws_cmp::group_laws_cmp,
    };

    m.insert(key, value);
}

/// What `key` is bound to.
pub fn bound<V>(m: &BTreeMap<u32, V>, key: u32) -> (r: Option<&V>)
    ensures
        match r {
            Some(v) => m@.contains_key(key) && m@[key] == *v,
            None => !m@.contains_key(key),
        },
{
    broadcast use {
        vstd::std_specs::btree::group_btree_axioms,
        vstd::laws_cmp::group_laws_cmp,
    };

    m.get(&key)
}

/// How many keys are bound.
pub fn count<V>(m: &BTreeMap<u32, V>) -> (r: usize)
    ensures
        r == m@.len(),
{
    broadcast use {
        vstd::std_specs::btree::group_btree_axioms,
        vstd::laws_cmp::group_laws_cmp,
    };

    m.len()
}

/// The keys below `n`, from the smallest to the largest.
spec fn keys_below<V>(m: Map<u32, V>, n: nat) -> Seq<u32>
    decreases n,
{
    if n == 0 {
        Seq::empty()
    } else {
        let before = keys_below(m, (n - 1) as nat);
        if m.contains_key((n - 1) as u32) {
            before.push((n - 1) as u32)
        } else {
            before
        }
    }
}

proof fn lemma_keys_below<V>(m: Map<u32, V>, n: nat)
    requires
        n <= 0x1_0000_0000,
    ensures
        ascending(keys_below(m, n)),
        forall|x: u32| #[trigger] keys_below(m, n).contains(x) <==> m.contains_key(x) && x < n,
    decreases n,
{
    if n > 0 {
        lemma_keys_below(m, (n - 1) as nat);
        let before = keys_below(m, (n - 1) as nat);
        let now = keys_below(m, n);
        assert forall|i: int| 0 <= i < before.len() implies before[i] < n - 1 by {
            assert(before.contains(before[i]));
        }
        assert forall|x: u32| now.contains(x) <==> m.contains_key(x) && x < n by {
            if before.contains(x) {
                let i = choose|i: int| 0 <= i < before.len() && before[i] == x;
                assert(now[i] == x);
            }
            if m.contains_key((n - 1) as u32) {
                assert(now[before.len() as int] == (n - 1) as u32);
            }
            if now.contains(x) {
                let i = choose|i: int| 0 <= i < now.len() && now[i] == x;
                if i < before.len() {
                    assert(before[i] == x);
                }
            }
        }
    }
}

/// The sorted keys ascend, and are the keys.
pub proof fn sorted_keys_list<V>(m: Map<u32, V>)
    ensures
        ascending(sorted_keys(m)),
        sorted_keys(m).to_set() == m.dom(),
        forall|x: u32| #[trigger] sorted_keys(m).contains(x) <==> m.contains_key(x),
{
    let s = keys_below(m, 0x1_0000_0000);
    lemma_keys_below(m, 0x1_0000_0000);
    assert(s.to_set() =~= m.dom());
    lemma_sorted_keys_is(m, s);
    assert forall|x: u32| #[trigger] sorted_keys(m).contains(x) <==> m.contains_key(x) by {
        assert(s.to_set().contains(x) <==> m.dom().contains(x));
    }
}

} // verus!
