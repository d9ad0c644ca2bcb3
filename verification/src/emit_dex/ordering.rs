//! Sequences whose order is guaranteed by their type.
use vstd::prelude::*;
use vstd::std_specs::iter::IteratorSpec;

use crate::ids::StringIdx;
use crate::text::push_decimal;

verus! {

/// A type whose values are ordered by an integer that identifies them.
pub trait SortKey: Copy {
    /// The place of the value in the order.
    spec fn rank(self) -> int;

    /// Values with the same place are the same value.
    proof fn rank_identifies(a: Self, b: Self)
        requires
            a.rank() == b.rank(),
        ensures
            a == b,
    ;

    /// Whether `self` does not come after `other`.
    fn at_most(self, other: Self) -> (r: bool)
        ensures
            r == (self.rank() <= other.rank()),
    ;
}

impl SortKey for u32 {
    open spec fn rank(self) -> int {
        self as int
    }

    proof fn rank_identifies(a: Self, b: Self) {
    }

    fn at_most(self, other: Self) -> (r: bool) {
        self <= other
    }
}

impl SortKey for i32 {
    open spec fn rank(self) -> int {
        self as int
    }

    proof fn rank_identifies(a: Self, b: Self) {
    }

    fn at_most(self, other: Self) -> (r: bool) {
        self <= other
    }
}

impl SortKey for StringIdx {
    open spec fn rank(self) -> int {
        self.0 as int
    }

    proof fn rank_identifies(a: Self, b: Self) {
    }

    fn at_most(self, other: Self) -> (r: bool) {
        self.0 <= other.0
    }
}

/// No element comes before an earlier one.
pub open spec fn non_decreasing<T: SortKey>(s: Seq<T>) -> bool {
    forall|i: int, j: int| 0 <= i < j < s.len() ==> s[i].rank() <= s[j].rank()
}

/// Every element comes after all earlier ones.
pub open spec fn strictly_ascending<T: SortKey>(s: Seq<T>) -> bool {
    forall|i: int, j: int| 0 <= i < j < s.len() ==> s[i].rank() < s[j].rank()
}

/// A sequence was not in the claimed order. `index` is the position of the first
/// element that breaks it.
#[derive(Debug, Clone, Copy, PartialEq, Eq, Structural)]
pub struct OrderingViolation {
    pub index: usize,
}

impl OrderingViolation {
    /// The message for this violation.
    pub fn message(&self) -> (r: String)
        ensures
            r@ == "non-decreasing invariant violated at index "@ + crate::text::decimal(
                self.index as nat,
            ),
    {
        let mut s = String::from_str("non-decreasing invariant violated at index ");
        push_decimal(&mut s, self.index as u64);
        s
    }
}

/// A non-decreasing sequence.
#[derive(Debug, PartialEq, Eq)]
pub struct NonDecreasing<T: SortKey> {
    inner: Vec<T>,
}

impl<T: SortKey> View for NonDecreasing<T> {
    type V = Seq<T>;

    closed spec fn view(&self) -> Seq<T> {
        self.inner@
    }
}

/// A strictly ascending sequence.
#[derive(Debug, PartialEq, Eq)]
pub struct StrictlyAscending<T: SortKey> {
    inner: Vec<T>,
}

impl<T: SortKey> View for StrictlyAscending<T> {
    type V = Seq<T>;

    closed spec fn view(&self) -> Seq<T> {
        self.inner@
    }
}

fn merge<T: SortKey>(a: &Vec<T>, b: &Vec<T>) -> (out: Vec<T>)
    requires
        non_decreasing(a@),
        non_decreasing(b@),
    ensures
        non_decreasing(out@),
        out@.to_multiset() == (a@ + b@).to_multiset(),
{
    broadcast use vstd::seq_lib::group_to_multiset_ensures;

    let mut out: Vec<T> = Vec::new();
    let mut i: usize = 0;
    let mut j: usize = 0;
    assert(Seq::<T>::empty() + a@.skip(0) + b@.skip(0) =~= a@ + b@);
    while i < a.len() || j < b.len()
        invariant
            i <= a@.len(),
            j <= b@.len(),
            non_decreasing(a@),
            non_decreasing(b@),
            non_decreasing(out@),
            forall|k: int, x: int|
                0 <= k < out@.len() && i <= x < a@.len() ==> (#[trigger] out@[k]).rank() <= (
                #[trigger] a@[x]).rank(),
            forall|k: int, y: int|
                0 <= k < out@.len() && j <= y < b@.len() ==> (#[trigger] out@[k]).rank() <= (
                #[trigger] b@[y]).rank(),
            (out@ + a@.skip(i as int) + b@.skip(j as int)).to_multiset() == (a@
                + b@).to_multiset(),
        decreases a@.len() - i + b@.len() - j,
    {
        let ghost before = out@;
        if j >= b.len() || (i < a.len() && a[i].at_most(b[j])) {
            out.push(a[i]);
            i = i + 1;
            assert(before + a@.skip(i - 1) + b@.skip(j as int) =~= out@ + a@.skip(i as int)
                + b@.skip(j as int));
        } else {
            let ghost at = a@.skip(i as int);
            let ghost bt = b@.skip(j as int);
            out.push(b[j]);
            j = j + 1;
            proof {
                let x = seq![b@[j - 1]];
                let rest = b@.skip(j as int);
                assert(bt =~= x + rest);
                assert(before + at + bt =~= before + (at + x) + rest);
                assert(out@ + at + rest =~= before + (x + at) + rest);
                vstd::seq_lib::lemma_multiset_commutative(at, x);
                vstd::seq_lib::lemma_multiset_commutative(x, at);
                vstd::seq_lib::lemma_multiset_commutative(before, at + x);
                vstd::seq_lib::lemma_multiset_commutative(before, x + at);
                vstd::seq_lib::lemma_multiset_commutative(before + (at + x), rest);
                vstd::seq_lib::lemma_multiset_commutative(before + (x + at), rest);
                assert((at + x).to_multiset() =~= (x + at).to_multiset());
            }
        }
    }
    assert(out@ + a@.skip(i as int) + b@.skip(j as int) =~= out@);
    out
}

/// Sorts by rank.
pub fn sort<T: SortKey>(v: Vec<T>) -> (r: Vec<T>)
    ensures
        non_decreasing(r@),
        r@.to_multiset() == v@.to_multiset(),
    decreases v@.len(),
{
    if v.len() <= 1 {
        return v;
    }
    let mut low = v;
    let half: usize = low.len() / 2;
    let high = low.split_off(half);
    let ghost a = low@;
    let ghost b = high@;
    assert(v@ =~= a + b);
    let low = sort(low);
    let high = sort(high);
    let r = merge(&low, &high);
    proof {
        vstd::seq_lib::lemma_multiset_commutative(a, b);
        vstd::seq_lib::lemma_multiset_commutative(low@, high@);
    }
    r
}

fn copy_all<T: Copy>(v: &Vec<T>) -> (r: Vec<T>)
    ensures
        r@ == v@,
{
    let mut r: Vec<T> = Vec::new();
    let mut i: usize = 0;
    while i < v.len()
        invariant
            i <= v@.len(),
            r@ =~= v@.take(i as int),
        decreases v@.len() - i,
    {
        r.push(v[i]);
        i = i + 1;
    }
    r
}

/// The first position at which `v` decreases, if there is one.
fn first_decrease<T: SortKey>(v: &Vec<T>) -> (r: Option<usize>)
    ensures
        match r {
            None => non_decreasing(v@),
            Some(k) => 0 < k < v@.len() && v@[k - 1].rank() > v@[k as int].rank()
                && non_decreasing(v@.take(k as int)),
        },
{
    let mut i: usize = 1;
    while i < v.len()
        invariant
            1 <= i,
            i <= v@.len() || v@.len() == 0,
            forall|x: int, y: int|
                0 <= x < y < i && y < v@.len() ==> v@[x].rank() <= v@[y].rank(),
        decreases v@.len() - i,
    {
        if !v[i - 1].at_most(v[i]) {
            return Some(i);
        }
        i = i + 1;
    }
    None
}

/// The first position at which `v` fails to ascend strictly, if there is one.
fn first_non_ascent<T: SortKey>(v: &Vec<T>) -> (r: Option<usize>)
    ensures
        match r {
            None => strictly_ascending(v@),
            Some(k) => 0 < k < v@.len() && v@[k - 1].rank() >= v@[k as int].rank()
                && strictly_ascending(v@.take(k as int)),
        },
{
    let mut i: usize = 1;
    while i < v.len()
        invariant
            1 <= i,
            i <= v@.len() || v@.len() == 0,
            forall|x: int, y: int| 0 <= x < y < i && y < v@.len() ==> v@[x].rank() < v@[y].rank(),
        decreases v@.len() - i,
    {
        if v[i].at_most(v[i - 1]) {
            return Some(i);
        }
        i = i + 1;
    }
    None
}

impl<T: SortKey> NonDecreasing<T> {
    #[verifier::type_invariant]
    spec fn ordered(self) -> bool {
        non_decreasing(self.inner@)
    }

    /// Sorts `inner` and wraps it.
    pub fn from_sorted(inner: Vec<T>) -> (r: Self)
        ensures
            non_decreasing(r@),
            r@.to_multiset() == inner@.to_multiset(),
    {
        NonDecreasing { inner: sort(inner) }
    }

    /// Wraps `inner` where it is non-decreasing already.
    pub fn from_verified(inner: Vec<T>) -> (r: Result<Self, OrderingViolation>)
        ensures
            match r {
                Ok(n) => n@ == inner@ && non_decreasing(inner@),
                Err(e) => 0 < e.index < inner@.len() && inner@[e.index - 1].rank()
                    > inner@[e.index as int].rank() && non_decreasing(inner@.take(e.index as int)),
            },
            r is Ok == non_decreasing(inner@),
    {
        match first_decrease(&inner) {
            Some(index) => Err(OrderingViolation { index }),
            None => Ok(NonDecreasing { inner }),
        }
    }

    /// The elements.
    pub fn into_inner(self) -> (r: Vec<T>)
        ensures
            r@ == self@,
            non_decreasing(r@),
    {
        proof {
            use_type_invariant(&self);
        }
        self.inner
    }

    /// The elements, in order.
    pub fn as_slice(&self) -> (r: &[T])
        ensures
            r@ == self@,
            non_decreasing(r@),
    {
        proof {
            use_type_invariant(&*self);
        }
        self.inner.as_slice()
    }
}

impl<T: SortKey> Clone for NonDecreasing<T> {
    fn clone(&self) -> (r: Self)
        ensures
            r@ == self@,
    {
        proof {
            use_type_invariant(&*self);
        }
        NonDecreasing { inner: copy_all(&self.inner) }
    }
}

impl<T: SortKey> core::ops::Deref for NonDecreasing<T> {
    type Target = [T];

    fn deref(&self) -> (r: &[T])
        ensures
            r@ == self@,
    {
        self.inner.as_slice()
    }
}

impl<'a, T: SortKey> core::iter::IntoIterator for &'a NonDecreasing<T> {
    type Item = &'a T;

    type IntoIter = core::slice::Iter<'a, T>;

    fn into_iter(self) -> (r: core::slice::Iter<'a, T>)
        ensures
            r.remaining() == self@.as_ref(),
    {
        self.inner.as_slice().iter()
    }
}

impl<T: SortKey> StrictlyAscending<T> {
    #[verifier::type_invariant]
    spec fn ordered(self) -> bool {
        strictly_ascending(self.inner@)
    }

    /// Sorts `inner` and wraps it. A value that occurs twice is refused at the
    /// sorted position of its first repeat.
    pub fn from_sorted(inner: Vec<T>) -> (r: Result<Self, OrderingViolation>)
        ensures
            match r {
                Ok(n) => strictly_ascending(n@) && n@.to_multiset() == inner@.to_multiset(),
                Err(e) => exists|s: Seq<T>|
                    #![trigger s.to_multiset()]
                    non_decreasing(s) && s.to_multiset() == inner@.to_multiset() && 0 < e.index
                        < s.len() && s[e.index - 1] == s[e.index as int] && strictly_ascending(
                        s.take(e.index as int),
                    ),
            },
            r is Ok == inner@.no_duplicates(),
    {
        let sorted = sort(inner);
        proof {
            lemma_same_elements_no_duplicates(inner@, sorted@);
        }
        match first_non_ascent(&sorted) {
            Some(index) => {
                proof {
                    T::rank_identifies(sorted@[index - 1], sorted@[index as int]);
                    assert(!sorted@.no_duplicates());
                }
                Err(OrderingViolation { index })
            },
            None => {
                assert(sorted@.no_duplicates()) by {
                    assert forall|i: int, j: int|
                        0 <= i < sorted@.len() && 0 <= j < sorted@.len() && i
                            != j implies sorted@[i] != sorted@[j] by {
                        if i < j {
                            assert(sorted@[i].rank() < sorted@[j].rank());
                        } else {
                            assert(sorted@[j].rank() < sorted@[i].rank());
                        }
                    }
                }
                Ok(StrictlyAscending { inner: sorted })
            },
        }
    }

    /// Wraps `inner` where it ascends strictly already.
    pub fn from_verified(inner: Vec<T>) -> (r: Result<Self, OrderingViolation>)
        ensures
            match r {
                Ok(n) => n@ == inner@ && strictly_ascending(inner@),
                Err(e) => 0 < e.index < inner@.len() && inner@[e.index - 1].rank()
                    >= inner@[e.index as int].rank() && strictly_ascending(
                    inner@.take(e.index as int),
                ),
            },
            r is Ok == strictly_ascending(inner@),
    {
        match first_non_ascent(&inner) {
            Some(index) => Err(OrderingViolation { index }),
            None => Ok(StrictlyAscending { inner }),
        }
    }

    /// The empty sequence.
    pub fn empty() -> (r: Self)
        ensures
            r@ == Seq::<T>::empty(),
    {
        StrictlyAscending { inner: Vec::new() }
    }

    /// The elements.
    pub fn into_inner(self) -> (r: Vec<T>)
        ensures
            r@ == self@,
            strictly_ascending(r@),
    {
        proof {
            use_type_invariant(&self);
        }
        self.inner
    }

    /// The elements, in order.
    pub fn as_slice(&self) -> (r: &[T])
        ensures
            r@ == self@,
            strictly_ascending(r@),
    {
        proof {
            use_type_invariant(&*self);
        }
        self.inner.as_slice()
    }
}

impl<T: SortKey> Clone for StrictlyAscending<T> {
    fn clone(&self) -> (r: Self)
        ensures
            r@ == self@,
    {
        proof {
            use_type_invariant(&*self);
        }
        StrictlyAscending { inner: copy_all(&self.inner) }
    }
}

impl<T: SortKey> core::ops::Deref for StrictlyAscending<T> {
    type Target = [T];

    fn deref(&self) -> (r: &[T])
        ensures
            r@ == self@,
    {
        self.inner.as_slice()
    }
}

impl<'a, T: SortKey> core::iter::IntoIterator for &'a StrictlyAscending<T> {
    type Item = &'a T;

    type IntoIter = core::slice::Iter<'a, T>;

    fn into_iter(self) -> (r: core::slice::Iter<'a, T>)
        ensures
            r.remaining() == self@.as_ref(),
    {
        self.inner.as_slice().iter()
    }
}

proof fn lemma_same_elements_no_duplicates<T>(a: Seq<T>, b: Seq<T>)
    requires
        a.to_multiset() == b.to_multiset(),
    ensures
        a.no_duplicates() == b.no_duplicates(),
{
    if a.no_duplicates() {
        a.lemma_multiset_has_no_duplicates();
        b.lemma_multiset_has_no_duplicates_conv();
    }
    if b.no_duplicates() {
        b.lemma_multiset_has_no_duplicates();
        a.lemma_multiset_has_no_duplicates_conv();
    }
}

/// Sorting has only one possible outcome: two sequences with the same elements in
/// non-decreasing order are equal.
pub proof fn sorted_form_is_unique<T: SortKey>(a: Seq<T>, b: Seq<T>)
    requires
        non_decreasing(a),
        non_decreasing(b),
        a.to_multiset() == b.to_multiset(),
    ensures
        a == b,
    decreases a.len(),
{
    broadcast use vstd::seq_lib::group_to_multiset_ensures;

    assert(a.to_multiset().len() == a.len());
    assert(b.to_multiset().len() == b.len());
    if a.len() == 0 || b.len() == 0 {
        assert(a =~= b);
    } else {
        let x = a.last();
        let y = b.last();
        assert(a.to_multiset().count(x) > 0) by {
            assert(a[a.len() - 1] == x);
            assert(a.contains(x));
        }
        assert(b.to_multiset().count(y) > 0) by {
            assert(b[b.len() - 1] == y);
            assert(b.contains(y));
        }
        assert(b.contains(x));
        assert(a.contains(y));
        let i = choose|i: int| 0 <= i < b.len() && b[i] == x;
        let j = choose|j: int| 0 <= j < a.len() && a[j] == y;
        assert(x.rank() <= y.rank());
        assert(y.rank() <= x.rank());
        T::rank_identifies(x, y);
        assert(a.drop_last() =~= a.remove(a.len() - 1));
        assert(b.drop_last() =~= b.remove(b.len() - 1));
        assert(a =~= a.drop_last().push(x));
        assert(b =~= b.drop_last().push(y));
        assert(a.drop_last().to_multiset().insert(x) =~= a.to_multiset());
        assert(b.drop_last().to_multiset().insert(x) =~= b.to_multiset());
        assert(a.drop_last().to_multiset() =~= a.to_multiset().remove(x));
        assert(b.drop_last().to_multiset() =~= b.to_multiset().remove(x));
        sorted_form_is_unique(a.drop_last(), b.drop_last());
    }
}

} // verus!
