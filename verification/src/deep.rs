//! Views of nested values, and deep equality on them.
//!
//! A value that owns strings or vectors is compared through its view: a value
//! of a mathematical type made of sequences. `views` lifts a view to a
//! sequence of values, and `Same` is equality of views as executable code.

use vstd::prelude::*;

verus! {

/// The views of the elements of a sequence, in order.
pub open spec fn views<T: View>(s: Seq<T>) -> Seq<T::V> {
    Seq::new(s.len(), |i: int| s[i]@)
}

/// Equality of views, decided by executable code.
pub trait Same: View + Sized {
    fn same(&self, other: &Self) -> (r: bool)
        ensures
            r == (self@ == other@),
    ;
}

impl Same for u64 {
    fn same(&self, other: &Self) -> (r: bool) {
        *self == *other
    }
}

impl Same for String {
    fn same(&self, other: &Self) -> (r: bool) {
        *self == *other
    }
}

/// Whether two vectors hold elements with equal views, position by position.
pub fn same_vec<T: Same>(a: &Vec<T>, b: &Vec<T>) -> (r: bool)
    ensures
        r == (views(a@) == views(b@)),
{
    if a.len() != b.len() {
        assert(views(a@).len() != views(b@).len());
        return false;
    }
    let mut i: usize = 0;
    while i < a.len()
        invariant
            i <= a.len(),
            a.len() == b.len(),
            forall|j: int| 0 <= j < i ==> a@[j]@ == b@[j]@,
        decreases a.len() - i,
    {
        if !a[i].same(&b[i]) {
            assert(views(a@)[i as int] != views(b@)[i as int]);
            return false;
        }
        i += 1;
    }
    assert(views(a@) =~= views(b@));
    true
}

/// Whether two optional values are both absent or hold equal views.
pub fn same_option<T: Same>(a: &Option<T>, b: &Option<T>) -> (r: bool)
    ensures
        r == (option_view(*a) == option_view(*b)),
{
    match (a, b) {
        (Some(x), Some(y)) => x.same(y),
        (None, None) => true,
        _ => false,
    }
}

/// The view of an optional value.
pub open spec fn option_view<T: View>(o: Option<T>) -> Option<T::V> {
    match o {
        Some(t) => Some(t@),
        None => None,
    }
}

/// The values that a map holds under the ids below a bound, in ascending
/// order of their ids.
pub open spec fn listed<V>(m: Map<u64, V>, upto: int) -> Seq<V>
    decreases upto,
{
    if upto <= 0 {
        Seq::empty()
    } else if m.contains_key((upto - 1) as u64) {
        listed(m, upto - 1).push(m[(upto - 1) as u64])
    } else {
        listed(m, upto - 1)
    }
}

/// The values that a map holds under the ids below a bound are those under
/// the first ids of the ascending list of its ids: the ids below the bound.
/// Returns how many they are.
pub proof fn lemma_listed_by_keys<V>(m: Map<u64, V>, keys: Seq<u64>, upto: int) -> (c: int)
    requires
        forall|i: int, j: int| 0 <= i < j < keys.len() ==> keys[i] < keys[j],
        forall|x: u64| keys.contains(x) <==> m.contains_key(x),
        0 <= upto <= u64::MAX + 1,
    ensures
        0 <= c <= keys.len(),
        forall|j: int| 0 <= j < c ==> keys[j] < upto,
        forall|j: int| c <= j < keys.len() ==> keys[j] >= upto,
        listed(m, upto) == Seq::new(c as nat, |j: int| m[keys[j]]),
    decreases upto,
{
    if upto <= 0 {
        assert(listed(m, upto) =~= Seq::new(0nat, |j: int| m[keys[j]]));
        0
    } else {
        let c0 = lemma_listed_by_keys(m, keys, upto - 1);
        let k = (upto - 1) as u64;
        if m.contains_key(k) {
            assert(keys.contains(k));
            let j0 = choose|j: int| 0 <= j < keys.len() && keys[j] == k;
            assert(j0 >= c0);
            if j0 > c0 {
                assert(keys[c0] < keys[j0]);
            }
            assert(keys[c0] == k);
            assert(listed(m, upto) =~= Seq::new((c0 + 1) as nat, |j: int| m[keys[j]]));
            c0 + 1
        } else {
            assert forall|j: int| c0 <= j < keys.len() implies keys[j] >= upto by {
                assert(keys.contains(keys[j]));
            }
            c0
        }
    }
}

} // verus!
