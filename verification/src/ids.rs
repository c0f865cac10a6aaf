//! Lists of node ids: membership, and removal of one id.

use vstd::prelude::*;
use std::collections::HashMap;
use std::collections::HashSet;

verus! {

broadcast use vstd::std_specs::hash::group_hash_axioms;

/// A list without the occurrences of one id, the others in their order.
pub open spec fn without(s: Seq<u64>, id: u64) -> Seq<u64>
    decreases s.len(),
{
    if s.len() == 0 {
        s
    } else if s.last() == id {
        without(s.drop_last(), id)
    } else {
        without(s.drop_last(), id).push(s.last())
    }
}

/// `without` keeps exactly the ids other than the one removed.
pub proof fn lemma_without_contains(s: Seq<u64>, id: u64, x: u64)
    ensures
        without(s, id).contains(x) <==> (s.contains(x) && x != id),
    decreases s.len(),
{
    if s.len() == 0 {
    } else {
        let rest = s.drop_last();
        lemma_without_contains(rest, id, x);
        if s.contains(x) {
            let i = choose|i: int| 0 <= i < s.len() && s[i] == x;
            if i < s.len() - 1 {
                assert(rest[i] == x);
            }
        }
        if rest.contains(x) {
            let i = choose|i: int| 0 <= i < rest.len() && rest[i] == x;
            assert(s[i] == x);
        }
        if s.last() != id {
            let w = without(rest, id);
            assert(w.push(s.last()).last() == s.last());
            if w.push(s.last()).contains(x) {
                let i = choose|i: int| 0 <= i < w.push(s.last()).len() && w.push(s.last())[i] == x;
                if i < w.len() {
                    assert(w[i] == x);
                } else {
                    assert(s[s.len() - 1] == x);
                }
            }
            if w.contains(x) {
                let i = choose|i: int| 0 <= i < w.len() && w[i] == x;
                assert(w.push(s.last())[i] == x);
            }
            if x == s.last() {
                assert(w.push(s.last())[w.len() as int] == x);
                assert(s[s.len() - 1] == x);
            }
        }
    }
}

/// `without` keeps a list free of duplicates so.
pub proof fn lemma_without_no_duplicates(s: Seq<u64>, id: u64)
    requires
        s.no_duplicates(),
    ensures
        without(s, id).no_duplicates(),
    decreases s.len(),
{
    if s.len() == 0 {
    } else {
        let rest = s.drop_last();
        assert(rest.no_duplicates());
        lemma_without_no_duplicates(rest, id);
        if s.last() != id {
            let w = without(rest, id);
            lemma_without_contains(rest, id, s.last());
            if rest.contains(s.last()) {
                let i = choose|i: int| 0 <= i < rest.len() && rest[i] == s.last();
                assert(s[i] == s[s.len() - 1]);
            }
            assert forall|i: int, j: int|
                0 <= i < w.len() + 1 && 0 <= j < w.len() + 1 && i != j implies w.push(s.last())[i]
                != w.push(s.last())[j] by {
                if i == w.len() {
                    assert(w.contains(w[j]));
                } else if j == w.len() {
                    assert(w.contains(w[i]));
                }
            }
        }
    }
}

/// What a list with one more id at its end holds.
pub proof fn lemma_push_contains(s: Seq<u64>, a: u64, x: u64)
    ensures
        s.push(a).contains(x) <==> (s.contains(x) || x == a),
{
    if s.push(a).contains(x) {
        let i = choose|i: int| 0 <= i < s.push(a).len() && s.push(a)[i] == x;
        if i < s.len() {
            assert(s[i] == x);
        }
    }
    if s.contains(x) {
        let i = choose|i: int| 0 <= i < s.len() && s[i] == x;
        assert(s.push(a)[i] == x);
    }
    if x == a {
        assert(s.push(a)[s.len() as int] == x);
    }
}

/// A list free of duplicates stays so when an id that it lacks is appended.
pub proof fn lemma_push_no_duplicates(s: Seq<u64>, a: u64)
    requires
        s.no_duplicates(),
        !s.contains(a),
    ensures
        s.push(a).no_duplicates(),
{
    assert forall|i: int, j: int|
        0 <= i < s.len() + 1 && 0 <= j < s.len() + 1 && i != j implies s.push(a)[i] != s.push(
        a,
    )[j] by {
        if i < s.len() {
            assert(s.contains(s[i]));
        }
        if j < s.len() {
            assert(s.contains(s[j]));
        }
    }
}

/// A list without the occurrences of each of some ids.
pub open spec fn without_all(s: Seq<u64>, ids: Seq<u64>) -> Seq<u64>
    decreases ids.len(),
{
    if ids.len() == 0 {
        s
    } else {
        without_all(without(s, ids[0]), ids.skip(1))
    }
}

/// Whether an id occurs in a list.
pub fn contains_id(v: &Vec<u64>, id: u64) -> (r: bool)
    ensures
        r == v@.contains(id),
{
    let mut i: usize = 0;
    while i < v.len()
        invariant
            i <= v.len(),
            forall|j: int| 0 <= j < i ==> v@[j] != id,
        decreases v.len() - i,
    {
        if v[i] == id {
            return true;
        }
        i += 1;
    }
    false
}

/// Removes every occurrence of an id from a list.
pub fn remove_id(v: &mut Vec<u64>, id: u64)
    ensures
        final(v)@ == without(old(v)@, id),
{
    let mut out: Vec<u64> = Vec::new();
    let mut i: usize = 0;
    while i < v.len()
        invariant
            i <= v.len(),
            out@ == without(v@.take(i as int), id),
        decreases v.len() - i,
    {
        let x: u64 = v[i];
        proof {
            let t = v@.take(i as int + 1);
            assert(t.drop_last() =~= v@.take(i as int));
            assert(t.last() == x);
        }
        if x != id {
            out.push(x);
        }
        i += 1;
    }
    assert(v@.take(v.len() as int) =~= v@);
    *v = out;
}

/// Whether no id occurs twice in a list.
pub fn has_no_duplicates(v: &Vec<u64>) -> (r: bool)
    ensures
        r == v@.no_duplicates(),
{
    let mut seen: HashSet<u64> = HashSet::new();
    let mut i: usize = 0;
    while i < v.len()
        invariant
            i <= v.len(),
            forall|x: u64| seen@.contains(x) <==> exists|j: int| 0 <= j < i && v@[j] == x,
            forall|a: int, b: int| 0 <= a < b < i ==> v@[a] != v@[b],
        decreases v.len() - i,
    {
        let fresh: bool = seen.insert(v[i]);
        if !fresh {
            let ghost j = choose|j: int| 0 <= j < i && v@[j] == v@[i as int];
            assert(v@[j] == v@[i as int] && j != i);
            return false;
        }
        proof {
            assert forall|x: u64| seen@.contains(x) <==> exists|j: int|
                0 <= j < i + 1 && v@[j] == x by {
                if seen@.contains(x) {
                    if x == v@[i as int] {
                        assert(v@[i as int] == x);
                    } else {
                        let j = choose|j: int| 0 <= j < i && v@[j] == x;
                        assert(0 <= j < i + 1 && v@[j] == x);
                    }
                }
            }
        }
        i += 1;
    }
    true
}

/// The ids under which a map holds values, each once, in no stated order.
pub fn key_list<V>(m: &HashMap<u64, V>) -> (r: Vec<u64>)
    ensures
        r@.no_duplicates(),
        forall|x: u64| r@.contains(x) <==> m@.contains_key(x),
{
    let mut r: Vec<u64> = Vec::new();
    for k in it: m.keys()
        invariant
            r@.len() == it.index(),
            forall|j: int| 0 <= j < r@.len() ==> r@[j] == *it.seq()[j],
    {
        r.push(*k);
    }
    proof {
        let keys = vstd::std_specs::iter::IteratorSpec::remaining(
            &vstd::std_specs::hash::spec_keys_iter(m),
        );
        assert(r@ =~= keys.unref());
        assert forall|x: u64| r@.contains(x) <==> m@.contains_key(x) by {
            assert(r@.to_set().contains(x) == m@.dom().contains(x));
        }
    }
    r
}

/// Whether a list of ids ascends, no id occurring twice.
pub open spec fn ascending(s: Seq<u64>) -> bool {
    forall|i: int, j: int| 0 <= i < j < s.len() ==> s[i] < s[j]
}

/// Sorts ids in place with `sort_unstable` of the standard library's slices.
/// Believed of it: the result holds the same ids as often as before, none
/// before a lesser one.
#[verifier::external_body]
fn sort_ids(v: &mut Vec<u64>)
    ensures
        forall|i: int, j: int| 0 <= i < j < final(v)@.len() ==> final(v)@[i] <= final(v)@[j],
        final(v)@.to_multiset() == old(v)@.to_multiset(),
{
    v.sort_unstable();
}

/// The ids under which a map holds values, in ascending order.
pub fn sorted_keys<V>(m: &HashMap<u64, V>) -> (r: Vec<u64>)
    ensures
        ascending(r@),
        forall|x: u64| r@.contains(x) <==> m@.contains_key(x),
{
    let mut r = key_list(m);
    let ghost before = r@;
    sort_ids(&mut r);
    proof {
        broadcast use vstd::seq_lib::group_to_multiset_ensures;

        before.lemma_multiset_has_no_duplicates();
        r@.lemma_multiset_has_no_duplicates_conv();
        assert forall|x: u64| r@.contains(x) <==> m@.contains_key(x) by {
            assert(r@.to_multiset().count(x) == before.to_multiset().count(x));
            assert(r@.contains(x) <==> before.contains(x));
        }
    }
    r
}

} // verus!
