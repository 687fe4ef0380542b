//! A stable insertion sort on parameter collections, keyed by the numeric
//! parameter identifier, together with the specification it is proved
//! against.
//!
//! The specification `sort_keyed` inserts the elements left to right, each
//! one after the existing elements of equal key, so equal keys keep their
//! relative order. The executable sort is proved to return exactly that
//! sequence.

use vstd::prelude::*;

use crate::params::Param;

verus! {

/// The sequence `s` is sorted by `key` in ascending order.
pub open spec fn sorted_keyed<T>(s: Seq<T>, key: spec_fn(T) -> u64) -> bool {
    forall|i: int, j: int| 0 <= i < j < s.len() ==> key(s[i]) <= key(s[j])
}

/// The sequence `s` is sorted by `key` in strictly ascending order.
pub open spec fn strictly_sorted_keyed<T>(s: Seq<T>, key: spec_fn(T) -> u64) -> bool {
    forall|i: int, j: int| 0 <= i < j < s.len() ==> key(s[i]) < key(s[j])
}

/// No two elements of `s` share a key.
pub open spec fn distinct_keys<T>(s: Seq<T>, key: spec_fn(T) -> u64) -> bool {
    forall|i: int, j: int| 0 <= i < j < s.len() ==> key(s[i]) != key(s[j])
}

/// Some element of `s` has key `k`.
pub open spec fn has_key<T>(s: Seq<T>, k: u64, key: spec_fn(T) -> u64) -> bool {
    exists|i: int| 0 <= i < s.len() && key(s[i]) == k
}

/// Inserts `x` into `s` after every element whose key is at most `key(x)`.
pub open spec fn insert_keyed<T>(s: Seq<T>, x: T, key: spec_fn(T) -> u64) -> Seq<T>
    decreases s.len(),
{
    if s.len() == 0 {
        seq![x]
    } else if key(s.last()) <= key(x) {
        s.push(x)
    } else {
        insert_keyed(s.drop_last(), x, key).push(s.last())
    }
}

/// The stable sort of `s` by `key`: the elements are inserted left to
/// right, each after the existing elements of equal key.
pub open spec fn sort_keyed<T>(s: Seq<T>, key: spec_fn(T) -> u64) -> Seq<T>
    decreases s.len(),
{
    if s.len() == 0 {
        Seq::empty()
    } else {
        insert_keyed(sort_keyed(s.drop_last(), key), s.last(), key)
    }
}

/// Inserting into a sorted sequence keeps it sorted and adds exactly the
/// inserted element.
pub proof fn lemma_insert_keyed_ensures<T>(s: Seq<T>, x: T, key: spec_fn(T) -> u64)
    requires
        sorted_keyed(s, key),
    ensures
        sorted_keyed(insert_keyed(s, x, key), key),
        insert_keyed(s, x, key).to_multiset() == s.to_multiset().insert(x),
        insert_keyed(s, x, key).len() == s.len() + 1,
        forall|k: u64|
            has_key(insert_keyed(s, x, key), k, key) <==> (has_key(s, k, key) || k == key(x)),
    decreases s.len(),
{
    broadcast use vstd::seq_lib::group_to_multiset_ensures;

    let r = insert_keyed(s, x, key);
    if s.len() == 0 {
        assert(r == seq![x]);
        assert(r.drop_last() == Seq::<T>::empty());
        assert(r.to_multiset() =~= s.to_multiset().insert(x));
        assert forall|k: u64| has_key(r, k, key) implies (has_key(s, k, key) || k == key(x)) by {
            let i = choose|i: int| 0 <= i < r.len() && key(r[i]) == k;
            assert(r[i] == x);
        }
        assert forall|k: u64| has_key(s, k, key) || k == key(x) implies has_key(r, k, key) by {
            assert(0 <= 0 < r.len() && key(r[0]) == key(x));
        }
    } else if key(s.last()) <= key(x) {
        assert(r == s.push(x));
        assert(r.to_multiset() =~= s.to_multiset().insert(x));
        assert forall|i: int, j: int| 0 <= i < j < r.len() implies key(r[i]) <= key(r[j]) by {
            if j < s.len() {
                assert(key(s[i]) <= key(s[j]));
            } else {
                assert(r[j] == x);
                if i < s.len() - 1 {
                    assert(key(s[i]) <= key(s[s.len() - 1]));
                }
            }
        }
        assert forall|k: u64| has_key(r, k, key) implies (has_key(s, k, key) || k == key(x)) by {
            let i = choose|i: int| 0 <= i < r.len() && key(r[i]) == k;
            if i < s.len() {
                assert(0 <= i < s.len() && key(s[i]) == k);
            } else {
                assert(r[i] == x);
            }
        }
        assert forall|k: u64| has_key(s, k, key) || k == key(x) implies has_key(r, k, key) by {
            if has_key(s, k, key) {
                let i = choose|i: int| 0 <= i < s.len() && key(s[i]) == k;
                assert(0 <= i < r.len() && key(r[i]) == k);
            } else {
                assert(0 <= s.len() < r.len() && key(r[s.len() as int]) == k);
            }
        }
    } else {
        let s0 = s.drop_last();
        assert(sorted_keyed(s0, key)) by {
            assert forall|i: int, j: int| 0 <= i < j < s0.len() implies key(s0[i]) <= key(
                s0[j],
            ) by {
                assert(key(s[i]) <= key(s[j]));
            }
        }
        lemma_insert_keyed_ensures(s0, x, key);
        let r0 = insert_keyed(s0, x, key);
        assert(r == r0.push(s.last()));
        assert(s0.push(s.last()) =~= s);
        assert(s0.to_multiset().insert(s.last()) == s.to_multiset());
        assert(r.to_multiset() =~= s.to_multiset().insert(x)) by {
            assert(r.to_multiset() == r0.to_multiset().insert(s.last()));
            assert(r0.to_multiset() == s0.to_multiset().insert(x));
            assert(s0.to_multiset().insert(x).insert(s.last()) =~= s0.to_multiset().insert(
                s.last(),
            ).insert(x));
        }
        // Every element of r0 has a key at most key(s.last()).
        assert forall|m: int| 0 <= m < r0.len() implies key(r0[m]) <= key(s[s.len() - 1]) by {
            let k = key(r0[m]);
            assert(has_key(r0, k, key)) by {
                assert(0 <= m < r0.len() && key(r0[m]) == k);
            }
            if has_key(s0, k, key) {
                let n = choose|n: int| 0 <= n < s0.len() && key(s0[n]) == k;
                assert(key(s[n]) <= key(s[s.len() - 1]));
            } else {
                assert(k == key(x));
            }
        }
        assert forall|i: int, j: int| 0 <= i < j < r.len() implies key(r[i]) <= key(r[j]) by {
            if j < r0.len() {
                assert(key(r0[i]) <= key(r0[j]));
            } else {
                assert(r[j] == s.last());
                assert(key(r0[i]) <= key(s[s.len() - 1]));
            }
        }
        assert forall|k: u64| has_key(r, k, key) implies (has_key(s, k, key) || k == key(x)) by {
            let i = choose|i: int| 0 <= i < r.len() && key(r[i]) == k;
            if i < r0.len() {
                assert(has_key(r0, k, key)) by {
                    assert(0 <= i < r0.len() && key(r0[i]) == k);
                }
                if has_key(s0, k, key) {
                    let m = choose|m: int| 0 <= m < s0.len() && key(s0[m]) == k;
                    assert(0 <= m < s.len() && key(s[m]) == k);
                }
            } else {
                assert(r[i] == s.last());
                assert(0 <= s.len() - 1 < s.len() && key(s[s.len() - 1]) == k);
            }
        }
        assert forall|k: u64| has_key(s, k, key) || k == key(x) implies has_key(r, k, key) by {
            if has_key(s, k, key) {
                let i = choose|i: int| 0 <= i < s.len() && key(s[i]) == k;
                if i < s.len() - 1 {
                    assert(has_key(s0, k, key)) by {
                        assert(0 <= i < s0.len() && key(s0[i]) == k);
                    }
                    assert(has_key(r0, k, key));
                    let m = choose|m: int| 0 <= m < r0.len() && key(r0[m]) == k;
                    assert(0 <= m < r.len() && key(r[m]) == k);
                } else {
                    assert(0 <= r.len() - 1 < r.len() && key(r[r.len() - 1]) == k);
                }
            } else {
                assert(k == key(x));
                assert(r0.to_multiset().count(x) > 0) by {
                    assert(r0.to_multiset() == s0.to_multiset().insert(x));
                    broadcast use vstd::multiset::group_multiset_axioms;

                }
                assert(r0.contains(x));
                let m = choose|m: int| 0 <= m < r0.len() && r0[m] == x;
                assert(0 <= m < r.len() && key(r[m]) == k);
            }
        }
    }
}

/// The stable sort returns a sorted permutation of its input with the same
/// keys.
pub proof fn lemma_sort_keyed_ensures<T>(s: Seq<T>, key: spec_fn(T) -> u64)
    ensures
        sorted_keyed(sort_keyed(s, key), key),
        sort_keyed(s, key).to_multiset() == s.to_multiset(),
        sort_keyed(s, key).len() == s.len(),
        forall|k: u64| has_key(sort_keyed(s, key), k, key) <==> has_key(s, k, key),
    decreases s.len(),
{
    broadcast use vstd::seq_lib::group_to_multiset_ensures;

    let r = sort_keyed(s, key);
    if s.len() == 0 {
        assert(s.to_multiset() =~= r.to_multiset());
    } else {
        let s0 = s.drop_last();
        lemma_sort_keyed_ensures(s0, key);
        let r0 = sort_keyed(s0, key);
        lemma_insert_keyed_ensures(r0, s.last(), key);
        assert(s0.push(s.last()) =~= s);
        assert(s0.to_multiset().insert(s.last()) == s.to_multiset());
        assert(r.to_multiset() == r0.to_multiset().insert(s.last()));
        assert forall|k: u64| has_key(s, k, key) implies has_key(r, k, key) by {
            let i = choose|i: int| 0 <= i < s.len() && key(s[i]) == k;
            if i < s.len() - 1 {
                assert(has_key(s0, k, key)) by {
                    assert(0 <= i < s0.len() && key(s0[i]) == k);
                }
                assert(has_key(r0, k, key));
            } else {
                assert(k == key(s.last()));
            }
        }
        assert forall|k: u64| has_key(r, k, key) implies has_key(s, k, key) by {
            if has_key(s0, k, key) {
                let i = choose|i: int| 0 <= i < s0.len() && key(s0[i]) == k;
                assert(0 <= i < s.len() && key(s[i]) == k);
            } else {
                if k != key(s.last()) {
                    assert(!has_key(r0, k, key));
                }
                assert(0 <= s.len() - 1 < s.len() && key(s[s.len() - 1]) == k);
            }
        }
    }
}

/// Sorting a sequence whose keys are pairwise distinct yields a strictly
/// ascending sequence.
pub proof fn lemma_sort_keyed_strict<T>(s: Seq<T>, key: spec_fn(T) -> u64)
    requires
        distinct_keys(s, key),
    ensures
        strictly_sorted_keyed(sort_keyed(s, key), key),
        distinct_keys(sort_keyed(s, key), key),
    decreases s.len(),
{
    let r = sort_keyed(s, key);
    if s.len() == 0 {
    } else {
        let s0 = s.drop_last();
        assert(distinct_keys(s0, key)) by {
            assert forall|i: int, j: int| 0 <= i < j < s0.len() implies key(s0[i]) != key(
                s0[j],
            ) by {
                assert(key(s[i]) != key(s[j]));
            }
        }
        lemma_sort_keyed_strict(s0, key);
        lemma_sort_keyed_ensures(s0, key);
        let r0 = sort_keyed(s0, key);
        // The key of the inserted element is absent from the sorted prefix.
        assert(!has_key(r0, key(s.last()), key)) by {
            if has_key(s0, key(s.last()), key) {
                let i = choose|i: int| 0 <= i < s0.len() && key(s0[i]) == key(s.last());
                assert(key(s[i]) != key(s[s.len() - 1]));
            }
        }
        lemma_insert_keyed_distinct(r0, s.last(), key);
    }
}

/// Inserting an element whose key is absent into a strictly sorted
/// sequence keeps it strictly sorted.
proof fn lemma_insert_keyed_distinct<T>(s: Seq<T>, x: T, key: spec_fn(T) -> u64)
    requires
        strictly_sorted_keyed(s, key),
        !has_key(s, key(x), key),
    ensures
        strictly_sorted_keyed(insert_keyed(s, x, key), key),
        distinct_keys(insert_keyed(s, x, key), key),
    decreases s.len(),
{
    let r = insert_keyed(s, x, key);
    assert(sorted_keyed(s, key));
    lemma_insert_keyed_ensures(s, x, key);
    if s.len() == 0 {
        assert(r == seq![x]);
    } else if key(s.last()) <= key(x) {
        assert(key(s.last()) != key(x)) by {
            if key(s[s.len() - 1]) == key(x) {
                assert(has_key(s, key(x), key)) by {
                    assert(0 <= s.len() - 1 < s.len() && key(s[s.len() - 1]) == key(x));
                }
            }
        }
        assert(r == s.push(x));
        assert forall|i: int, j: int| 0 <= i < j < r.len() implies key(r[i]) < key(r[j]) by {
            if j < s.len() {
                assert(key(s[i]) < key(s[j]));
            } else {
                assert(r[j] == x);
                if i < s.len() - 1 {
                    assert(key(s[i]) < key(s[s.len() - 1]));
                }
            }
        }
    } else {
        let s0 = s.drop_last();
        assert(strictly_sorted_keyed(s0, key)) by {
            assert forall|m: int, n: int| 0 <= m < n < s0.len() implies key(s0[m]) < key(
                s0[n],
            ) by {
                assert(key(s[m]) < key(s[n]));
            }
        }
        assert(sorted_keyed(s0, key));
        assert(!has_key(s0, key(x), key)) by {
            if has_key(s0, key(x), key) {
                let m = choose|m: int| 0 <= m < s0.len() && key(s0[m]) == key(x);
                assert(has_key(s, key(x), key)) by {
                    assert(0 <= m < s.len() && key(s[m]) == key(x));
                }
            }
        }
        lemma_insert_keyed_distinct(s0, x, key);
        lemma_insert_keyed_ensures(s0, x, key);
        let r0 = insert_keyed(s0, x, key);
        assert(r == r0.push(s.last()));
        // Every element of r0 has a key strictly below key(s.last()).
        assert forall|m: int| 0 <= m < r0.len() implies key(r0[m]) < key(s[s.len() - 1]) by {
            let k = key(r0[m]);
            assert(has_key(r0, k, key)) by {
                assert(0 <= m < r0.len() && key(r0[m]) == k);
            }
            if has_key(s0, k, key) {
                let n = choose|n: int| 0 <= n < s0.len() && key(s0[n]) == k;
                assert(key(s[n]) < key(s[s.len() - 1]));
            } else {
                assert(k == key(x));
            }
        }
        assert forall|i: int, j: int| 0 <= i < j < r.len() implies key(r[i]) < key(r[j]) by {
            if j < r0.len() {
                assert(key(r0[i]) < key(r0[j]));
            } else {
                assert(r[j] == s.last());
                assert(key(r0[i]) < key(s[s.len() - 1]));
            }
        }
    }
    assert forall|i: int, j: int| 0 <= i < j < r.len() implies key(r[i]) != key(r[j]) by {
        assert(key(r[i]) < key(r[j]));
    }
}

/// The key by which parameter collections are ordered: the numeric value
/// of the slot identifier.
pub open spec fn param_key<T>() -> spec_fn(Param<T>) -> u64 {
    |p: Param<T>| p.param_id.value
}

/// Sorts a parameter collection by ascending slot identifier. The sort is
/// stable: parameters that share an identifier keep their relative order.
pub fn sort_params<T>(v: &mut Vec<Param<T>>)
    ensures
        final(v)@ == sort_keyed(old(v)@, param_key::<T>()),
{
    let ghost key = param_key::<T>();
    let ghost orig = v@;
    if v.len() == 0 {
        proof {
            assert(v@ =~= sort_keyed(orig, key));
        }
        return ;
    }
    proof {
        let t1 = orig.take(1);
        assert(t1.len() == 1);
        assert(t1.drop_last() =~= Seq::<Param<T>>::empty());
        assert(sort_keyed(t1.drop_last(), key) == Seq::<Param<T>>::empty());
        assert(insert_keyed(Seq::<Param<T>>::empty(), t1.last(), key) == seq![t1.last()]);
        assert(sort_keyed(t1, key) == seq![t1.last()]);
        assert(v@.take(1) =~= seq![t1.last()]);
    }
    let mut i: usize = 1;
    while i < v.len()
        invariant
            key == param_key::<T>(),
            orig == old(v)@,
            1 <= i <= v@.len(),
            v@.len() == orig.len(),
            v@.skip(i as int) == orig.skip(i as int),
            v@.take(i as int) == sort_keyed(orig.take(i as int), key),
        decreases v@.len() - i,
    {
        let ghost prefix = v@.take(i as int);
        proof {
            lemma_sort_keyed_ensures(orig.take(i as int), key);
            assert(sorted_keyed(prefix, key));
            assert(v@[i as int] == orig[i as int]) by {
                assert(v@.skip(i as int)[0] == orig.skip(i as int)[0]);
            }
        }
        let x = v.remove(i);
        proof {
            assert(x == orig[i as int]);
            assert(v@ =~= prefix + orig.skip(i as int + 1)) by {
                assert forall|m: int| 0 <= m < v@.len() implies v@[m] == (prefix + orig.skip(
                    i as int + 1,
                ))[m] by {
                    if m >= i {
                        assert(v@[m] == orig.skip(i as int)[m - i + 1]);
                    }
                }
            }
        }
        let mut j: usize = i;
        while j > 0 && v[j - 1].param_id.value > x.param_id.value
            invariant
                key == param_key::<T>(),
                j <= i,
                i < v@.len() + 1,
                v@ == prefix + orig.skip(i as int + 1),
                prefix.len() == i,
                sorted_keyed(prefix, key),
                forall|k: int| j <= k < i ==> key(prefix[k]) > key(x),
            decreases j,
        {
            proof {
                assert(v@[j as int - 1] == prefix[j as int - 1]);
                assert(key(prefix[j as int - 1]) == prefix[j as int - 1].param_id.value);
            }
            j = j - 1;
        }
        proof {
            if j > 0 {
                assert(v@[j as int - 1] == prefix[j as int - 1]);
                assert(key(prefix[j as int - 1]) <= key(x));
                assert forall|k: int| 0 <= k < j implies key(prefix[k]) <= key(x) by {
                    if k < j - 1 {
                        assert(key(prefix[k]) <= key(prefix[j as int - 1]));
                    }
                }
            }
            lemma_insert_keyed_at(prefix, x, key, j as int);
        }
        v.insert(j, x);
        proof {
            assert(v@ =~= insert_keyed(prefix, x, key) + orig.skip(i as int + 1)) by {
                assert(v@ == (prefix + orig.skip(i as int + 1)).insert(j as int, x));
                assert(insert_keyed(prefix, x, key) == prefix.insert(j as int, x));
                assert forall|m: int| 0 <= m < v@.len() implies v@[m] == (prefix.insert(
                    j as int,
                    x,
                ) + orig.skip(i as int + 1))[m] by {}
            }
            assert(v@.take(i as int + 1) =~= insert_keyed(prefix, x, key));
            assert(v@.skip(i as int + 1) =~= orig.skip(i as int + 1));
            assert(sort_keyed(orig.take(i as int + 1), key) == insert_keyed(prefix, x, key)) by {
                assert(orig.take(i as int + 1).drop_last() =~= orig.take(i as int));
                assert(orig.take(i as int + 1).last() == orig[i as int]);
            }
        }
        i = i + 1;
    }
    proof {
        assert(v@.take(v@.len() as int) =~= v@);
        assert(orig.take(orig.len() as int) =~= orig);
    }
}

/// The boundary characterization used by the executable sort: if every key
/// before position `j` is at most `key(x)` and every key from `j` on is
/// greater, the insertion lands exactly at `j`.
pub proof fn lemma_insert_keyed_at<T>(s: Seq<T>, x: T, key: spec_fn(T) -> u64, j: int)
    requires
        sorted_keyed(s, key),
        0 <= j <= s.len(),
        forall|k: int| 0 <= k < j ==> key(s[k]) <= key(x),
        forall|k: int| j <= k < s.len() ==> key(s[k]) > key(x),
    ensures
        insert_keyed(s, x, key) == s.insert(j, x),
    decreases s.len(),
{
    if s.len() == 0 {
        assert(insert_keyed(s, x, key) =~= s.insert(j, x));
    } else if key(s.last()) <= key(x) {
        assert(j == s.len()) by {
            if j < s.len() {
                assert(key(s[s.len() - 1]) > key(x));
            }
        }
        assert(insert_keyed(s, x, key) =~= s.insert(j, x));
    } else {
        let s0 = s.drop_last();
        assert(sorted_keyed(s0, key)) by {
            assert forall|m: int, n: int| 0 <= m < n < s0.len() implies key(s0[m]) <= key(
                s0[n],
            ) by {
                assert(key(s[m]) <= key(s[n]));
            }
        }
        assert(j <= s0.len()) by {
            if j == s.len() {
                assert(key(s[s.len() - 1]) <= key(x));
            }
        }
        assert(forall|k: int| 0 <= k < j ==> key(s0[k]) == key(s[k]));
        assert(forall|k: int| j <= k < s0.len() ==> key(s0[k]) == key(s[k]));
        lemma_insert_keyed_at(s0, x, key, j);
        assert(insert_keyed(s, x, key) =~= s.insert(j, x)) by {
            assert(insert_keyed(s, x, key) == s0.insert(j, x).push(s.last()));
            assert(s0.insert(j, x).push(s.last()) =~= s.insert(j, x));
        }
    }
}

/// Mapping a key-preserving function over an insertion inserts the mapped
/// element.
pub proof fn lemma_insert_map_commute<A, B>(
    s: Seq<A>,
    x: A,
    ka: spec_fn(A) -> u64,
    kb: spec_fn(B) -> u64,
    f: spec_fn(A) -> B,
)
    requires
        forall|a: A| #[trigger] kb(f(a)) == ka(a),
    ensures
        insert_keyed(s, x, ka).map_values(f) == insert_keyed(s.map_values(f), f(x), kb),
    decreases s.len(),
{
    let sm = s.map_values(f);
    if s.len() == 0 {
        assert(insert_keyed(s, x, ka).map_values(f) =~= seq![f(x)]);
        assert(sm.len() == 0);
        assert(insert_keyed(sm, f(x), kb) == seq![f(x)]);
    } else {
        assert(sm.len() == s.len());
        assert(sm.last() == f(s.last()));
        assert(kb(sm.last()) == ka(s.last()));
        if ka(s.last()) <= ka(x) {
            assert(insert_keyed(s, x, ka) == s.push(x));
            assert(insert_keyed(sm, f(x), kb) == sm.push(f(x)));
            assert(s.push(x).map_values(f) =~= sm.push(f(x)));
        } else {
            let s0 = s.drop_last();
            lemma_insert_map_commute(s0, x, ka, kb, f);
            assert(s0.map_values(f) =~= sm.drop_last());
            assert(insert_keyed(s, x, ka) == insert_keyed(s0, x, ka).push(s.last()));
            assert(insert_keyed(s0, x, ka).push(s.last()).map_values(f) =~= insert_keyed(
                s0,
                x,
                ka,
            ).map_values(f).push(f(s.last())));
            assert(insert_keyed(sm, f(x), kb) == insert_keyed(sm.drop_last(), f(x), kb).push(
                sm.last(),
            ));
        }
    }
}

/// Mapping a key-preserving function over the stable sort sorts the
/// mapped sequence.
pub proof fn lemma_sort_map_commute<A, B>(
    s: Seq<A>,
    ka: spec_fn(A) -> u64,
    kb: spec_fn(B) -> u64,
    f: spec_fn(A) -> B,
)
    requires
        forall|a: A| #[trigger] kb(f(a)) == ka(a),
    ensures
        sort_keyed(s, ka).map_values(f) == sort_keyed(s.map_values(f), kb),
    decreases s.len(),
{
    let sm = s.map_values(f);
    if s.len() == 0 {
        assert(sort_keyed(s, ka).map_values(f) =~= Seq::<B>::empty());
        assert(sm.len() == 0);
    } else {
        let s0 = s.drop_last();
        lemma_sort_map_commute(s0, ka, kb, f);
        lemma_insert_map_commute(sort_keyed(s0, ka), s.last(), ka, kb, f);
        assert(s0.map_values(f) =~= sm.drop_last());
        assert(sm.last() == f(s.last()));
        assert(sort_keyed(sm, kb) == insert_keyed(sort_keyed(sm.drop_last(), kb), sm.last(), kb));
    }
}

/// Removes the first element with key `idv`, scanning from the front; a
/// sequence without that key is returned unchanged.
pub open spec fn remove_first_keyed<T>(s: Seq<T>, idv: u64, key: spec_fn(T) -> u64) -> Seq<T>
    decreases s.len(),
{
    if s.len() == 0 {
        s
    } else if key(s.first()) == idv {
        s.drop_first()
    } else {
        seq![s.first()] + remove_first_keyed(s.drop_first(), idv, key)
    }
}

/// The front-scanning removal takes out exactly the element at the first
/// position whose key matches.
pub proof fn lemma_remove_first_at<T>(s: Seq<T>, idv: u64, key: spec_fn(T) -> u64, j: int)
    requires
        0 <= j < s.len(),
        key(s[j]) == idv,
        forall|k: int| 0 <= k < j ==> key(s[k]) != idv,
    ensures
        remove_first_keyed(s, idv, key) == s.remove(j),
    decreases s.len(),
{
    if key(s.first()) == idv {
        assert(j == 0);
        assert(s.drop_first() =~= s.remove(0));
    } else {
        assert(j > 0);
        let s0 = s.drop_first();
        assert(key(s0[j - 1]) == idv);
        assert(forall|k: int| 0 <= k < j - 1 ==> key(s0[k]) == key(s[k + 1]) && key(s0[k]) != idv);
        lemma_remove_first_at(s0, idv, key, j - 1);
        assert(seq![s.first()] + s0.remove(j - 1) =~= s.remove(j));
    }
}

/// Removing a key that no element has changes nothing.
pub proof fn lemma_remove_first_absent<T>(s: Seq<T>, idv: u64, key: spec_fn(T) -> u64)
    requires
        !has_key(s, idv, key),
    ensures
        remove_first_keyed(s, idv, key) == s,
    decreases s.len(),
{
    if s.len() > 0 {
        assert(key(s.first()) != idv) by {
            if key(s[0]) == idv {
                assert(has_key(s, idv, key)) by {
                    assert(0 <= 0 < s.len() && key(s[0]) == idv);
                }
            }
        }
        let s0 = s.drop_first();
        assert(!has_key(s0, idv, key)) by {
            if has_key(s0, idv, key) {
                let k = choose|k: int| 0 <= k < s0.len() && key(s0[k]) == idv;
                assert(has_key(s, idv, key)) by {
                    assert(0 <= k + 1 < s.len() && key(s[k + 1]) == idv);
                }
            }
        }
        lemma_remove_first_absent(s0, idv, key);
        assert(seq![s.first()] + s0 =~= s);
    }
}

/// The front-scanning removal keeps keys pairwise distinct and
/// introduces no key.
pub proof fn lemma_remove_first_distinct<T>(s: Seq<T>, idv: u64, key: spec_fn(T) -> u64)
    requires
        distinct_keys(s, key),
    ensures
        distinct_keys(remove_first_keyed(s, idv, key), key),
        forall|k: u64|
            has_key(remove_first_keyed(s, idv, key), k, key) ==> has_key(s, k, key),
    decreases s.len(),
{
    let r = remove_first_keyed(s, idv, key);
    if s.len() == 0 {
    } else if key(s.first()) == idv {
        assert forall|i: int, j: int| 0 <= i < j < r.len() implies key(r[i]) != key(r[j]) by {
            assert(key(s[i + 1]) != key(s[j + 1]));
        }
        assert forall|k: u64| has_key(r, k, key) implies has_key(s, k, key) by {
            let i = choose|i: int| 0 <= i < r.len() && key(r[i]) == k;
            assert(0 <= i + 1 < s.len() && key(s[i + 1]) == k);
        }
    } else {
        let s0 = s.drop_first();
        assert(distinct_keys(s0, key)) by {
            assert forall|i: int, j: int| 0 <= i < j < s0.len() implies key(s0[i]) != key(
                s0[j],
            ) by {
                assert(key(s[i + 1]) != key(s[j + 1]));
            }
        }
        lemma_remove_first_distinct(s0, idv, key);
        let r0 = remove_first_keyed(s0, idv, key);
        assert(r == seq![s.first()] + r0);
        assert forall|i: int, j: int| 0 <= i < j < r.len() implies key(r[i]) != key(r[j]) by {
            if i >= 1 {
                assert(key(r0[i - 1]) != key(r0[j - 1]));
            } else {
                assert(r[i] == s.first());
                assert(r[j] == r0[j - 1]);
                let kj = key(r0[j - 1]);
                assert(has_key(r0, kj, key)) by {
                    assert(0 <= j - 1 < r0.len() && key(r0[j - 1]) == kj);
                }
                assert(has_key(s0, kj, key));
                let m = choose|m: int| 0 <= m < s0.len() && key(s0[m]) == kj;
                assert(key(s[0]) != key(s[m + 1]));
            }
        }
        assert forall|k: u64| has_key(r, k, key) implies has_key(s, k, key) by {
            let i = choose|i: int| 0 <= i < r.len() && key(r[i]) == k;
            if i == 0 {
                assert(0 <= 0 < s.len() && key(s[0]) == k);
            } else {
                assert(has_key(r0, k, key)) by {
                    assert(0 <= i - 1 < r0.len() && key(r0[i - 1]) == k);
                }
                assert(has_key(s0, k, key));
                let m = choose|m: int| 0 <= m < s0.len() && key(s0[m]) == k;
                assert(0 <= m + 1 < s.len() && key(s[m + 1]) == k);
            }
        }
    }
}

/// How many elements of `s` have key `k`.
pub open spec fn count_key<T>(s: Seq<T>, k: u64, key: spec_fn(T) -> u64) -> nat
    decreases s.len(),
{
    if s.len() == 0 {
        0
    } else {
        (if key(s.first()) == k {
            1nat
        } else {
            0nat
        }) + count_key(s.drop_first(), k, key)
    }
}

/// Counting distributes over concatenation.
pub proof fn lemma_count_key_add<T>(a: Seq<T>, b: Seq<T>, k: u64, key: spec_fn(T) -> u64)
    ensures
        count_key(a + b, k, key) == count_key(a, k, key) + count_key(b, k, key),
    decreases a.len(),
{
    if a.len() == 0 {
        assert(a + b =~= b);
    } else {
        let a0 = a.drop_first();
        assert((a + b).first() == a.first());
        assert((a + b).drop_first() =~= a0 + b);
        lemma_count_key_add(a0, b, k, key);
    }
}

/// A key is absent exactly when its count is zero.
pub proof fn lemma_count_key_zero<T>(s: Seq<T>, k: u64, key: spec_fn(T) -> u64)
    ensures
        (count_key(s, k, key) == 0) == !has_key(s, k, key),
    decreases s.len(),
{
    if s.len() == 0 {
        if has_key(s, k, key) {
            let i = choose|i: int| 0 <= i < s.len() && key(s[i]) == k;
        }
    } else {
        let s0 = s.drop_first();
        lemma_count_key_zero(s0, k, key);
        if key(s.first()) == k {
            assert(has_key(s, k, key)) by {
                assert(0 <= 0 < s.len() && key(s[0]) == k);
            }
        } else {
            if has_key(s, k, key) {
                let i = choose|i: int| 0 <= i < s.len() && key(s[i]) == k;
                assert(i > 0);
                assert(has_key(s0, k, key)) by {
                    assert(0 <= i - 1 < s0.len() && key(s0[i - 1]) == k);
                }
            }
            if has_key(s0, k, key) {
                let i = choose|i: int| 0 <= i < s0.len() && key(s0[i]) == k;
                assert(has_key(s, k, key)) by {
                    assert(0 <= i + 1 < s.len() && key(s[i + 1]) == k);
                }
            }
        }
    }
}

/// Removing the first element with key `idv` lowers the count of `idv`
/// by one when present, and no other count.
pub proof fn lemma_remove_first_count<T>(s: Seq<T>, idv: u64, key: spec_fn(T) -> u64, k: u64)
    ensures
        count_key(remove_first_keyed(s, idv, key), k, key) as int == if k == idv && has_key(
            s,
            idv,
            key,
        ) {
            count_key(s, k, key) - 1
        } else {
            count_key(s, k, key) as int
        },
    decreases s.len(),
{
    lemma_count_key_zero(s, idv, key);
    if s.len() == 0 {
    } else {
        let s0 = s.drop_first();
        lemma_count_key_zero(s0, idv, key);
        if key(s.first()) == idv {
            assert(remove_first_keyed(s, idv, key) == s0);
            assert(has_key(s, idv, key)) by {
                assert(0 <= 0 < s.len() && key(s[0]) == idv);
            }
        } else {
            lemma_remove_first_count(s0, idv, key, k);
            let r0 = remove_first_keyed(s0, idv, key);
            let r = seq![s.first()] + r0;
            assert(remove_first_keyed(s, idv, key) == r);
            assert(r.first() == s.first());
            assert(r.drop_first() =~= r0);
            assert(count_key(r, k, key) == (if key(s.first()) == k {
                1nat
            } else {
                0nat
            }) + count_key(r0, k, key));
            assert(has_key(s, idv, key) == has_key(s0, idv, key)) by {
                if has_key(s, idv, key) {
                    let i = choose|i: int| 0 <= i < s.len() && key(s[i]) == idv;
                    assert(i > 0);
                    assert(0 <= i - 1 < s0.len() && key(s0[i - 1]) == idv);
                }
                if has_key(s0, idv, key) {
                    let i = choose|i: int| 0 <= i < s0.len() && key(s0[i]) == idv;
                    assert(0 <= i + 1 < s.len() && key(s[i + 1]) == idv);
                }
            }
        }
    }
}

/// Filtering with a predicate that keeps every element of key `k` keeps
/// the count of `k`.
pub proof fn lemma_count_key_filter<T>(s: Seq<T>, p: spec_fn(T) -> bool, k: u64, key: spec_fn(
    T,
) -> u64)
    requires
        forall|i: int| 0 <= i < s.len() && key(#[trigger] s[i]) == k ==> p(s[i]),
    ensures
        count_key(s.filter(p), k, key) == count_key(s, k, key),
    decreases s.len(),
{
    reveal(Seq::filter);
    if s.len() == 0 {
    } else {
        let s0 = s.drop_first();
        assert(forall|i: int| 0 <= i < s0.len() && key(#[trigger] s0[i]) == k ==> p(s0[i])) by {
            assert forall|i: int| 0 <= i < s0.len() && key(#[trigger] s0[i]) == k implies p(
                s0[i],
            ) by {
                assert(s0[i] == s[i + 1]);
                assert(key(s[i + 1]) == k ==> p(s[i + 1]));
            }
        }
        lemma_count_key_filter(s0, p, k, key);
        assert(seq![s.first()] + s0 =~= s);
        s0.lemma_filter_prepend(s.first(), p);
        if p(s.first()) {
            assert(s.filter(p) == seq![s.first()] + s0.filter(p));
            assert((seq![s.first()] + s0.filter(p)).first() == s.first());
            assert((seq![s.first()] + s0.filter(p)).drop_first() =~= s0.filter(p));
        } else {
            assert(s.filter(p) == Seq::<T>::empty() + s0.filter(p));
            assert(Seq::<T>::empty() + s0.filter(p) =~= s0.filter(p));
            assert(key(s.first()) != k);
        }
    }
}

/// A key-preserving mapping keeps every count.
pub proof fn lemma_count_key_map<A, B>(
    s: Seq<A>,
    ka: spec_fn(A) -> u64,
    kb: spec_fn(B) -> u64,
    f: spec_fn(A) -> B,
    k: u64,
)
    requires
        forall|a: A| #[trigger] kb(f(a)) == ka(a),
    ensures
        count_key(s.map_values(f), k, kb) == count_key(s, k, ka),
    decreases s.len(),
{
    if s.len() == 0 {
    } else {
        let s0 = s.drop_first();
        lemma_count_key_map(s0, ka, kb, f, k);
        let m = s.map_values(f);
        assert(m.first() == f(s.first()));
        assert(m.drop_first() =~= s0.map_values(f));
    }
}

/// The key of a keyed pair: its first component.
pub open spec fn pair_key<T>() -> spec_fn((u64, T)) -> u64 {
    |p: (u64, T)| p.0
}

/// Sorts a collection of keyed pairs by ascending key. The sort is
/// stable: pairs that share a key keep their relative order.
pub fn sort_pairs<T>(v: &mut Vec<(u64, T)>)
    ensures
        final(v)@ == sort_keyed(old(v)@, pair_key::<T>()),
{
    let ghost key = pair_key::<T>();
    let ghost orig = v@;
    if v.len() == 0 {
        proof {
            assert(v@ =~= sort_keyed(orig, key));
        }
        return ;
    }
    proof {
        let t1 = orig.take(1);
        assert(t1.len() == 1);
        assert(t1.drop_last() =~= Seq::<(u64, T)>::empty());
        assert(sort_keyed(t1.drop_last(), key) == Seq::<(u64, T)>::empty());
        assert(insert_keyed(Seq::<(u64, T)>::empty(), t1.last(), key) == seq![t1.last()]);
        assert(sort_keyed(t1, key) == seq![t1.last()]);
        assert(v@.take(1) =~= seq![t1.last()]);
    }
    let mut i: usize = 1;
    while i < v.len()
        invariant
            key == pair_key::<T>(),
            orig == old(v)@,
            1 <= i <= v@.len(),
            v@.len() == orig.len(),
            v@.skip(i as int) == orig.skip(i as int),
            v@.take(i as int) == sort_keyed(orig.take(i as int), key),
        decreases v@.len() - i,
    {
        let ghost prefix = v@.take(i as int);
        proof {
            lemma_sort_keyed_ensures(orig.take(i as int), key);
            assert(sorted_keyed(prefix, key));
            assert(v@[i as int] == orig[i as int]) by {
                assert(v@.skip(i as int)[0] == orig.skip(i as int)[0]);
            }
        }
        let x = v.remove(i);
        proof {
            assert(x == orig[i as int]);
            assert(v@ =~= prefix + orig.skip(i as int + 1)) by {
                assert forall|m: int| 0 <= m < v@.len() implies v@[m] == (prefix + orig.skip(
                    i as int + 1,
                ))[m] by {
                    if m >= i {
                        assert(v@[m] == orig.skip(i as int)[m - i + 1]);
                    }
                }
            }
        }
        let mut j: usize = i;
        while j > 0 && v[j - 1].0 > x.0
            invariant
                key == pair_key::<T>(),
                j <= i,
                i < v@.len() + 1,
                v@ == prefix + orig.skip(i as int + 1),
                prefix.len() == i,
                sorted_keyed(prefix, key),
                forall|k: int| j <= k < i ==> key(prefix[k]) > key(x),
            decreases j,
        {
            proof {
                assert(v@[j as int - 1] == prefix[j as int - 1]);
                assert(key(prefix[j as int - 1]) == prefix[j as int - 1].0);
            }
            j = j - 1;
        }
        proof {
            if j > 0 {
                assert(v@[j as int - 1] == prefix[j as int - 1]);
                assert(key(prefix[j as int - 1]) <= key(x));
                assert forall|k: int| 0 <= k < j implies key(prefix[k]) <= key(x) by {
                    if k < j - 1 {
                        assert(key(prefix[k]) <= key(prefix[j as int - 1]));
                    }
                }
            }
            lemma_insert_keyed_at(prefix, x, key, j as int);
        }
        v.insert(j, x);
        proof {
            assert(v@ =~= insert_keyed(prefix, x, key) + orig.skip(i as int + 1)) by {
                assert(v@ == (prefix + orig.skip(i as int + 1)).insert(j as int, x));
                assert(insert_keyed(prefix, x, key) == prefix.insert(j as int, x));
                assert forall|m: int| 0 <= m < v@.len() implies v@[m] == (prefix.insert(
                    j as int,
                    x,
                ) + orig.skip(i as int + 1))[m] by {}
            }
            assert(v@.take(i as int + 1) =~= insert_keyed(prefix, x, key));
            assert(v@.skip(i as int + 1) =~= orig.skip(i as int + 1));
            assert(sort_keyed(orig.take(i as int + 1), key) == insert_keyed(prefix, x, key)) by {
                assert(orig.take(i as int + 1).drop_last() =~= orig.take(i as int));
                assert(orig.take(i as int + 1).last() == orig[i as int]);
            }
        }
        i = i + 1;
    }
    proof {
        assert(v@.take(v@.len() as int) =~= v@);
        assert(orig.take(orig.len() as int) =~= orig);
    }
}
} // verus!
