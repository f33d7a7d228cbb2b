//! Ordering of listings.
//!
//! Every listing the tracker produces is ascending by modification
//! timestamp, oldest first. The order is fixed here as a stable insertion
//! sort: entries sharing a timestamp keep the order they already stood in,
//! a concrete choice within the design's leeway of leaving ties unordered.
use vstd::prelude::*;

verus! {

/// `s` with `x` inserted behind every element whose key does not exceed
/// `x`'s: the stable insertion position.
pub open spec fn insert_by_key<T>(s: Seq<T>, x: T, key: spec_fn(T) -> int) -> Seq<T>
    decreases s.len(),
{
    if s.len() > 0 && key(s.last()) > key(x) {
        insert_by_key(s.drop_last(), x, key).push(s.last())
    } else {
        s.push(x)
    }
}

/// `s` sorted ascending by `key`, stably.
pub open spec fn sort_by_key<T>(s: Seq<T>, key: spec_fn(T) -> int) -> Seq<T>
    decreases s.len(),
{
    if s.len() == 0 {
        Seq::<T>::empty()
    } else {
        insert_by_key(sort_by_key(s.drop_last(), key), s.last(), key)
    }
}

/// Ascending by `key`.
pub open spec fn sorted_by_key<T>(s: Seq<T>, key: spec_fn(T) -> int) -> bool {
    forall|i: int, j: int| 0 <= i < j < s.len() ==> key(s[i]) <= key(s[j])
}

/// Inserting into a sorted sequence keeps it sorted and adds exactly the
/// new element.
pub proof fn lemma_insert_by_key<T>(s: Seq<T>, x: T, key: spec_fn(T) -> int)
    requires
        sorted_by_key(s, key),
    ensures
        sorted_by_key(insert_by_key(s, x, key), key),
        insert_by_key(s, x, key).to_multiset() == s.to_multiset().insert(x),
        insert_by_key(s, x, key).len() == s.len() + 1,
    decreases s.len(),
{
    broadcast use vstd::seq_lib::group_to_multiset_ensures;

    let r = insert_by_key(s, x, key);
    if s.len() > 0 && key(s.last()) > key(x) {
        let t = s.drop_last();
        assert forall|i: int, j: int| 0 <= i < j < t.len() implies key(t[i]) <= key(t[j]) by {
            assert(t[i] == s[i] && t[j] == s[j]);
        }
        lemma_insert_by_key(t, x, key);
        let q = insert_by_key(t, x, key);
        assert forall|i: int, j: int| 0 <= i < j < r.len() implies key(r[i]) <= key(r[j]) by {
            if j == r.len() - 1 {
                assert(r[j] == s.last());
                assert(r[i] == q[i]);
                assert(q.to_multiset().count(q[i]) > 0);
                assert(q.to_multiset() == t.to_multiset().insert(x));
                if q[i] == x {
                    assert(key(q[i]) <= key(s.last()));
                } else {
                    assert(t.to_multiset().count(q[i]) > 0);
                    assert(t.contains(q[i]));
                    let w = choose|w: int| 0 <= w < t.len() && t[w] == q[i];
                    assert(key(t[w]) <= key(s.last()));
                }
            } else {
                assert(r[i] == q[i] && r[j] == q[j]);
            }
        }
        assert(r.to_multiset() == q.to_multiset().insert(s.last()));
        assert(s.to_multiset() == t.to_multiset().insert(s.last())) by {
            assert(t.push(s.last()) =~= s);
        }
        assert(r.to_multiset() =~= s.to_multiset().insert(x));
    } else {
        assert forall|i: int, j: int| 0 <= i < j < r.len() implies key(r[i]) <= key(r[j]) by {
            if j == r.len() - 1 {
                assert(r[j] == x);
                assert(r[i] == s[i]);
                if s.len() > 0 && i < s.len() - 1 {
                    assert(key(s[i]) <= key(s.last()));
                }
            } else {
                assert(r[i] == s[i] && r[j] == s[j]);
            }
        }
    }
}

/// The sort is ascending and a permutation.
pub proof fn lemma_sort_by_key<T>(s: Seq<T>, key: spec_fn(T) -> int)
    ensures
        sorted_by_key(sort_by_key(s, key), key),
        sort_by_key(s, key).to_multiset() == s.to_multiset(),
        sort_by_key(s, key).len() == s.len(),
    decreases s.len(),
{
    broadcast use vstd::seq_lib::group_to_multiset_ensures;

    if s.len() > 0 {
        let t = s.drop_last();
        lemma_sort_by_key(t, key);
        lemma_insert_by_key(sort_by_key(t, key), s.last(), key);
        assert(t.push(s.last()) =~= s);
        assert(s.to_multiset() == t.to_multiset().insert(s.last()));
    }
}

/// Sorting an already ascending sequence changes nothing: listings whose
/// timestamps already rise keep their exact order.
pub proof fn lemma_sort_by_key_sorted_id<T>(s: Seq<T>, key: spec_fn(T) -> int)
    requires
        sorted_by_key(s, key),
    ensures
        sort_by_key(s, key) == s,
    decreases s.len(),
{
    if s.len() > 0 {
        let t = s.drop_last();
        assert forall|i: int, j: int| 0 <= i < j < t.len() implies key(t[i]) <= key(t[j]) by {
            assert(t[i] == s[i] && t[j] == s[j]);
        }
        lemma_sort_by_key_sorted_id(t, key);
        if t.len() > 0 {
            assert(key(t.last()) <= key(s.last()));
        }
        assert(insert_by_key(t, s.last(), key) == t.push(s.last()));
        assert(t.push(s.last()) =~= s);
    } else {
        assert(sort_by_key(s, key) =~= s);
    }
}

/// Where `insert_by_key` lands: inserting at the position `p` that splits
/// keys not exceeding `x`'s from keys exceeding it.
pub proof fn lemma_insert_by_key_at<T>(s: Seq<T>, x: T, key: spec_fn(T) -> int, p: int)
    requires
        sorted_by_key(s, key),
        0 <= p <= s.len(),
        forall|j: int| 0 <= j < p ==> key(s[j]) <= key(x),
        forall|j: int| p <= j < s.len() ==> key(s[j]) > key(x),
    ensures
        insert_by_key(s, x, key) == s.insert(p, x),
    decreases s.len(),
{
    if s.len() > 0 && key(s.last()) > key(x) {
        let t = s.drop_last();
        assert(p <= t.len());
        assert forall|i: int, j: int| 0 <= i < j < t.len() implies key(t[i]) <= key(t[j]) by {
            assert(t[i] == s[i] && t[j] == s[j]);
        }
        lemma_insert_by_key_at(t, x, key, p);
        assert(insert_by_key(s, x, key) == t.insert(p, x).push(s.last()));
        assert(t.insert(p, x).push(s.last()) =~= s.insert(p, x));
    } else {
        assert(p == s.len());
        assert(s.push(x) =~= s.insert(p, x));
    }
}

} // verus!
