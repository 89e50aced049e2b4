//! Stable ordering of records by year.
//!
//! The engines process their per-year records in ascending year order; records
//! that share a year keep their input order. `stable_order` names that
//! permutation of input indices, and `stable_order_by_year` computes it.

use vstd::prelude::*;

verus! {

/// Position `a` comes before position `b`: smaller key, or equal key and
/// earlier input position.
pub open spec fn key_before(keys: Seq<i32>, a: int, b: int) -> bool {
    keys[a] < keys[b] || (keys[a] == keys[b] && a < b)
}

/// Position `k` occurs somewhere in `o`.
pub open spec fn occurs(o: Seq<int>, k: int) -> bool {
    exists|i: int| 0 <= i < o.len() && #[trigger] o[i] == k
}

/// `o` lists each of the first `n` positions of `keys` once, in stable key order.
pub open spec fn is_stable_prefix_order(keys: Seq<i32>, o: Seq<int>, n: int) -> bool {
    &&& o.len() == n
    &&& forall|i: int| 0 <= i < o.len() ==> 0 <= #[trigger] o[i] < n
    &&& forall|k: int| 0 <= k < n ==> #[trigger] occurs(o, k)
    &&& forall|i: int, j: int|
        0 <= i < j < o.len() ==> key_before(keys, #[trigger] o[i], #[trigger] o[j])
}

/// `o` is the stable ascending order of all positions of `keys`.
pub open spec fn is_stable_order(keys: Seq<i32>, o: Seq<int>) -> bool {
    is_stable_prefix_order(keys, o, keys.len() as int)
}

/// The stable ascending order of the positions of `keys` (unique, see
/// `lemma_stable_order_unique`).
pub open spec fn stable_order(keys: Seq<i32>) -> Seq<int> {
    choose|o: Seq<int>| is_stable_order(keys, o)
}

/// `s` permuted by `o`.
pub open spec fn permute<T>(s: Seq<T>, o: Seq<int>) -> Seq<T> {
    Seq::new(o.len(), |i: int| s[o[i]])
}

/// Two stable orders of the same keys agree at every position.
pub proof fn lemma_stable_order_unique(keys: Seq<i32>, o1: Seq<int>, o2: Seq<int>)
    requires
        is_stable_order(keys, o1),
        is_stable_order(keys, o2),
    ensures
        o1 == o2,
{
    assert forall|i: int| 0 <= i < o1.len() implies o1[i] == o2[i] by {
        lemma_agree_up_to(keys, o1, o2, i);
    }
    assert(o1 =~= o2);
}

proof fn lemma_agree_up_to(keys: Seq<i32>, o1: Seq<int>, o2: Seq<int>, i: int)
    requires
        is_stable_order(keys, o1),
        is_stable_order(keys, o2),
        0 <= i < o1.len(),
    ensures
        forall|j: int| 0 <= j <= i ==> o1[j] == o2[j],
    decreases i,
{
    if i > 0 {
        lemma_agree_up_to(keys, o1, o2, i - 1);
    }
    let n = keys.len() as int;
    let a = o1[i];
    let b = o2[i];
    assert(0 <= a < n);
    assert(0 <= b < n);
    assert(occurs(o2, a));
    assert(occurs(o1, b));
    let j2 = choose|j: int| 0 <= j < o2.len() && #[trigger] o2[j] == a;
    let j1 = choose|j: int| 0 <= j < o1.len() && #[trigger] o1[j] == b;
    if j2 < i {
        assert(o1[j2] == o2[j2]);
        assert(key_before(keys, o1[j2], o1[i]));
        assert(false);
    }
    if j1 < i {
        assert(o2[j1] == o1[j1]);
        assert(key_before(keys, o2[j1], o2[i]));
        assert(false);
    }
    if j2 > i && j1 > i {
        assert(key_before(keys, o2[i], o2[j2]));
        assert(key_before(keys, o1[i], o1[j1]));
        assert(false);
    }
    if j2 == i {
        assert(a == b);
    } else {
        assert(j1 == i);
        assert(a == b);
    }
}

/// Inserting position `n` at `p`, after every position whose key is not
/// greater than its own and before every position whose key is, extends a
/// stable order of the first `n` positions to the first `n + 1`.
pub proof fn lemma_insert_at(keys: Seq<i32>, before: Seq<int>, p: int, n: int)
    requires
        0 <= n < keys.len(),
        is_stable_prefix_order(keys, before, n),
        0 <= p <= before.len(),
        forall|j: int| 0 <= j < p ==> keys[#[trigger] before[j]] <= keys[n],
        forall|j: int| p <= j < before.len() ==> keys[#[trigger] before[j]] > keys[n],
    ensures
        is_stable_prefix_order(keys, before.insert(p, n), n + 1),
{
    let after = before.insert(p, n);
    assert forall|kk: int| 0 <= kk < n + 1 implies #[trigger] occurs(after, kk) by {
        if kk == n {
            assert(after[p] == kk);
        } else {
            assert(occurs(before, kk));
            let m = choose|m: int| 0 <= m < before.len() && #[trigger] before[m] == kk;
            if m < p {
                assert(after[m] == kk);
            } else {
                assert(after[m + 1] == kk);
            }
        }
    }
    assert forall|a: int, b: int| 0 <= a < b < after.len() implies key_before(
        keys,
        #[trigger] after[a],
        #[trigger] after[b],
    ) by {
        if a < p && b < p {
            assert(after[a] == before[a] && after[b] == before[b]);
        } else if a < p && b == p {
            assert(keys[before[a]] <= keys[n]);
        } else if a < p && b > p {
            assert(after[b] == before[b - 1]);
            assert(key_before(keys, before[a], before[b - 1]));
        } else if a == p {
            assert(after[b] == before[b - 1]);
            assert(keys[before[b - 1]] > keys[n]);
        } else {
            assert(after[a] == before[a - 1] && after[b] == before[b - 1]);
            assert(key_before(keys, before[a - 1], before[b - 1]));
        }
    }
}

/// Where insertion places a position with key `k` in `o`: the number of
/// leading positions whose key is not greater than `k`.
pub open spec fn insertion_point(keys: Seq<i32>, o: Seq<int>, k: i32) -> int
    decreases o.len(),
{
    if o.len() == 0 {
        0
    } else if keys[o[0]] > k {
        0
    } else {
        1 + insertion_point(keys, o.drop_first(), k)
    }
}

proof fn lemma_insertion_point(keys: Seq<i32>, o: Seq<int>, k: i32)
    requires
        forall|i: int| 0 <= i < o.len() ==> 0 <= #[trigger] o[i] < keys.len(),
        forall|i: int, j: int| 0 <= i < j < o.len() ==> key_before(keys, #[trigger] o[i], #[trigger] o[j]),
    ensures
        0 <= insertion_point(keys, o, k) <= o.len(),
        forall|j: int| 0 <= j < insertion_point(keys, o, k) ==> keys[#[trigger] o[j]] <= k,
        forall|j: int| insertion_point(keys, o, k) <= j < o.len() ==> keys[#[trigger] o[j]] > k,
    decreases o.len(),
{
    if o.len() > 0 {
        let t = o.drop_first();
        assert forall|i: int, j: int| 0 <= i < j < t.len() implies key_before(keys, #[trigger] t[i], #[trigger] t[j]) by {
            assert(t[i] == o[i + 1] && t[j] == o[j + 1]);
        }
        lemma_insertion_point(keys, t, k);
        if keys[o[0]] > k {
            assert forall|j: int| 0 <= j < o.len() implies keys[#[trigger] o[j]] > k by {
                if j > 0 {
                    assert(key_before(keys, o[0], o[j]));
                }
            }
        } else {
            let p = insertion_point(keys, o, k);
            assert forall|j: int| 0 <= j < p implies keys[#[trigger] o[j]] <= k by {
                if j > 0 {
                    assert(o[j] == t[j - 1]);
                }
            }
            assert forall|j: int| p <= j < o.len() implies keys[#[trigger] o[j]] > k by {
                assert(o[j] == t[j - 1]);
            }
        }
    }
}

/// The stable order of the first `n` positions built by repeated insertion.
pub open spec fn insertion_order(keys: Seq<i32>, n: int) -> Seq<int>
    decreases n,
{
    if n <= 0 {
        Seq::empty()
    } else {
        let o = insertion_order(keys, n - 1);
        o.insert(insertion_point(keys, o, keys[n - 1]), n - 1)
    }
}

proof fn lemma_insertion_order(keys: Seq<i32>, n: int)
    requires
        0 <= n <= keys.len(),
    ensures
        is_stable_prefix_order(keys, insertion_order(keys, n), n),
    decreases n,
{
    if n == 0 {
        assert(is_stable_prefix_order(keys, Seq::<int>::empty(), 0));
    } else {
        lemma_insertion_order(keys, n - 1);
        let o = insertion_order(keys, n - 1);
        lemma_insertion_point(keys, o, keys[n - 1]);
        lemma_insert_at(keys, o, insertion_point(keys, o, keys[n - 1]), n - 1);
    }
}

/// Every sequence of keys has a stable order, and `stable_order` is it.
pub proof fn lemma_stable_order_exists(keys: Seq<i32>)
    ensures
        is_stable_order(keys, stable_order(keys)),
{
    lemma_insertion_order(keys, keys.len() as int);
    assert(is_stable_order(keys, insertion_order(keys, keys.len() as int)));
}

/// Permuting by the stable order of its keys keeps every element, lists
/// the keys in ascending order, and keeps equal keys in their input order.
pub proof fn lemma_sorted_by_stable_order(keys: Seq<i32>)
    ensures
        stable_order(keys).len() == keys.len(),
        forall|k: int| 0 <= k < keys.len() ==> #[trigger] occurs(stable_order(keys), k),
        forall|i: int| 0 <= i < keys.len() ==> 0 <= #[trigger] stable_order(keys)[i] < keys.len(),
        forall|i: int, j: int|
            0 <= i < j < keys.len() ==> keys[#[trigger] stable_order(keys)[i]] <= keys[#[trigger] stable_order(keys)[j]],
        forall|i: int, j: int|
            0 <= i < j < keys.len() && keys[stable_order(keys)[i]] == keys[stable_order(keys)[j]]
                ==> #[trigger] stable_order(keys)[i] < #[trigger] stable_order(keys)[j],
{
    lemma_stable_order_exists(keys);
}

/// `p` lists each position below `n` exactly once.
pub open spec fn is_permutation(p: Seq<int>, n: int) -> bool {
    &&& p.len() == n
    &&& forall|i: int| 0 <= i < n ==> 0 <= #[trigger] p[i] < n
    &&& forall|k: int| 0 <= k < n ==> #[trigger] occurs(p, k)
    &&& forall|i: int, j: int| 0 <= i < j < n ==> #[trigger] p[i] != #[trigger] p[j]
}

/// No key occurs twice.
pub open spec fn distinct_keys(keys: Seq<i32>) -> bool {
    forall|i: int, j: int| 0 <= i < j < keys.len() ==> #[trigger] keys[i] != #[trigger] keys[j]
}

/// With distinct keys, sorting does not depend on the order of its input:
/// sorting a rearrangement of `s1` gives the same sequence as sorting `s1`.
pub proof fn lemma_sort_ignores_input_order<T>(s1: Seq<T>, keys1: Seq<i32>, s2: Seq<T>, keys2: Seq<i32>, p: Seq<int>)
    requires
        s1.len() == keys1.len(),
        distinct_keys(keys1),
        is_permutation(p, s1.len() as int),
        s2 == permute(s1, p),
        keys2 == permute(keys1, p),
    ensures
        permute(s1, stable_order(keys1)) == permute(s2, stable_order(keys2)),
{
    let n = s1.len() as int;
    let o1 = stable_order(keys1);
    let o2 = stable_order(keys2);
    lemma_stable_order_exists(keys1);
    lemma_stable_order_exists(keys2);
    let q = Seq::new(n as nat, |j: int| p[o2[j]]);
    assert forall|k: int| 0 <= k < n implies #[trigger] occurs(q, k) by {
        assert(occurs(p, k));
        let m = choose|m: int| 0 <= m < p.len() && #[trigger] p[m] == k;
        assert(occurs(o2, m));
        let j = choose|j: int| 0 <= j < o2.len() && #[trigger] o2[j] == m;
        assert(q[j] == k);
    }
    assert forall|i: int, j: int| 0 <= i < j < q.len() implies key_before(keys1, #[trigger] q[i], #[trigger] q[j]) by {
        assert(key_before(keys2, o2[i], o2[j]));
        assert(keys2[o2[i]] == keys1[q[i]] && keys2[o2[j]] == keys1[q[j]]);
        if o2[i] < o2[j] {
            assert(p[o2[i]] != p[o2[j]]);
        } else {
            assert(o2[i] != o2[j]);
            assert(p[o2[j]] != p[o2[i]]);
        }
        if q[i] < q[j] {
            assert(keys1[q[i]] != keys1[q[j]]);
        } else {
            assert(keys1[q[j]] != keys1[q[i]]);
        }
    }
    assert(is_stable_order(keys1, q));
    lemma_stable_order_unique(keys1, q, o1);
    assert(permute(s1, o1) =~= permute(s2, o2));
}

/// The stable ascending order of the positions of `keys`, computed by
/// insertion: each position is placed after every earlier position whose key
/// is not greater than its own.
pub fn stable_order_by_year(keys: &Vec<i32>) -> (o: Vec<usize>)
    ensures
        is_stable_order(keys@, o@.map_values(|x: usize| x as int)),
        o@.map_values(|x: usize| x as int) == stable_order(keys@),
{
    let n = keys.len();
    let mut o: Vec<usize> = Vec::new();
    let mut i: usize = 0;
    while i < n
        invariant
            n == keys.len(),
            i <= n,
            is_stable_prefix_order(keys@, o@.map_values(|x: usize| x as int), i as int),
        decreases n - i,
    {
        let ghost before = o@.map_values(|x: usize| x as int);
        let k = keys[i];
        let mut p: usize = 0;
        while p < o.len() && keys[o[p]] <= k
            invariant
                n == keys.len(),
                i < n,
                p <= o.len(),
                o@.map_values(|x: usize| x as int) == before,
                is_stable_prefix_order(keys@, before, i as int),
                k == keys@[i as int],
                forall|j: int| 0 <= j < o.len() ==> (#[trigger] o@[j] as int) == before[j] && before[j] < i,
                forall|j: int| 0 <= j < p ==> keys@[#[trigger] before[j]] <= k,
            decreases o.len() - p,
        {
            p = p + 1;
        }
        proof {
            // every position from p on has a key greater than k
            assert forall|j: int| p <= j < before.len() implies keys@[#[trigger] before[j]] > k by {
                if j > p {
                    assert(key_before(keys@, before[p as int], before[j]));
                }
            }
            lemma_insert_at(keys@, before, p as int, i as int);
        }
        o.insert(p, i);
        proof {
            assert(o@.map_values(|x: usize| x as int) =~= before.insert(p as int, i as int));
        }
        i = i + 1;
    }
    proof {
        let r = o@.map_values(|x: usize| x as int);
        lemma_stable_order_unique(keys@, r, stable_order(keys@));
    }
    o
}

} // verus!
