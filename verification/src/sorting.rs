//! Stable orderings of indices by integer keys.
//!
//! A stable order of `n` indices by keys `k` is the one sequence in which every
//! index of `0..n` occurs, ordered by `(k[i], i)`: ascending keys, and indices
//! with equal keys in the order they were given. `lemma_stable_order_unique` shows
//! that there is only one such sequence, which is what lets a caller relate a
//! sort to the argsort computed before it.

use vstd::prelude::*;

verus! {

/// Index `i` comes before index `j` when ordering stably by `keys`.
pub open spec fn stable_before(keys: Seq<i64>, i: int, j: int) -> bool {
    keys[i] < keys[j] || (keys[i] == keys[j] && i < j)
}

/// `r` lists every index of `keys` exactly once, in stable key order.
pub open spec fn is_stable_order(r: Seq<usize>, keys: Seq<i64>) -> bool {
    &&& r.len() == keys.len()
    &&& forall|k: int| 0 <= k < r.len() ==> #[trigger] r[k] < keys.len()
    &&& forall|v: usize| v < keys.len() ==> #[trigger] r.contains(v)
    &&& forall|a: int, b: int|
        0 <= a < b < r.len() ==> #[trigger] stable_before(keys, r[a] as int, r[b] as int)
}

/// The stable order of the indices of `keys`.
pub open spec fn spec_stable_order(keys: Seq<i64>) -> Seq<usize> {
    choose|r: Seq<usize>| is_stable_order(r, keys)
}

/// The key that the closure `f` gives for `x`.
pub open spec fn key_of<T, F: Fn(&T) -> i64>(f: F, x: &T) -> i64 {
    choose|k: i64| call_ensures(f, (x,), k)
}

/// `f` gives at most one key for each item of `data`.
pub open spec fn is_deterministic_on<T, F: Fn(&T) -> i64>(f: F, data: Seq<T>) -> bool {
    forall|i: int, k1: i64, k2: i64|
        0 <= i < data.len() && #[trigger] call_ensures(f, (&data[i],), k1) && #[trigger] call_ensures(
            f,
            (&data[i],),
            k2,
        ) ==> k1 == k2
}

/// The keys that `f` gives for the items of `data`.
pub open spec fn keys_of<T, F: Fn(&T) -> i64>(data: Seq<T>, f: F) -> Seq<i64> {
    Seq::new(data.len(), |i: int| key_of(f, &data[i]))
}

/// Applying the order `r` to `items`: item `r[k]` goes to position `k`.
pub open spec fn permuted<A>(items: Seq<A>, r: Seq<usize>) -> Seq<A> {
    Seq::new(r.len(), |k: int| items[r[k] as int])
}

/// There is exactly one stable order of any sequence of keys, and
/// `spec_stable_order` is it.
pub proof fn lemma_stable_order_unique(keys: Seq<i64>, r: Seq<usize>)
    requires
        is_stable_order(r, keys),
    ensures
        spec_stable_order(keys) == r,
{
    let s = spec_stable_order(keys);
    assert(is_stable_order(s, keys));
    lemma_stable_orders_agree(keys, r, s);
}

/// A stable order exists for every sequence of keys.
pub proof fn lemma_stable_order_exists(keys: Seq<i64>)
    requires
        keys.len() <= usize::MAX,
    ensures
        is_stable_order(spec_stable_order(keys), keys),
{
    let r = stable_order_witness(keys, keys.len() as int);
    assert(is_stable_order(r, keys));
}

/// The stable order of the first `i` keys, built by insertion.
proof fn stable_order_witness(keys: Seq<i64>, i: int) -> (r: Seq<usize>)
    requires
        0 <= i <= keys.len(),
        keys.len() <= usize::MAX,
    ensures
        r.len() == i,
        forall|k: int| 0 <= k < r.len() ==> #[trigger] r[k] < i,
        forall|v: usize| v < i ==> #[trigger] r.contains(v),
        forall|a: int, b: int|
            0 <= a < b < r.len() ==> #[trigger] stable_before(keys, r[a] as int, r[b] as int),
    decreases i,
{
    if i == 0 {
        Seq::empty()
    } else {
        let prev = stable_order_witness(keys, i - 1);
        let p = insertion_point(keys, prev, i - 1);
        let r = prev.insert(p, (i - 1) as usize);
        lemma_insert_keeps_order(keys, prev, i - 1, p);
        r
    }
}

/// The number of leading entries of `r` whose key is at most `keys[x]`.
spec fn insertion_point(keys: Seq<i64>, r: Seq<usize>, x: int) -> int
    decreases r.len(),
{
    if r.len() == 0 {
        0
    } else if keys[r.last() as int] <= keys[x] {
        r.len() as int
    } else {
        insertion_point(keys, r.drop_last(), x)
    }
}

/// Inserting index `x`, larger than every index in the stable order `r` of
/// `0..x`, at the position after the last entry with key at most `keys[x]`
/// gives the stable order of `0..x + 1`.
proof fn lemma_insert_keeps_order(keys: Seq<i64>, r: Seq<usize>, x: int, p: int)
    requires
        0 <= x < keys.len(),
        keys.len() <= usize::MAX,
        r.len() == x,
        forall|k: int| 0 <= k < r.len() ==> #[trigger] r[k] < x,
        forall|v: usize| v < x ==> #[trigger] r.contains(v),
        forall|a: int, b: int|
            0 <= a < b < r.len() ==> #[trigger] stable_before(keys, r[a] as int, r[b] as int),
        p == insertion_point(keys, r, x),
    ensures
        0 <= p <= r.len(),
        ({
            let s = r.insert(p, x as usize);
            &&& forall|k: int| 0 <= k < s.len() ==> #[trigger] s[k] < x + 1
            &&& forall|v: usize| v < x + 1 ==> #[trigger] s.contains(v)
            &&& forall|a: int, b: int|
                0 <= a < b < s.len() ==> #[trigger] stable_before(keys, s[a] as int, s[b] as int)
        }),
{
    lemma_insertion_point(keys, r, x);
    let s = r.insert(p, x as usize);
    assert forall|v: usize| v < x + 1 implies #[trigger] s.contains(v) by {
        if v as int == x {
            assert(s[p] == v);
        } else {
            assert(r.contains(v));
            let j = choose|j: int| 0 <= j < r.len() && r[j] == v;
            if j < p {
                assert(s[j] == v);
            } else {
                assert(s[j + 1] == v);
            }
        }
    }
    assert forall|a: int, b: int| 0 <= a < b < s.len() implies #[trigger] stable_before(
        keys,
        s[a] as int,
        s[b] as int,
    ) by {
        if b < p {
            assert(stable_before(keys, r[a] as int, r[b] as int));
        } else if b == p {
            assert(keys[r[a] as int] <= keys[x]);
        } else if a < p {
            assert(keys[r[a] as int] <= keys[x]);
            assert(keys[x] < keys[r[b - 1] as int]);
        } else if a == p {
            assert(keys[x] < keys[r[b - 1] as int]);
        } else {
            assert(stable_before(keys, r[a - 1] as int, r[b - 1] as int));
        }
    }
}

/// Entries before the insertion point have keys at most `keys[x]`; entries
/// from it on have larger keys.
proof fn lemma_insertion_point(keys: Seq<i64>, r: Seq<usize>, x: int)
    requires
        0 <= x < keys.len(),
        forall|k: int| 0 <= k < r.len() ==> #[trigger] r[k] < keys.len(),
        forall|a: int, b: int|
            0 <= a < b < r.len() ==> #[trigger] stable_before(keys, r[a] as int, r[b] as int),
    ensures
        0 <= insertion_point(keys, r, x) <= r.len(),
        forall|k: int|
            0 <= k < insertion_point(keys, r, x) ==> keys[#[trigger] r[k] as int] <= keys[x],
        forall|k: int|
            insertion_point(keys, r, x) <= k < r.len() ==> keys[x] < keys[#[trigger] r[k] as int],
    decreases r.len(),
{
    if r.len() > 0 {
        let last = r.len() - 1;
        if keys[r[last] as int] <= keys[x] {
            assert forall|k: int| 0 <= k < r.len() implies keys[#[trigger] r[k] as int]
                <= keys[x] by {
                if k < last {
                    assert(stable_before(keys, r[k] as int, r[last] as int));
                }
            }
        } else {
            let d = r.drop_last();
            lemma_insertion_point(keys, d, x);
            assert forall|k: int|
                insertion_point(keys, r, x) <= k < r.len() implies keys[x] < keys[#[trigger] r[
                k] as int] by {
                if k < last {
                    assert(d[k] == r[k]);
                }
            }
            assert forall|k: int|
                0 <= k < insertion_point(keys, r, x) implies keys[#[trigger] r[k] as int]
                <= keys[x] by {
                assert(d[k] == r[k]);
            }
        }
    }
}

/// Two stable orders of the same keys are equal.
proof fn lemma_stable_orders_agree(keys: Seq<i64>, r: Seq<usize>, s: Seq<usize>)
    requires
        is_stable_order(r, keys),
        is_stable_order(s, keys),
    ensures
        r == s,
{
    assert forall|k: int| 0 <= k < r.len() implies r[k] == s[k] by {
        lemma_stable_orders_agree_at(keys, r, s, k);
    }
    assert(r =~= s);
}

/// Two stable orders of the same keys agree at position `k`, by induction on `k`.
proof fn lemma_stable_orders_agree_at(keys: Seq<i64>, r: Seq<usize>, s: Seq<usize>, k: int)
    requires
        is_stable_order(r, keys),
        is_stable_order(s, keys),
        0 <= k < r.len(),
    ensures
        r[k] == s[k],
    decreases k,
{
    assert forall|j: int| 0 <= j < k implies r[j] == s[j] by {
        lemma_stable_orders_agree_at(keys, r, s, j);
    }
    if r[k] != s[k] {
        let x = r[k];
        let y = s[k];
        assert(r[k] < keys.len());
        assert(s[k] < keys.len());
        assert(s.contains(x));
        assert(r.contains(y));
        let m = choose|m: int| 0 <= m < s.len() && s[m] == x;
        let n = choose|n: int| 0 <= n < r.len() && r[n] == y;
        if stable_before(keys, x as int, y as int) {
            // x sits at m in s; m < k would repeat an entry shared with r, m > k
            // would put x after y.
            if m < k {
                assert(r[m] == s[m]);
                assert(stable_before(keys, r[m] as int, r[k] as int));
            } else {
                assert(m != k);
                assert(stable_before(keys, s[k] as int, s[m] as int));
            }
        } else {
            assert(stable_before(keys, y as int, x as int));
            if n < k {
                assert(r[n] == s[n]);
                assert(stable_before(keys, s[n] as int, s[k] as int));
            } else {
                assert(n != k);
                assert(stable_before(keys, r[k] as int, r[n] as int));
            }
        }
    }
}

/// The stable order of the indices of `keys`.
pub fn stable_order(keys: &Vec<i64>) -> (r: Vec<usize>)
    ensures
        is_stable_order(r@, keys@),
        r@ == spec_stable_order(keys@),
{
    let n = keys.len();
    let mut r: Vec<usize> = Vec::new();
    for i in 0..n
        invariant
            n == keys.len(),
            r.len() == i,
            forall|k: int| 0 <= k < r.len() ==> #[trigger] r[k] < i,
            forall|v: usize| v < i ==> #[trigger] r@.contains(v),
            forall|a: int, b: int|
                0 <= a < b < r.len() ==> #[trigger] stable_before(
                    keys@,
                    r[a] as int,
                    r[b] as int,
                ),
    {
        let ghost old_r = r@;
        let mut p: usize = 0;
        while p < r.len() && keys[r[p]] <= keys[i]
            invariant
                n == keys.len(),
                i < n,
                r@ == old_r,
                r.len() == i,
                p <= r.len(),
                forall|k: int| 0 <= k < r.len() ==> #[trigger] r[k] < i,
                forall|q: int| 0 <= q < p ==> keys[#[trigger] r[q] as int] <= keys[i as int],
            decreases r.len() - p,
        {
            p += 1;
        }
        proof {
            lemma_insertion_point(keys@, r@, i as int);
            lemma_scan_finds_insertion_point(keys@, r@, i as int, p as int);
            lemma_insert_keeps_order(keys@, r@, i as int, p as int);
        }
        r.insert(p, i);
    }
    proof {
        lemma_stable_order_unique(keys@, r@);
    }
    r
}

/// A left-to-right scan that stops at the first entry with a key above
/// `keys[x]` stops at the insertion point.
proof fn lemma_scan_finds_insertion_point(keys: Seq<i64>, r: Seq<usize>, x: int, p: int)
    requires
        0 <= x < keys.len(),
        0 <= p <= r.len(),
        forall|k: int| 0 <= k < r.len() ==> #[trigger] r[k] < keys.len(),
        forall|q: int| 0 <= q < p ==> keys[#[trigger] r[q] as int] <= keys[x],
        p == r.len() || keys[x] < keys[r[p] as int],
        0 <= insertion_point(keys, r, x) <= r.len(),
        forall|k: int|
            0 <= k < insertion_point(keys, r, x) ==> keys[#[trigger] r[k] as int] <= keys[x],
        forall|k: int|
            insertion_point(keys, r, x) <= k < r.len() ==> keys[x] < keys[#[trigger] r[k] as int],
    ensures
        p == insertion_point(keys, r, x),
{
    let ip = insertion_point(keys, r, x);
    if p < ip {
        assert(keys[r[p] as int] <= keys[x]);
    } else if p > ip {
        assert(keys[x] < keys[r[ip] as int]);
    }
}

/// The indices of `data`, ordered stably by the key that `f` gives each item.
///
/// Each key is computed once; items with equal keys keep their relative order.
pub fn argsort_by_key<T, F: Fn(&T) -> i64>(data: &[T], f: F) -> (r: Vec<usize>)
    requires
        forall|i: int| 0 <= i < data@.len() ==> call_requires(f, (&data@[i],)),
        is_deterministic_on(f, data@),
    ensures
        is_stable_order(r@, keys_of(data@, f)),
        r@ == spec_stable_order(keys_of(data@, f)),
        forall|i: int|
            0 <= i < data@.len() ==> call_ensures(f, (&data@[i],), #[trigger] keys_of(data@, f)[i]),
{
    let mut keys: Vec<i64> = Vec::new();
    let n = data.len();
    for i in 0..n
        invariant
            n == data@.len(),
            keys.len() == i,
            forall|j: int| 0 <= j < n ==> call_requires(f, (&data@[j],)),
            is_deterministic_on(f, data@),
            forall|j: int| 0 <= j < i ==> #[trigger] keys@[j] == key_of(f, &data@[j]),
            forall|j: int| 0 <= j < i ==> call_ensures(f, (&data@[j],), #[trigger] keys@[j]),
    {
        let k = f(&data[i]);
        proof {
            assert(call_ensures(f, (&data@[i as int],), k));
            let c = key_of(f, &data@[i as int]);
            assert(call_ensures(f, (&data@[i as int],), c));
        }
        keys.push(k);
    }
    assert(keys@ =~= keys_of(data@, f));
    assert forall|i: int| 0 <= i < data@.len() implies call_ensures(
        f,
        (&data@[i],),
        #[trigger] keys_of(data@, f)[i],
    ) by {
        assert(keys@[i] == keys_of(data@, f)[i]);
    }
    stable_order(&keys)
}

} // verus!
