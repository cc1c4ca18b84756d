use vstd::prelude::*;
use crate::strmap::{lemma_lex_asymmetric, lemma_lex_irreflexive, lemma_lex_total, lemma_lex_transitive, lex_less, lex_lt};

verus! {

// ---------------------------------------------------------------------------
// Stable sorting by a string key (`sort_by(|a, b| key(a).cmp(&key(b)))`).
// ---------------------------------------------------------------------------

/// `lt` is a strict weak order: irreflexive, transitive, and with transitive
/// incomparability (`!lt(a, b)` and `!lt(b, c)` give `!lt(a, c)`).
pub open spec fn strict_weak_order<K>(lt: spec_fn(K, K) -> bool) -> bool {
    &&& forall|a: K| !(#[trigger] lt(a, a))
    &&& forall|a: K, b: K, c: K| #[trigger] lt(a, b) && #[trigger] lt(b, c) ==> lt(a, c)
    &&& forall|a: K, b: K, c: K| !(#[trigger] lt(a, b)) && !(#[trigger] lt(b, c)) ==> !lt(a, c)
}

/// Where key `k` goes in `t` (positions into `keys`): after every element whose key is
/// not above `k`, scanning from the back.
pub open spec fn insert_pos_by<K>(t: Seq<int>, keys: Seq<K>, k: K, lt: spec_fn(K, K) -> bool) -> int
    decreases t.len(),
{
    if t.len() == 0 {
        0
    } else if lt(k, keys[t.last()]) {
        insert_pos_by(t.drop_last(), keys, k, lt)
    } else {
        t.len() as int
    }
}

/// The positions `0..n` of `keys` in stably sorted order, by insertion.
pub open spec fn sort_order_upto_by<K>(keys: Seq<K>, n: nat, lt: spec_fn(K, K) -> bool) -> Seq<int>
    decreases n,
{
    if n == 0 {
        Seq::empty()
    } else {
        let t = sort_order_upto_by(keys, (n - 1) as nat, lt);
        t.insert(insert_pos_by(t, keys, keys[n - 1], lt), n - 1)
    }
}

/// The positions of `keys` in stably sorted order under `lt`
/// (`sort_by(|a, b| ...)` with `a` before `b` when `lt(a, b)`).
pub open spec fn sort_order_by<K>(keys: Seq<K>, lt: spec_fn(K, K) -> bool) -> Seq<int> {
    sort_order_upto_by(keys, keys.len(), lt)
}

/// Lexicographic order on strings, as a strict weak order.
pub open spec fn lex_order() -> spec_fn(Seq<char>, Seq<char>) -> bool {
    |a: Seq<char>, b: Seq<char>| lex_lt(a, b)
}

/// The positions of string `keys` in stably sorted order.
pub open spec fn sort_order(keys: Seq<Seq<char>>) -> Seq<int> {
    sort_order_by(keys, lex_order())
}

/// `o` holds each of `0..n` exactly once.
pub open spec fn is_permutation(o: Seq<int>, n: nat) -> bool {
    &&& o.len() == n
    &&& forall|i: int| 0 <= i < o.len() ==> 0 <= #[trigger] o[i] < n
    &&& forall|i: int, j: int| 0 <= i < j < o.len() ==> #[trigger] o[i] != #[trigger] o[j]
}

/// The keys along `o` never go down.
pub open spec fn is_sorted_by<K>(o: Seq<int>, keys: Seq<K>, lt: spec_fn(K, K) -> bool) -> bool {
    forall|i: int, j: int| 0 <= i < j < o.len() ==> !lt(#[trigger] keys[o[j]], #[trigger] keys[o[i]])
}

/// Keys that neither order before the other keep their input order along `o`.
pub open spec fn is_stable_by<K>(o: Seq<int>, keys: Seq<K>, lt: spec_fn(K, K) -> bool) -> bool {
    forall|i: int, j: int|
        0 <= i < j < o.len() && !lt(#[trigger] keys[o[i]], #[trigger] keys[o[j]]) && !lt(keys[o[j]], keys[o[i]])
            ==> o[i] < o[j]
}

/// `items` taken in the order `o`.
pub open spec fn reorder<T>(items: Seq<T>, o: Seq<int>) -> Seq<T> {
    o.map_values(|i: int| items[i])
}

proof fn lemma_insert_pos<K>(t: Seq<int>, keys: Seq<K>, k: K, lt: spec_fn(K, K) -> bool)
    ensures
        0 <= insert_pos_by(t, keys, k, lt) <= t.len(),
        forall|j: int| insert_pos_by(t, keys, k, lt) <= j < t.len() ==> lt(k, #[trigger] keys[t[j]]),
        insert_pos_by(t, keys, k, lt) > 0 ==> !lt(k, keys[t[insert_pos_by(t, keys, k, lt) - 1]]),
    decreases t.len(),
{
    if t.len() > 0 && lt(k, keys[t.last()]) {
        lemma_insert_pos(t.drop_last(), keys, k, lt);
        let p = insert_pos_by(t, keys, k, lt);
        assert forall|j: int| p <= j < t.len() implies lt(k, #[trigger] keys[t[j]]) by {
            if j < t.len() - 1 {
                assert(t[j] == t.drop_last()[j]);
            }
        }
        if p > 0 {
            assert(t[p - 1] == t.drop_last()[p - 1]);
        }
    }
}

/// Sorting by insertion gives a permutation, sorted by key, that keeps equivalent keys in
/// their input order.
pub proof fn lemma_sort_order_upto_by<K>(keys: Seq<K>, n: nat, lt: spec_fn(K, K) -> bool)
    requires
        n <= keys.len(),
        strict_weak_order(lt),
    ensures
        is_permutation(sort_order_upto_by(keys, n, lt), n),
        is_sorted_by(sort_order_upto_by(keys, n, lt), keys, lt),
        is_stable_by(sort_order_upto_by(keys, n, lt), keys, lt),
    decreases n,
{
    if n > 0 {
        let t = sort_order_upto_by(keys, (n - 1) as nat, lt);
        lemma_sort_order_upto_by(keys, (n - 1) as nat, lt);
        let k = keys[n - 1];
        let p = insert_pos_by(t, keys, k, lt);
        lemma_insert_pos(t, keys, k, lt);
        let o = t.insert(p, n - 1);
        assert(o == sort_order_upto_by(keys, n, lt));
        assert forall|j: int| 0 <= j < p implies !lt(k, #[trigger] keys[t[j]]) by {
            let q = keys[t[p - 1]];
            if j < p - 1 {
                assert(!lt(q, keys[t[j]]));
                assert(!lt(k, q));
            }
        }
        assert forall|i: int| 0 <= i < o.len() implies 0 <= #[trigger] o[i] < n by {
            if i < p {
                assert(o[i] == t[i]);
            } else if i > p {
                assert(o[i] == t[i - 1]);
            }
        }
        assert forall|i: int, j: int| 0 <= i < j < o.len() implies #[trigger] o[i] != #[trigger] o[j] by {
            if i < p {
                assert(o[i] == t[i]);
            } else if i > p {
                assert(o[i] == t[i - 1]);
            }
            if j < p {
                assert(o[j] == t[j]);
            } else if j > p {
                assert(o[j] == t[j - 1]);
            }
        }
        assert forall|i: int, j: int| 0 <= i < j < o.len() implies !lt(#[trigger] keys[o[j]], #[trigger] keys[o[i]]) by {
            if i < p {
                assert(o[i] == t[i]);
            } else if i > p {
                assert(o[i] == t[i - 1]);
            }
            if j < p {
                assert(o[j] == t[j]);
            } else if j > p {
                assert(o[j] == t[j - 1]);
                if i == p {
                    assert(lt(k, keys[t[j - 1]]));
                    if lt(keys[t[j - 1]], k) {
                        assert(lt(k, k));
                    }
                }
            } else {
                assert(o[j] == n - 1);
            }
        }
        assert forall|i: int, j: int|
            0 <= i < j < o.len() && !lt(#[trigger] keys[o[i]], #[trigger] keys[o[j]]) && !lt(keys[o[j]], keys[o[i]])
            implies o[i] < o[j] by {
            if i < p {
                assert(o[i] == t[i]);
            } else if i > p {
                assert(o[i] == t[i - 1]);
            }
            if j < p {
                assert(o[j] == t[j]);
            } else if j > p {
                assert(o[j] == t[j - 1]);
                if i == p {
                    assert(lt(k, keys[t[j - 1]]));
                }
            }
        }
    }
}

/// Sorting by `lt` gives a permutation of the positions, sorted by key and stable.
pub proof fn lemma_sort_order_by<K>(keys: Seq<K>, lt: spec_fn(K, K) -> bool)
    requires
        strict_weak_order(lt),
    ensures
        is_permutation(sort_order_by(keys, lt), keys.len()),
        is_sorted_by(sort_order_by(keys, lt), keys, lt),
        is_stable_by(sort_order_by(keys, lt), keys, lt),
{
    lemma_sort_order_upto_by(keys, keys.len(), lt);
}

/// Lexicographic order is a strict weak order.
pub proof fn lemma_lex_order()
    ensures
        strict_weak_order(lex_order()),
{
    let lt = lex_order();
    assert forall|a: Seq<char>| !(#[trigger] lt(a, a)) by {
        lemma_lex_irreflexive(a);
    }
    assert forall|a: Seq<char>, b: Seq<char>, c: Seq<char>| #[trigger] lt(a, b) && #[trigger] lt(b, c) implies lt(a, c) by {
        lemma_lex_transitive(a, b, c);
    }
    assert forall|a: Seq<char>, b: Seq<char>, c: Seq<char>| !(#[trigger] lt(a, b)) && !(#[trigger] lt(b, c)) implies !lt(a, c) by {
        if lt(a, c) {
            lemma_lex_total(a, b);
            lemma_lex_total(b, c);
            if a == b {
            } else if lex_lt(b, a) {
                if b == c {
                } else {
                    lemma_lex_transitive(b, a, c);
                    lemma_lex_asymmetric(c, b);
                }
            }
        }
    }
}

/// Sorting strings gives a permutation of the positions, sorted and stable.
pub proof fn lemma_sort_order(keys: Seq<Seq<char>>)
    ensures
        is_permutation(sort_order(keys), keys.len()),
        is_sorted_by(sort_order(keys), keys, lex_order()),
        is_stable_by(sort_order(keys), keys, lex_order()),
{
    lemma_lex_order();
    lemma_sort_order_by(keys, lex_order());
}

/// The views of a list of keys.
pub open spec fn keys_view(keys: Seq<Vec<char>>) -> Seq<Seq<char>> {
    keys.map_values(|k: Vec<char>| k@)
}

/// The order as integers.
pub open spec fn order_view(o: Seq<usize>) -> Seq<int> {
    o.map_values(|i: usize| i as int)
}

/// The positions of `keys` in stably sorted order.
pub fn stable_order(keys: &[Vec<char>]) -> (order: Vec<usize>)
    ensures
        order_view(order@) == sort_order(keys_view(keys@)),
{
    let ghost kv = keys_view(keys@);
    let mut order: Vec<usize> = Vec::new();
    let mut i: usize = 0;
    while i < keys.len()
        invariant
            i <= keys@.len(),
            kv == keys_view(keys@),
            order_view(order@) == sort_order_upto_by(kv, i as nat, lex_order()),
        decreases keys.len() - i,
    {
        let ghost t = order_view(order@);
        proof {
            lemma_lex_order();
            lemma_sort_order_upto_by(kv, i as nat, lex_order());
        }
        let mut p = order.len();
        proof {
            assert(t.take(p as int) =~= t);
        }
        while p > 0 && lex_less(keys[i].as_slice(), keys[order[p - 1]].as_slice())
            invariant
                p <= order@.len(),
                t == order_view(order@),
                i < keys@.len(),
                kv == keys_view(keys@),
                is_permutation(t, i as nat),
                insert_pos_by(t, kv, kv[i as int], lex_order()) == insert_pos_by(t.take(p as int), kv, kv[i as int], lex_order()),
            decreases p,
        {
            proof {
                assert(t.take(p as int).drop_last() =~= t.take(p - 1));
                assert(t.take(p as int).last() == order@[p - 1] as int);
            }
            p -= 1;
        }
        proof {
            if p > 0 {
                assert(t.take(p as int).last() == order@[p - 1] as int);
            }
        }
        order.insert(p, i);
        proof {
            assert(order_view(order@) =~= t.insert(p as int, i as int));
        }
        i += 1;
    }
    proof {
        assert(kv.len() == keys@.len());
    }
    order
}

/// The views of a sequence.
pub open spec fn views_of<K: View>(s: Seq<K>) -> Seq<K::V> {
    s.map_values(|k: K| k@)
}

/// The positions of `keys` in stably sorted order under `lt`, which `less` decides.
pub fn stable_order_with<K: View, F: Fn(&K, &K) -> bool>(
    keys: &[K],
    less: &F,
    Ghost(lt): Ghost<spec_fn(K::V, K::V) -> bool>,
) -> (order: Vec<usize>)
    requires
        forall|a: &K, b: &K| #[trigger] less.requires((a, b)),
        forall|a: &K, b: &K, r: bool| less.ensures((a, b), r) ==> r == lt(a@, b@),
        strict_weak_order(lt),
    ensures
        order_view(order@) == sort_order_by(views_of(keys@), lt),
{
    let ghost kv = views_of(keys@);
    let mut order: Vec<usize> = Vec::new();
    let mut i: usize = 0;
    while i < keys.len()
        invariant
            i <= keys@.len(),
            kv == views_of(keys@),
            forall|a: &K, b: &K| #[trigger] less.requires((a, b)),
            forall|a: &K, b: &K, r: bool| less.ensures((a, b), r) ==> r == lt(a@, b@),
            strict_weak_order(lt),
            order_view(order@) == sort_order_upto_by(kv, i as nat, lt),
        decreases keys.len() - i,
    {
        let ghost t = order_view(order@);
        proof {
            lemma_sort_order_upto_by(kv, i as nat, lt);
        }
        let mut p = order.len();
        proof {
            assert(t.take(p as int) =~= t);
        }
        loop
            invariant
                p <= order@.len(),
                t == order_view(order@),
                i < keys@.len(),
                kv == views_of(keys@),
                forall|a: &K, b: &K| #[trigger] less.requires((a, b)),
                forall|a: &K, b: &K, r: bool| less.ensures((a, b), r) ==> r == lt(a@, b@),
                is_permutation(t, i as nat),
                insert_pos_by(t, kv, kv[i as int], lt) == insert_pos_by(t.take(p as int), kv, kv[i as int], lt),
            ensures
                p <= order@.len(),
                insert_pos_by(t, kv, kv[i as int], lt) == insert_pos_by(t.take(p as int), kv, kv[i as int], lt),
                p == 0 || !lt(kv[i as int], kv[t[p - 1]]),
            decreases p,
        {
            if p == 0 {
                break;
            }
            let before = less(&keys[i], &keys[order[p - 1]]);
            proof {
                assert(t[p - 1] == order@[p - 1] as int);
            }
            if !before {
                break;
            }
            proof {
                assert(t.take(p as int).drop_last() =~= t.take(p - 1));
                assert(t.take(p as int).last() == order@[p - 1] as int);
            }
            p -= 1;
        }
        proof {
            if p > 0 {
                assert(t.take(p as int).last() == order@[p - 1] as int);
            }
        }
        order.insert(p, i);
        proof {
            assert(order_view(order@) =~= t.insert(p as int, i as int));
        }
        i += 1;
    }
    order
}

/// `items` taken in the order `order`, which holds each position once.
pub fn permute<T>(items: Vec<T>, order: &[usize]) -> (r: Vec<T>)
    requires
        is_permutation(order_view(order@), items@.len()),
    ensures
        r@ == reorder(items@, order_view(order@)),
{
    let ghost orig = items@;
    let ghost ov = order_view(order@);
    let n = items.len();
    let mut src = items;
    let mut slots: Vec<Option<T>> = Vec::new();
    while src.len() > 0
        invariant
            n == orig.len(),
            src@ == orig.take(src@.len() as int),
            slots@.len() + src@.len() == n,
            forall|j: int| 0 <= j < slots@.len() ==> #[trigger] slots@[j] == Some(orig[n - 1 - j]),
        decreases src.len(),
    {
        let x = src.pop().unwrap();
        slots.push(Some(x));
        proof {
            assert(src@ =~= orig.take(src@.len() as int));
        }
    }
    let mut r: Vec<T> = Vec::new();
    let mut k: usize = 0;
    while k < order.len()
        invariant
            n == orig.len(),
            slots@.len() == n,
            ov == order_view(order@),
            is_permutation(ov, n as nat),
            k <= order@.len(),
            r@.len() == k,
            forall|j: int| 0 <= j < k ==> #[trigger] r@[j] == orig[ov[j]],
            forall|j: int|
                0 <= j < n ==> (#[trigger] slots@[j] == Some(orig[n - 1 - j]) || exists|m: int|
                    0 <= m < k && ov[m] == n - 1 - j),
            forall|m: int| 0 <= m < k ==> #[trigger] slots@[n - 1 - ov[m]] is None,
        decreases order.len() - k,
    {
        let idx = order[k];
        proof {
            assert(ov[k as int] == idx as int);
        }
        let pos = n - 1 - idx;
        let mut tmp: Option<T> = None;
        proof {
            let j = pos as int;
            if slots@[j] != Some(orig[n - 1 - j]) {
                let m = choose|m: int| 0 <= m < k && ov[m] == n - 1 - j;
                assert(ov[m] == ov[k as int]);
            }
        }
        slots.set_and_swap(pos, &mut tmp);
        let x = tmp.unwrap();
        r.push(x);
        proof {
            assert forall|j: int|
                0 <= j < n implies (#[trigger] slots@[j] == Some(orig[n - 1 - j]) || exists|m: int|
                    0 <= m < k + 1 && ov[m] == n - 1 - j) by {
                if j == pos {
                    assert(ov[k as int] == n - 1 - j);
                } else {
                    if slots@[j] != Some(orig[n - 1 - j]) {
                        let m = choose|m: int| 0 <= m < k && ov[m] == n - 1 - j;
                        assert(0 <= m < k + 1 && ov[m] == n - 1 - j);
                    }
                }
            }
            assert forall|m: int| 0 <= m < k + 1 implies #[trigger] slots@[n - 1 - ov[m]] is None by {
                if m < k {
                    assert(ov[m] != ov[k as int]);
                }
            }
        }
        k += 1;
    }
    proof {
        assert(r@ =~= reorder(orig, ov));
    }
    r
}

/// `items` stably sorted by `keys` (one key per item).
pub fn sort_by_keys<T>(items: Vec<T>, keys: &[Vec<char>]) -> (r: Vec<T>)
    requires
        keys@.len() == items@.len(),
    ensures
        r@ == reorder(items@, sort_order(keys_view(keys@))),
{
    let order = stable_order(keys);
    proof {
        lemma_sort_order(keys_view(keys@));
    }
    permute(items, order.as_slice())
}

/// `items` stably sorted by `keys` (one key per item) under `lt`, which `less` decides.
pub fn sort_by_keys_with<T, K: View, F: Fn(&K, &K) -> bool>(
    items: Vec<T>,
    keys: &[K],
    less: &F,
    Ghost(lt): Ghost<spec_fn(K::V, K::V) -> bool>,
) -> (r: Vec<T>)
    requires
        keys@.len() == items@.len(),
        forall|a: &K, b: &K| #[trigger] less.requires((a, b)),
        forall|a: &K, b: &K, r: bool| less.ensures((a, b), r) ==> r == lt(a@, b@),
        strict_weak_order(lt),
    ensures
        r@ == reorder(items@, sort_order_by(views_of(keys@), lt)),
{
    let order = stable_order_with(keys, less, Ghost(lt));
    proof {
        lemma_sort_order_by(views_of(keys@), lt);
    }
    permute(items, order.as_slice())
}

} // verus!
