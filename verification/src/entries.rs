//! Abstract model of insertion-ordered maps: a sequence of key/value pairs.

use vstd::prelude::*;

verus! {

/// `k` is one of the keys of `s`.
pub open spec fn has_key<K, V>(s: Seq<(K, V)>, k: K) -> bool {
    exists|i: int| 0 <= i < s.len() && #[trigger] s[i].0 == k
}

/// No key occurs twice in `s`.
pub open spec fn unique_keys<K, V>(s: Seq<(K, V)>) -> bool {
    forall|i: int, j: int|
        0 <= i < s.len() && 0 <= j < s.len() && i != j ==> #[trigger] s[i].0 != #[trigger] s[j].0
}

/// The position of key `k` in `s` (meaningful when `has_key(s, k)`).
pub open spec fn index_of<K, V>(s: Seq<(K, V)>, k: K) -> int {
    choose|i: int| 0 <= i < s.len() && #[trigger] s[i].0 == k
}

/// The value stored under `k` (meaningful when `has_key(s, k)`).
pub open spec fn lookup<K, V>(s: Seq<(K, V)>, k: K) -> V {
    s[index_of(s, k)].1
}

/// The keys of `s`, in order.
pub open spec fn keys_of<K, V>(s: Seq<(K, V)>) -> Seq<K> {
    s.map_values(|p: (K, V)| p.0)
}

/// The map that `s` represents.
pub open spec fn as_map<K, V>(s: Seq<(K, V)>) -> Map<K, V> {
    Map::new(|k: K| has_key(s, k), |k: K| lookup(s, k))
}

/// Insertion into an ordered map: an existing key keeps its place and gets
/// the new value; a new key goes last.
pub open spec fn upsert<K, V>(s: Seq<(K, V)>, k: K, v: V) -> Seq<(K, V)> {
    if has_key(s, k) {
        s.update(index_of(s, k), (k, v))
    } else {
        s.push((k, v))
    }
}

/// Removal that moves the last pair into the removed pair's place.
pub open spec fn swap_remove<K, V>(s: Seq<(K, V)>, k: K) -> Seq<(K, V)> {
    if has_key(s, k) {
        s.update(index_of(s, k), s.last()).drop_last()
    } else {
        s
    }
}

pub proof fn lemma_index_of<K, V>(s: Seq<(K, V)>, k: K)
    requires
        has_key(s, k),
    ensures
        0 <= index_of(s, k) < s.len(),
        s[index_of(s, k)].0 == k,
{
}

pub proof fn lemma_index_of_unique<K, V>(s: Seq<(K, V)>, i: int)
    requires
        unique_keys(s),
        0 <= i < s.len(),
    ensures
        has_key(s, s[i].0),
        index_of(s, s[i].0) == i,
        lookup(s, s[i].0) == s[i].1,
{
    assert(has_key(s, s[i].0));
}

pub proof fn lemma_upsert<K, V>(s: Seq<(K, V)>, k: K, v: V)
    requires
        unique_keys(s),
    ensures
        unique_keys(upsert(s, k, v)),
        as_map(upsert(s, k, v)) == as_map(s).insert(k, v),
        has_key(s, k) ==> upsert(s, k, v).len() == s.len(),
        !has_key(s, k) ==> upsert(s, k, v).len() == s.len() + 1,
        forall|i: int|
            0 <= i < s.len() && s[i].0 != k ==> #[trigger] upsert(s, k, v)[i] == s[i],
{
    let t = upsert(s, k, v);
    if has_key(s, k) {
        let i = index_of(s, k);
        assert forall|a: int, b: int|
            0 <= a < t.len() && 0 <= b < t.len() && a != b implies #[trigger] t[a].0
            != #[trigger] t[b].0 by {
            if a != i && b != i {
                assert(s[a].0 != s[b].0);
            } else if a == i {
                assert(s[b].0 != s[i].0);
            } else {
                assert(s[a].0 != s[i].0);
            }
        }
        assert forall|x: K| #[trigger] has_key(t, x) <==> as_map(s).insert(k, v).contains_key(x) by {
            if has_key(s, x) {
                let j = index_of(s, x);
                assert(t[j].0 == x);
            }
            if has_key(t, x) {
                let j = index_of(t, x);
                if j != i {
                    assert(s[j].0 == x);
                }
            }
        }
        assert forall|x: K| #[trigger] has_key(t, x) implies lookup(t, x) == as_map(s).insert(
            k,
            v,
        )[x] by {
            let j = index_of(t, x);
            if x == k {
                lemma_index_of_unique(t, i);
            } else {
                assert(s[j].0 == x);
                lemma_index_of_unique(s, j);
                lemma_index_of_unique(t, j);
            }
        }
        assert(as_map(t) =~= as_map(s).insert(k, v));
    } else {
        assert forall|a: int, b: int|
            0 <= a < t.len() && 0 <= b < t.len() && a != b implies #[trigger] t[a].0
            != #[trigger] t[b].0 by {
            if a < s.len() && b < s.len() {
                assert(s[a].0 != s[b].0);
            } else if a == s.len() {
                assert(s[b].0 != k);
            } else {
                assert(s[a].0 != k);
            }
        }
        assert forall|x: K| #[trigger] has_key(t, x) <==> as_map(s).insert(k, v).contains_key(x) by {
            if has_key(s, x) {
                let j = index_of(s, x);
                assert(t[j].0 == x);
            }
            if has_key(t, x) {
                let j = index_of(t, x);
                if j < s.len() {
                    assert(s[j].0 == x);
                }
            }
            if x == k {
                assert(t[s.len() as int].0 == k);
            }
        }
        assert forall|x: K| #[trigger] has_key(t, x) implies lookup(t, x) == as_map(s).insert(
            k,
            v,
        )[x] by {
            let j = index_of(t, x);
            if x == k {
                lemma_index_of_unique(t, s.len() as int);
            } else {
                assert(s[j].0 == x);
                lemma_index_of_unique(s, j);
                lemma_index_of_unique(t, j);
            }
        }
        assert(as_map(t) =~= as_map(s).insert(k, v));
    }
}

pub proof fn lemma_swap_remove<K, V>(s: Seq<(K, V)>, k: K)
    requires
        unique_keys(s),
    ensures
        unique_keys(swap_remove(s, k)),
        as_map(swap_remove(s, k)) == as_map(s).remove(k),
        has_key(s, k) ==> swap_remove(s, k).len() == s.len() - 1,
        !has_key(s, k) ==> swap_remove(s, k) == s,
        forall|x: K| #[trigger] has_key(swap_remove(s, k), x) ==> has_key(s, x),
{
    let t = swap_remove(s, k);
    if has_key(s, k) {
        let i = index_of(s, k);
        let last = s.len() - 1;
        assert forall|a: int, b: int|
            0 <= a < t.len() && 0 <= b < t.len() && a != b implies #[trigger] t[a].0
            != #[trigger] t[b].0 by {
            let sa = if a == i { last } else { a };
            let sb = if b == i { last } else { b };
            assert(t[a] == s[sa]);
            assert(t[b] == s[sb]);
            assert(s[sa].0 != s[sb].0);
        }
        assert forall|x: K| #[trigger] has_key(t, x) <==> as_map(s).remove(k).contains_key(x) by {
            if has_key(t, x) {
                let j = index_of(t, x);
                let sj = if j == i { last } else { j };
                assert(t[j] == s[sj]);
                assert(s[sj].0 == x);
                assert(sj != i);
            }
            if has_key(s, x) && x != k {
                let j = index_of(s, x);
                assert(j != i);
                if j == last {
                    assert(t[i] == s[last]);
                } else {
                    assert(t[j] == s[j]);
                }
            }
        }
        assert forall|x: K| #[trigger] has_key(t, x) implies lookup(t, x) == as_map(s).remove(
            k,
        )[x] by {
            let j = index_of(t, x);
            let sj = if j == i { last } else { j };
            assert(t[j] == s[sj]);
            lemma_index_of_unique(t, j);
            lemma_index_of_unique(s, sj);
        }
        assert(as_map(t) =~= as_map(s).remove(k));
    } else {
        assert forall|x: K| #[trigger] has_key(s, x) <==> as_map(s).remove(k).contains_key(x) by {
        }
        assert(as_map(t) =~= as_map(s).remove(k));
    }
}

/// The pairs of `s` whose value satisfies `keep`, in order.
pub open spec fn retain_values<K, V>(s: Seq<(K, V)>, keep: spec_fn(V) -> bool) -> Seq<(K, V)> {
    s.filter(|p: (K, V)| keep(p.1))
}

pub proof fn lemma_retain_values<K, V>(s: Seq<(K, V)>, keep: spec_fn(V) -> bool)
    requires
        unique_keys(s),
    ensures
        unique_keys(retain_values(s, keep)),
        forall|j: int|
            0 <= j < retain_values(s, keep).len() ==> #[trigger] s.contains(
                retain_values(s, keep)[j],
            ) && keep(retain_values(s, keep)[j].1),
        as_map(retain_values(s, keep)) == as_map(s).restrict(
            as_map(s).dom().filter(|x: K| keep(lookup(s, x))),
        ),
    decreases s.len(),
{
    reveal(Seq::filter);
    let t = retain_values(s, keep);
    if s.len() == 0 {
        assert(t.len() == 0);
        assert(as_map(t) =~= as_map(s).restrict(as_map(s).dom().filter(|x: K| keep(lookup(s, x)))));
    } else {
        let d = s.drop_last();
        assert forall|a: int, b: int|
            0 <= a < d.len() && 0 <= b < d.len() && a != b implies #[trigger] d[a].0
            != #[trigger] d[b].0 by {
            assert(s[a].0 != s[b].0);
        }
        lemma_retain_values(d, keep);
        let r = retain_values(d, keep);
        assert(t == if keep(s.last().1) { r.push(s.last()) } else { r });
        assert forall|j: int| 0 <= j < t.len() implies #[trigger] s.contains(t[j]) && keep(
            t[j].1,
        ) by {
            if j < r.len() {
                assert(d.contains(r[j]));
                let w = choose|w: int| 0 <= w < d.len() && d[w] == r[j];
                assert(s[w] == r[j]);
            } else {
                assert(t[j] == s[s.len() - 1]);
            }
        }
        // keys of r all come from d, hence differ from the last key of s
        assert forall|a: int, b: int|
            0 <= a < t.len() && 0 <= b < t.len() && a != b implies #[trigger] t[a].0
            != #[trigger] t[b].0 by {
            if a < r.len() && b < r.len() {
            } else if a < r.len() {
                assert(d.contains(r[a]));
                let w = choose|w: int| 0 <= w < d.len() && d[w] == r[a];
                assert(s[w].0 != s[s.len() - 1].0);
            } else {
                assert(d.contains(r[b]));
                let w = choose|w: int| 0 <= w < d.len() && d[w] == r[b];
                assert(s[w].0 != s[s.len() - 1].0);
            }
        }
        let target = as_map(s).restrict(as_map(s).dom().filter(|x: K| keep(lookup(s, x))));
        let dmap = as_map(d).restrict(as_map(d).dom().filter(|x: K| keep(lookup(d, x))));
        assert(as_map(r) == dmap);
        let lk = s.last().0;
        assert(!has_key(d, lk)) by {
            if has_key(d, lk) {
                let w = index_of(d, lk);
                assert(s[w].0 == s[s.len() - 1].0);
            }
        }
        assert forall|x: K| #[trigger] has_key(d, x) implies has_key(s, x) && lookup(d, x)
            == lookup(s, x) by {
            let w = index_of(d, x);
            assert(s[w] == d[w]);
            lemma_index_of_unique(s, w);
            lemma_index_of_unique(d, w);
        }
        lemma_index_of_unique(s, s.len() - 1);
        assert forall|x: K| #[trigger] has_key(t, x) <==> target.contains_key(x) by {
            if has_key(t, x) {
                let j = index_of(t, x);
                assert(s.contains(t[j]));
                let w = choose|w: int| 0 <= w < s.len() && s[w] == t[j];
                lemma_index_of_unique(s, w);
                assert(has_key(s, x));
                if j < r.len() {
                    assert(has_key(r, x));
                    assert(dmap.contains_key(x));
                } else {
                    assert(x == lk);
                }
            }
            if target.contains_key(x) {
                if x == lk {
                    assert(t[t.len() - 1].0 == lk);
                } else {
                    let w = index_of(s, x);
                    assert(w != s.len() - 1);
                    assert(d[w] == s[w]);
                    assert(has_key(d, x));
                    assert(dmap.contains_key(x));
                    let j = index_of(r, x);
                    assert(t[j] == r[j]);
                }
            }
        }
        assert forall|x: K| #[trigger] has_key(t, x) implies lookup(t, x) == target[x] by {
            let j = index_of(t, x);
            lemma_index_of_unique(t, j);
            if j < r.len() {
                assert(t[j] == r[j]);
                lemma_index_of_unique(r, j);
                assert(has_key(r, x));
                assert(dmap.contains_key(x));
                assert(lookup(r, x) == as_map(r)[x]);
                assert(has_key(d, x));
                assert(lookup(d, x) == lookup(s, x));
                assert(target[x] == lookup(s, x));
            } else {
                assert(x == lk);
                assert(t[j] == s[s.len() - 1]);
                assert(target[x] == lookup(s, x));
            }
        }
        assert(as_map(t) =~= target);
    }
}

/// `s` with `f` applied to each value.
pub open spec fn map_vals<K, V, W>(s: Seq<(K, V)>, f: spec_fn(V) -> W) -> Seq<(K, W)> {
    s.map_values(|p: (K, V)| (p.0, f(p.1)))
}

pub proof fn lemma_map_vals_keys<K, V, W>(s: Seq<(K, V)>, f: spec_fn(V) -> W)
    ensures
        map_vals(s, f).len() == s.len(),
        forall|i: int| 0 <= i < s.len() ==> #[trigger] map_vals(s, f)[i] == (s[i].0, f(s[i].1)),
        forall|k: K| #[trigger] has_key(map_vals(s, f), k) == has_key(s, k),
        unique_keys(s) ==> unique_keys(map_vals(s, f)),
        unique_keys(s) ==> forall|k: K|
            has_key(s, k) ==> #[trigger] index_of(map_vals(s, f), k) == index_of(s, k),
        unique_keys(s) ==> forall|k: K|
            has_key(s, k) ==> #[trigger] lookup(map_vals(s, f), k) == f(lookup(s, k)),
{
    let t = map_vals(s, f);
    assert forall|k: K| #[trigger] has_key(t, k) == has_key(s, k) by {
        if has_key(s, k) {
            let i = index_of(s, k);
            assert(t[i].0 == k);
        }
        if has_key(t, k) {
            let i = index_of(t, k);
            assert(s[i].0 == k);
        }
    }
    if unique_keys(s) {
        assert forall|a: int, b: int|
            0 <= a < t.len() && 0 <= b < t.len() && a != b implies #[trigger] t[a].0
            != #[trigger] t[b].0 by {
            assert(s[a].0 != s[b].0);
        }
        assert forall|k: K| has_key(s, k) implies #[trigger] index_of(t, k) == index_of(s, k)
            && lookup(t, k) == f(lookup(s, k)) by {
            let i = index_of(s, k);
            lemma_index_of_unique(s, i);
            lemma_index_of_unique(t, i);
        }
    }
}

pub proof fn lemma_map_vals_upsert<K, V, W>(s: Seq<(K, V)>, f: spec_fn(V) -> W, k: K, v: V)
    requires
        unique_keys(s),
    ensures
        map_vals(upsert(s, k, v), f) == upsert(map_vals(s, f), k, f(v)),
{
    lemma_map_vals_keys(s, f);
    assert(map_vals(upsert(s, k, v), f) =~= upsert(map_vals(s, f), k, f(v)));
}

pub proof fn lemma_map_vals_swap_remove<K, V, W>(s: Seq<(K, V)>, f: spec_fn(V) -> W, k: K)
    requires
        unique_keys(s),
    ensures
        map_vals(swap_remove(s, k), f) == swap_remove(map_vals(s, f), k),
{
    lemma_map_vals_keys(s, f);
    assert(map_vals(swap_remove(s, k), f) =~= swap_remove(map_vals(s, f), k));
}

pub proof fn lemma_map_vals_retain<K, V, W>(
    s: Seq<(K, V)>,
    f: spec_fn(V) -> W,
    keep: spec_fn(W) -> bool,
    keep_v: spec_fn(V) -> bool,
)
    requires
        forall|v: V| #[trigger] keep_v(v) == keep(f(v)),
    ensures
        map_vals(retain_values(s, keep_v), f) == retain_values(map_vals(s, f), keep),
    decreases s.len(),
{
    reveal(Seq::filter);
    if s.len() > 0 {
        lemma_map_vals_retain(s.drop_last(), f, keep, keep_v);
        assert(map_vals(s, f).drop_last() =~= map_vals(s.drop_last(), f));
        let a = retain_values(s.drop_last(), keep_v);
        if keep_v(s.last().1) {
            assert(map_vals(a.push(s.last()), f) =~= map_vals(a, f).push(map_vals(s, f).last()));
        }
    } else {
        assert(map_vals(retain_values(s, keep_v), f) =~= retain_values(map_vals(s, f), keep));
    }
}

/// `s` with the value at `i` replaced and everything else unchanged.
pub proof fn lemma_update_value<K, V>(s: Seq<(K, V)>, i: int, v: V)
    requires
        unique_keys(s),
        0 <= i < s.len(),
    ensures
        unique_keys(s.update(i, (s[i].0, v))),
        forall|k: K| #[trigger] has_key(s.update(i, (s[i].0, v)), k) == has_key(s, k),
{
    let t = s.update(i, (s[i].0, v));
    assert forall|a: int, b: int|
        0 <= a < t.len() && 0 <= b < t.len() && a != b implies #[trigger] t[a].0
        != #[trigger] t[b].0 by {
        assert(s[a].0 != s[b].0);
    }
    assert forall|k: K| #[trigger] has_key(t, k) == has_key(s, k) by {
        if has_key(s, k) {
            let j = index_of(s, k);
            assert(t[j].0 == k);
        }
        if has_key(t, k) {
            let j = index_of(t, k);
            assert(s[j].0 == k);
        }
    }
}

pub proof fn lemma_take_unique<K, V>(s: Seq<(K, V)>, n: int)
    requires
        unique_keys(s),
        0 <= n <= s.len(),
    ensures
        unique_keys(s.take(n)),
{
    let t = s.take(n);
    assert forall|a: int, b: int|
        0 <= a < t.len() && 0 <= b < t.len() && a != b implies #[trigger] t[a].0
        != #[trigger] t[b].0 by {
        assert(s[a].0 != s[b].0);
    }
}

/// Replacing the value under `k` leaves the other keys' values alone.
pub proof fn lemma_lookup_update<K, V>(s: Seq<(K, V)>, k: K, v: V, x: K)
    requires
        unique_keys(s),
        has_key(s, k),
        has_key(s, x),
    ensures
        unique_keys(s.update(index_of(s, k), (k, v))),
        has_key(s.update(index_of(s, k), (k, v)), x),
        lookup(s.update(index_of(s, k), (k, v)), x) == if x == k {
            v
        } else {
            lookup(s, x)
        },
{
    lemma_index_of(s, k);
    lemma_index_of(s, x);
    let i = index_of(s, k);
    let j = index_of(s, x);
    lemma_update_value(s, i, v);
    let t = s.update(i, (k, v));
    assert(t =~= s.update(i, (s[i].0, v)));
    assert(t[j].0 == x);
    lemma_index_of_unique(t, j);
    lemma_index_of_unique(s, j);
}

} // verus!
