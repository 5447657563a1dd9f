//! Lists of pairs with distinct keys, seen as maps.
use vstd::prelude::*;

verus! {

/// Whether no two pairs have the same key.
pub open spec fn distinct_keys<K, V>(p: Seq<(K, V)>) -> bool {
    forall|i: int, j: int| 0 <= i < j < p.len() ==> (#[trigger] p[i]).0 != (#[trigger] p[j]).0
}

/// Whether a key is there.
pub open spec fn has_key<K, V>(p: Seq<(K, V)>, k: K) -> bool {
    exists|i: int| 0 <= i < p.len() && (#[trigger] p[i]).0 == k
}

/// Where a key stands.
pub open spec fn index_of_key<K, V>(p: Seq<(K, V)>, k: K) -> int {
    choose|i: int| 0 <= i < p.len() && (#[trigger] p[i]).0 == k
}

/// The map that the pairs make.
pub open spec fn map_of<K, V>(p: Seq<(K, V)>) -> Map<K, V> {
    Map::new(|k: K| has_key(p, k), |k: K| p[index_of_key(p, k)].1)
}

/// A pair's key leads to its value.
pub proof fn lemma_at<K, V>(p: Seq<(K, V)>, i: int)
    requires
        distinct_keys(p),
        0 <= i < p.len(),
    ensures
        map_of(p).contains_key(p[i].0),
        map_of(p)[p[i].0] == p[i].1,
{
    let k = p[i].0;
    assert(has_key(p, k));
    let j = index_of_key(p, k);
    assert(0 <= j < p.len() && p[j].0 == k);
    if i < j {
        assert(p[i].0 != p[j].0);
    } else if j < i {
        assert(p[j].0 != p[i].0);
    }
}

/// The map of no pairs is empty.
pub proof fn lemma_empty<K, V>(p: Seq<(K, V)>)
    requires
        p.len() == 0,
    ensures
        distinct_keys(p),
        map_of(p) == Map::<K, V>::empty(),
{
    assert(map_of(p) =~= Map::<K, V>::empty());
}

/// A new value for a key that is there.
pub proof fn lemma_update<K, V>(p: Seq<(K, V)>, i: int, v: V)
    requires
        distinct_keys(p),
        0 <= i < p.len(),
    ensures
        distinct_keys(p.update(i, (p[i].0, v))),
        map_of(p.update(i, (p[i].0, v))) == map_of(p).insert(p[i].0, v),
{
    let q = p.update(i, (p[i].0, v));
    assert forall|a: int, b: int| 0 <= a < b < q.len() implies (#[trigger] q[a]).0 != (
    #[trigger] q[b]).0 by {
        assert(p[a].0 != p[b].0);
    }
    let m = map_of(q);
    let n = map_of(p).insert(p[i].0, v);
    lemma_at(p, i);
    assert forall|k: K| #[trigger] m.contains_key(k) <==> n.contains_key(k) by {
        if has_key(q, k) {
            let j = index_of_key(q, k);
            assert(p[j].0 == k);
        }
        if has_key(p, k) {
            let j = index_of_key(p, k);
            assert(q[j].0 == k);
        }
    }
    assert forall|k: K| #[trigger] m.contains_key(k) implies m[k] == n[k] by {
        let j = index_of_key(q, k);
        assert(0 <= j < q.len() && q[j].0 == k);
        lemma_at(q, j);
        lemma_at(p, j);
        if j != i {
            if i < j {
                assert(p[i].0 != p[j].0);
            } else {
                assert(p[j].0 != p[i].0);
            }
        }
    }
    assert(m =~= n);
}

/// A pair with a new key.
pub proof fn lemma_push<K, V>(p: Seq<(K, V)>, k: K, v: V)
    requires
        distinct_keys(p),
        !has_key(p, k),
    ensures
        distinct_keys(p.push((k, v))),
        map_of(p.push((k, v))) == map_of(p).insert(k, v),
{
    let q = p.push((k, v));
    let n = p.len() as int;
    assert forall|a: int, b: int| 0 <= a < b < q.len() implies (#[trigger] q[a]).0 != (
    #[trigger] q[b]).0 by {
        if b == n {
            assert(p[a].0 != k);
        } else {
            assert(p[a].0 != p[b].0);
        }
    }
    lemma_at(q, n);
    let x = map_of(q);
    let y = map_of(p).insert(k, v);
    assert forall|c: K| #[trigger] x.contains_key(c) <==> y.contains_key(c) by {
        if has_key(q, c) {
            let j = index_of_key(q, c);
            if j < n {
                assert(p[j].0 == c);
            }
        }
        if has_key(p, c) {
            let j = index_of_key(p, c);
            assert(q[j].0 == c);
        }
    }
    assert forall|c: K| #[trigger] x.contains_key(c) implies x[c] == y[c] by {
        let j = index_of_key(q, c);
        assert(0 <= j < q.len() && q[j].0 == c);
        lemma_at(q, j);
        if j < n {
            lemma_at(p, j);
            assert(p[j] == q[j]);
            assert(p[j].0 != k);
        }
    }
    assert(x =~= y);
}

/// A pair taken out.
pub proof fn lemma_remove<K, V>(p: Seq<(K, V)>, i: int)
    requires
        distinct_keys(p),
        0 <= i < p.len(),
    ensures
        distinct_keys(p.remove(i)),
        map_of(p.remove(i)) == map_of(p).remove(p[i].0),
{
    let q = p.remove(i);
    let key = p[i].0;
    assert forall|a: int, b: int| 0 <= a < b < q.len() implies (#[trigger] q[a]).0 != (
    #[trigger] q[b]).0 by {
        let aa = if a < i { a } else { a + 1 };
        let bb = if b < i { b } else { b + 1 };
        assert(q[a] == p[aa] && q[b] == p[bb]);
        assert(p[aa].0 != p[bb].0);
    }
    let x = map_of(q);
    let y = map_of(p).remove(key);
    assert forall|k: K| #[trigger] x.contains_key(k) <==> y.contains_key(k) by {
        if has_key(q, k) {
            let j = index_of_key(q, k);
            let jj = if j < i { j } else { j + 1 };
            assert(p[jj] == q[j]);
            assert(p[jj].0 == k);
            if jj < i {
                assert(p[jj].0 != p[i].0);
            } else {
                assert(p[i].0 != p[jj].0);
            }
        }
        if has_key(p, k) && k != key {
            let j = index_of_key(p, k);
            let jj = if j < i { j } else { j - 1 };
            assert(q[jj] == p[j]);
            assert(q[jj].0 == k);
        }
    }
    assert forall|k: K| #[trigger] x.contains_key(k) implies x[k] == y[k] by {
        let j = index_of_key(q, k);
        assert(0 <= j < q.len() && q[j].0 == k);
        lemma_at(q, j);
        let jj = if j < i { j } else { j + 1 };
        assert(p[jj] == q[j]);
        lemma_at(p, jj);
    }
    assert(x =~= y);
}

/// The map has as many keys as there are pairs.
pub proof fn lemma_count<K, V>(p: Seq<(K, V)>)
    requires
        distinct_keys(p),
    ensures
        map_of(p).dom().finite(),
        map_of(p).dom().len() == p.len(),
    decreases p.len(),
{
    if p.len() == 0 {
        lemma_empty(p);
        assert(map_of(p).dom() =~= Set::<K>::empty());
    } else {
        let q = p.drop_last();
        let last = p.last();
        assert(q.push(last) =~= p);
        assert(!has_key(q, last.0)) by {
            if has_key(q, last.0) {
                let j = index_of_key(q, last.0);
                assert(p[j].0 != p[p.len() - 1].0);
            }
        }
        lemma_push(q, last.0, last.1);
        lemma_count(q);
        assert(!map_of(q).dom().contains(last.0));
        assert(map_of(p).dom() =~= map_of(q).dom().insert(last.0));
    }
}

} // verus!
