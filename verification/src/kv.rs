//! Ordered key/value lists: the storage behind the environment store and
//! the alias table.

use crate::text::str_eq;
use vstd::prelude::*;

verus! {

/// A key and the text stored under it.
pub struct KvEntry {
    pub key: String,
    pub value: String,
}

/// The pairs held by a list of entries, in order.
pub open spec fn kv_pairs(s: Seq<KvEntry>) -> Seq<(Seq<char>, Seq<char>)> {
    s.map_values(|e: KvEntry| (e.key@, e.value@))
}

/// The value stored under `k`: that of the first pair with key `k`.
pub open spec fn kv_lookup<V>(p: Seq<(Seq<char>, V)>, k: Seq<char>) -> Option<V>
    decreases p.len(),
{
    if p.len() == 0 {
        None
    } else if p[0].0 == k {
        Some(p[0].1)
    } else {
        kv_lookup(p.drop_first(), k)
    }
}

/// No key occurs twice.
pub open spec fn kv_keys_distinct<V>(p: Seq<(Seq<char>, V)>) -> bool {
    forall|i: int, j: int| 0 <= i < j < p.len() ==> #[trigger] p[i].0 != #[trigger] p[j].0
}

/// Index `i` holds the first pair with key `k`.
pub open spec fn kv_first<V>(p: Seq<(Seq<char>, V)>, k: Seq<char>, i: int) -> bool {
    0 <= i < p.len() && p[i].0 == k && forall|j: int| 0 <= j < i ==> p[j].0 != k
}

/// Some pair has key `k`.
pub open spec fn kv_has<V>(p: Seq<(Seq<char>, V)>, k: Seq<char>) -> bool {
    exists|i: int| 0 <= i < p.len() && p[i].0 == k
}

/// The test "this pair's key is not `k`".
pub open spec fn key_is_not<V>(k: Seq<char>) -> spec_fn((Seq<char>, V)) -> bool {
    |e: (Seq<char>, V)| e.0 != k
}

/// The pairs without those whose key is `k`.
pub open spec fn kv_without<V>(p: Seq<(Seq<char>, V)>, k: Seq<char>) -> Seq<(Seq<char>, V)> {
    p.filter(key_is_not(k))
}

/// The pairs with the value of the first pair with key `k` replaced by `v`.
pub open spec fn kv_set<V>(p: Seq<(Seq<char>, V)>, k: Seq<char>, v: V) -> Seq<(Seq<char>, V)>
    decreases p.len(),
{
    if p.len() == 0 {
        p
    } else if p[0].0 == k {
        p.update(0, (k, v))
    } else {
        seq![p[0]] + kv_set(p.drop_first(), k, v)
    }
}

/// Replacing the value of the first pair with key `k` is an update at its index.
pub proof fn lemma_kv_set_at<V>(p: Seq<(Seq<char>, V)>, k: Seq<char>, v: V, i: int)
    requires
        kv_first(p, k, i),
    ensures
        kv_set(p, k, v) == p.update(i, (k, v)),
    decreases p.len(),
{
    if i > 0 {
        lemma_kv_set_at(p.drop_first(), k, v, i - 1);
        assert(seq![p[0]] + p.drop_first().update(i - 1, (k, v)) =~= p.update(i, (k, v)));
    }
}

/// Lookup finds the first pair with the key.
pub proof fn lemma_kv_lookup_first<V>(p: Seq<(Seq<char>, V)>, k: Seq<char>, i: int)
    requires
        kv_first(p, k, i),
    ensures
        kv_lookup(p, k) == Some(p[i].1),
    decreases p.len(),
{
    if i > 0 {
        lemma_kv_lookup_first(p.drop_first(), k, i - 1);
    }
}

/// Lookup finds nothing for a missing key.
pub proof fn lemma_kv_lookup_missing<V>(p: Seq<(Seq<char>, V)>, k: Seq<char>)
    requires
        !kv_has(p, k),
    ensures
        kv_lookup(p, k) is None,
    decreases p.len(),
{
    if p.len() > 0 {
        assert(!kv_has(p.drop_first(), k)) by {
            if kv_has(p.drop_first(), k) {
                let i = choose|i: int| 0 <= i < p.drop_first().len() && p.drop_first()[i].0 == k;
                assert(p[i + 1].0 == k);
            }
        }
        lemma_kv_lookup_missing(p.drop_first(), k);
    }
}

/// Lookup with distinct keys: the value at the index holding the key.
pub proof fn lemma_kv_lookup_at<V>(p: Seq<(Seq<char>, V)>, i: int)
    requires
        kv_keys_distinct(p),
        0 <= i < p.len(),
    ensures
        kv_lookup(p, p[i].0) == Some(p[i].1),
{
    assert forall|j: int| 0 <= j < i implies p[j].0 != p[i].0 by {}
    lemma_kv_lookup_first(p, p[i].0, i);
}

/// Lookup of a key as a whole: `Some` of the value at the first pair with
/// the key, `None` when no pair has it.
pub proof fn lemma_kv_lookup<V>(p: Seq<(Seq<char>, V)>, k: Seq<char>)
    ensures
        kv_has(p, k) <==> kv_lookup(p, k) is Some,
        kv_lookup(p, k) matches Some(v) ==> exists|i: int| kv_first(p, k, i) && p[i].1 == v,
    decreases p.len(),
{
    if p.len() > 0 {
        lemma_kv_lookup(p.drop_first(), k);
        if p[0].0 == k {
            assert(kv_first(p, k, 0));
        } else {
            if kv_has(p.drop_first(), k) {
                let i = choose|i: int| 0 <= i < p.drop_first().len() && p.drop_first()[i].0 == k;
                assert(p[i + 1].0 == k);
            }
            if kv_has(p, k) {
                let i = choose|i: int| 0 <= i < p.len() && p[i].0 == k;
                assert(p.drop_first()[i - 1].0 == k);
            }
            if kv_lookup(p, k) is Some {
                let i = choose|i: int| kv_first(p.drop_first(), k, i) && p.drop_first()[i].1 == kv_lookup(p, k).unwrap();
                assert forall|j: int| 0 <= j < i + 1 implies p[j].0 != k by {
                    if j > 0 {
                        assert(p.drop_first()[j - 1] == p[j]);
                    }
                }
                assert(kv_first(p, k, i + 1));
            }
        }
    } else {
        lemma_kv_lookup_missing(p, k);
    }
}

/// Index of the first entry whose key is `key`.
pub fn kv_find(entries: &Vec<KvEntry>, key: &str) -> (r: Option<usize>)
    ensures
        match r {
            Some(i) => kv_first(kv_pairs(entries@), key@, i as int),
            None => !kv_has(kv_pairs(entries@), key@),
        },
{
    let mut i: usize = 0;
    while i < entries.len()
        invariant
            i <= entries@.len(),
            forall|j: int| 0 <= j < i ==> (#[trigger] entries@[j]).key@ != key@,
        decreases entries@.len() - i,
    {
        if str_eq(entries[i].key.as_str(), key) {
            return Some(i);
        }
        i += 1;
    }
    None
}

/// Drop every entry whose key is `key`, keeping the order of the others.
pub fn kv_remove_all(entries: &mut Vec<KvEntry>, key: &str)
    ensures
        kv_pairs(final(entries)@) == kv_without(kv_pairs(old(entries)@), key@),
{
    let ghost s0 = kv_pairs(entries@);
    let ghost mut k: int = 0;
    let mut i: usize = 0;
    proof {
        reveal(Seq::filter);
        assert(s0.take(0) =~= Seq::<(Seq<char>, Seq<char>)>::empty());
        assert(kv_pairs(entries@) =~= kv_without(s0.take(0), key@) + s0.skip(0));
    }
    while i < entries.len()
        invariant
            0 <= k <= s0.len(),
            s0.len() == kv_pairs(old(entries)@).len(),
            s0 == kv_pairs(old(entries)@),
            i as int == kv_without(s0.take(k), key@).len(),
            kv_pairs(entries@) == kv_without(s0.take(k), key@) + s0.skip(k),
        decreases s0.len() - k,
    {
        proof {
            lemma_kv_without_take_step(s0, key@, k);
            assert(kv_pairs(entries@)[i as int] == s0[k]);
        }
        if str_eq(entries[i].key.as_str(), key) {
            let ghost before = entries@;
            entries.remove(i);
            proof {
                assert(kv_pairs(entries@) =~= kv_pairs(before).remove(i as int));
                assert(kv_pairs(entries@) =~= kv_without(s0.take(k + 1), key@) + s0.skip(k + 1));
                k = k + 1;
            }
        } else {
            i += 1;
            proof {
                assert(kv_pairs(entries@) =~= kv_without(s0.take(k + 1), key@) + s0.skip(k + 1));
                k = k + 1;
            }
        }
    }
    proof {
        assert(s0.take(k) =~= s0);
        assert(kv_pairs(entries@) =~= kv_without(s0, key@));
    }
}

/// Extending a prefix by one pair keeps that pair unless it has key `k`.
pub proof fn lemma_kv_without_take_step<V>(s: Seq<(Seq<char>, V)>, k: Seq<char>, n: int)
    requires
        0 <= n < s.len(),
    ensures
        kv_without(s.take(n + 1), k) == if s[n].0 != k {
            kv_without(s.take(n), k).push(s[n])
        } else {
            kv_without(s.take(n), k)
        },
{
    reveal(Seq::filter);
    assert(s.take(n + 1).drop_last() =~= s.take(n));
}

/// Removing a key removes it for good and keeps every other key's value.
pub proof fn lemma_kv_without_lookup<V>(p: Seq<(Seq<char>, V)>, k: Seq<char>, other: Seq<char>)
    ensures
        kv_lookup(kv_without(p, k), k) is None,
        other != k ==> kv_lookup(kv_without(p, k), other) == kv_lookup(p, other),
    decreases p.len(),
{
    if p.len() > 0 {
        lemma_kv_without_first(p, k);
        lemma_kv_without_lookup(p.drop_first(), k, other);
        let w = kv_without(p.drop_first(), k);
        assert((seq![p[0]] + w).drop_first() =~= w);
        assert((seq![p[0]] + w)[0] == p[0]);
    } else {
        reveal(Seq::filter);
    }
}

/// Removing a key from a non-empty list: the head, kept or dropped, then the rest.
proof fn lemma_kv_without_first<V>(p: Seq<(Seq<char>, V)>, k: Seq<char>)
    requires
        p.len() > 0,
    ensures
        kv_without(p, k) == if p[0].0 != k {
            seq![p[0]] + kv_without(p.drop_first(), k)
        } else {
            kv_without(p.drop_first(), k)
        },
    decreases p.len(),
{
    reveal(Seq::filter);
    if p.len() == 1 {
        assert(p.drop_first() =~= Seq::<(Seq<char>, V)>::empty());
        assert(p.drop_last() =~= Seq::<(Seq<char>, V)>::empty());
        if p[0].0 != k {
            assert(kv_without(p, k) =~= seq![p[0]]);
        }
    } else {
        lemma_kv_without_first(p.drop_last(), k);
        assert(p.drop_last().drop_first() =~= p.drop_first().drop_last());
        assert(p.drop_first().last() == p.last());
        if p[0].0 != k {
            assert(kv_without(p, k) =~= seq![p[0]] + kv_without(p.drop_first(), k));
        } else {
            assert(kv_without(p, k) =~= kv_without(p.drop_first(), k));
        }
    }
}

/// Updating the pair at the first index with key `k` keeps keys distinct,
/// stores `v` under `k` and leaves other keys alone.
pub proof fn lemma_set_facts<V>(p: Seq<(Seq<char>, V)>, k: Seq<char>, v: V, i: int)
    requires
        kv_first(p, k, i),
    ensures
        kv_lookup(p.update(i, (k, v)), k) == Some(v),
        kv_keys_distinct(p) ==> kv_keys_distinct(p.update(i, (k, v))),
        kv_keys_distinct(p) ==> forall|o: Seq<char>| o != k ==> kv_lookup(p.update(i, (k, v)), o) == kv_lookup(p, o),
{
    let q = p.update(i, (k, v));
    lemma_kv_lookup_first(q, k, i);
    if kv_keys_distinct(p) {
        assert forall|o: Seq<char>| o != k implies kv_lookup(q, o) == kv_lookup(p, o) by {
            lemma_kv_lookup(p, o);
            lemma_kv_lookup(q, o);
            if kv_has(p, o) {
                let j = choose|j: int| 0 <= j < p.len() && p[j].0 == o;
                lemma_kv_lookup_at(p, j);
                lemma_kv_lookup_at(q, j);
            }
            if kv_has(q, o) {
                let j = choose|j: int| 0 <= j < q.len() && q[j].0 == o;
                assert(p[j].0 == o);
            }
        }
    }
}

/// Pushing a new key keeps keys distinct, stores `v` under `k` and leaves other keys alone.
pub proof fn lemma_push_facts<V>(p: Seq<(Seq<char>, V)>, k: Seq<char>, v: V)
    requires
        !kv_has(p, k),
    ensures
        kv_lookup(p.push((k, v)), k) == Some(v),
        kv_keys_distinct(p) ==> kv_keys_distinct(p.push((k, v))),
        forall|o: Seq<char>| o != k ==> kv_lookup(p.push((k, v)), o) == kv_lookup(p, o),
{
    let q = p.push((k, v));
    assert forall|j: int| 0 <= j < p.len() implies q[j].0 != k by {
        assert(q[j] == p[j]);
    }
    lemma_kv_lookup_first(q, k, p.len() as int);
    assert forall|o: Seq<char>| o != k implies kv_lookup(q, o) == kv_lookup(p, o) by {
        lemma_kv_lookup(p, o);
        lemma_kv_lookup(q, o);
        if kv_lookup(p, o) is Some {
            let j = choose|j: int| kv_first(p, o, j) && p[j].1 == kv_lookup(p, o).unwrap();
            assert(kv_first(q, o, j));
            lemma_kv_lookup_first(q, o, j);
        }
        if kv_lookup(q, o) is Some {
            let j = choose|j: int| kv_first(q, o, j) && q[j].1 == kv_lookup(q, o).unwrap();
            assert(j < p.len());
            assert(kv_first(p, o, j));
            lemma_kv_lookup_first(p, o, j);
        }
    }
}

/// Removing a key keeps keys distinct and shrinks the list exactly when the key was there.
pub proof fn lemma_without_facts<V>(p: Seq<(Seq<char>, V)>, k: Seq<char>)
    ensures
        kv_without(p, k).len() <= p.len(),
        kv_without(p, k).len() < p.len() <==> kv_has(p, k),
        kv_keys_distinct(p) ==> kv_keys_distinct(kv_without(p, k)),
    decreases p.len(),
{
    reveal(Seq::filter);
    if p.len() > 0 {
        let d = p.drop_last();
        lemma_without_facts(d, k);
        assert(kv_has(p, k) <==> kv_has(d, k) || p.last().0 == k) by {
            if kv_has(p, k) {
                let j = choose|j: int| 0 <= j < p.len() && p[j].0 == k;
                if j < d.len() {
                    assert(d[j] == p[j]);
                }
            }
            if kv_has(d, k) {
                let j = choose|j: int| 0 <= j < d.len() && d[j].0 == k;
                assert(p[j] == d[j]);
            }
        }
        if kv_keys_distinct(p) {
            let w = kv_without(d, k);
            assert(kv_keys_distinct(d));
            if p.last().0 != k {
                assert forall|x: (Seq<char>, V)| w.contains(x) implies x.0 != p.last().0 by {
                    d.lemma_filter_contains_rev(key_is_not(k), x);
                    let j = choose|j: int| 0 <= j < d.len() && d[j] == x;
                    assert(p[j] == d[j]);
                }
                let q = w.push(p.last());
                assert forall|a: int, b: int| 0 <= a < b < q.len() implies #[trigger] q[a].0 != #[trigger] q[b].0 by {
                    if b == q.len() - 1 {
                        assert(w.contains(w[a]));
                    }
                }
            }
        }
    }
}

} // verus!
