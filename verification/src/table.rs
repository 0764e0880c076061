//! Key-value tables held as vectors of pairs, as a database table hands
//! them out: each key at most once.

use vstd::prelude::*;

verus! {

/// The map that a sequence of pairs stands for; a later pair wins.
pub open spec fn pairs_map<K, V>(s: Seq<(K, V)>) -> Map<K, V>
    decreases s.len(),
{
    if s.len() == 0 {
        Map::empty()
    } else {
        pairs_map(s.drop_last()).insert(s.last().0, s.last().1)
    }
}

/// No key occurs twice.
pub open spec fn keys_distinct<K, V>(s: Seq<(K, V)>) -> bool {
    forall|i: int, j: int| 0 <= i < j < s.len() ==> s[i].0 != s[j].0
}

/// Keys strictly increase along the sequence, as a table is walked.
pub open spec fn keys_increasing<V>(s: Seq<(u64, V)>) -> bool {
    forall|i: int, j: int| 0 <= i < j < s.len() ==> s[i].0 < s[j].0
}

/// The map of a sequence with distinct keys holds exactly its pairs.
pub proof fn lemma_pairs_map<K, V>(s: Seq<(K, V)>)
    requires
        keys_distinct(s),
    ensures
        forall|k: K| #[trigger]
            pairs_map(s).contains_key(k) <==> exists|i: int| 0 <= i < s.len() && s[i].0 == k,
        forall|i: int|
            0 <= i < s.len() ==> pairs_map(s).contains_key(#[trigger] s[i].0) && pairs_map(s)[s[i].0]
                == s[i].1,
    decreases s.len(),
{
    if s.len() > 0 {
        let t = s.drop_last();
        assert(keys_distinct(t));
        lemma_pairs_map(t);
        assert forall|k: K| #[trigger]
            pairs_map(s).contains_key(k) implies exists|i: int| 0 <= i < s.len() && s[i].0 == k by {
            if k != s.last().0 {
                assert(pairs_map(t).contains_key(k));
                let i = choose|i: int| 0 <= i < t.len() && t[i].0 == k;
                assert(s[i].0 == k);
            } else {
                assert(s[s.len() - 1].0 == k);
            }
        }
        assert forall|k: K|
            (exists|i: int| 0 <= i < s.len() && s[i].0 == k) implies #[trigger] pairs_map(
            s,
        ).contains_key(k) by {
            let i = choose|i: int| 0 <= i < s.len() && s[i].0 == k;
            if i < s.len() - 1 {
                assert(t[i].0 == k);
                assert(pairs_map(t).contains_key(k));
            }
        }
        assert forall|i: int| 0 <= i < s.len() implies pairs_map(s).contains_key(#[trigger] s[i].0)
            && pairs_map(s)[s[i].0] == s[i].1 by {
            if i < s.len() - 1 {
                assert(t[i] == s[i]);
            }
        }
    }
}

/// Increasing keys are distinct keys.
pub proof fn lemma_increasing_distinct<V>(s: Seq<(u64, V)>)
    requires
        keys_increasing(s),
    ensures
        keys_distinct(s),
{
}

/// Two sequences with distinct keys and the same pairs up to order stand
/// for the same map, given how each pair is placed in the other.
pub proof fn lemma_pairs_map_ext<K, V>(s: Seq<(K, V)>, m: Map<K, V>)
    requires
        keys_distinct(s),
        forall|k: K| #[trigger]
            m.contains_key(k) <==> exists|i: int| 0 <= i < s.len() && s[i].0 == k,
        forall|i: int| 0 <= i < s.len() ==> m[#[trigger] s[i].0] == s[i].1,
    ensures
        pairs_map(s) == m,
{
    lemma_pairs_map(s);
    assert forall|k: K| #[trigger] pairs_map(s).contains_key(k) implies pairs_map(s)[k] == m[k] by {
        let i = choose|i: int| 0 <= i < s.len() && s[i].0 == k;
        assert(pairs_map(s)[s[i].0] == s[i].1);
    }
    assert(pairs_map(s) =~= m);
}


/// Puts `(k, v)` in the table `t`, in place of the pair with key `k` if
/// there is one, else at the end.
pub fn put_by_id<V>(t: &mut Vec<(u128, V)>, k: u128, v: V)
    requires
        keys_distinct(old(t)@),
    ensures
        keys_distinct(final(t)@),
        pairs_map(final(t)@) == pairs_map(old(t)@).insert(k, v),
{
    let ghost m = pairs_map(t@).insert(k, v);
    proof {
        lemma_pairs_map(t@);
    }
    let mut i: usize = 0;
    while i < t.len()
        invariant
            i <= t@.len(),
            t@ == old(t)@,
            keys_distinct(t@),
            m == pairs_map(t@).insert(k, v),
            forall|j: int| 0 <= j < i ==> t@[j].0 != k,
        decreases t.len() - i,
    {
        if t[i].0 == k {
            proof {
                lemma_pairs_map(t@);
            }
            let ghost old_t = t@;
            t.set(i, (k, v));
            proof {
                assert forall|a: int, b: int| 0 <= a < b < t@.len() implies t@[a].0 != t@[b].0 by {
                    assert(old_t[a].0 != old_t[b].0);
                }
                assert forall|key: u128| #[trigger]
                    m.contains_key(key) <==> exists|j: int| 0 <= j < t@.len() && t@[j].0 == key by {
                    if m.contains_key(key) && key != k {
                        assert(pairs_map(old_t).contains_key(key));
                        let j = choose|j: int| 0 <= j < old_t.len() && old_t[j].0 == key;
                        assert(t@[j].0 == key);
                    }
                    if key == k {
                        assert(t@[i as int].0 == key);
                    }
                    if exists|j: int| 0 <= j < t@.len() && t@[j].0 == key {
                        let j = choose|j: int| 0 <= j < t@.len() && t@[j].0 == key;
                        if j != i {
                            assert(old_t[j].0 == key);
                        }
                    }
                }
                assert forall|j: int| 0 <= j < t@.len() implies m[#[trigger] t@[j].0] == t@[j].1 by {
                    if j != i {
                        assert(old_t[j] == t@[j]);
                    }
                }
                lemma_pairs_map_ext(t@, m);
            }
            return;
        }
        i = i + 1;
    }
    let ghost old_t = t@;
    t.push((k, v));
    proof {
        assert(t@.drop_last() =~= old_t);
    }
}

/// Removes the pair at position `i` of the table `t`.
pub fn remove_at<K, V>(t: &mut Vec<(K, V)>, i: usize) -> (removed: (K, V))
    requires
        keys_distinct(old(t)@),
        i < old(t)@.len(),
    ensures
        removed == old(t)@[i as int],
        final(t)@ == old(t)@.remove(i as int),
        keys_distinct(final(t)@),
        pairs_map(final(t)@) == pairs_map(old(t)@).remove(old(t)@[i as int].0),
{
    let ghost old_t = t@;
    let ghost m = pairs_map(old_t).remove(old_t[i as int].0);
    proof {
        lemma_pairs_map(old_t);
    }
    let removed = t.remove(i);
    proof {
        assert forall|a: int, b: int| 0 <= a < b < t@.len() implies t@[a].0 != t@[b].0 by {
            if b < i {
                assert(old_t[a].0 != old_t[b].0);
            } else if a < i {
                assert(old_t[a].0 != old_t[b + 1].0);
            } else {
                assert(old_t[a + 1].0 != old_t[b + 1].0);
            }
        }
        assert forall|key: K| #[trigger]
            m.contains_key(key) <==> exists|j: int| 0 <= j < t@.len() && t@[j].0 == key by {
            if m.contains_key(key) {
                assert(pairs_map(old_t).contains_key(key));
                let j = choose|j: int| 0 <= j < old_t.len() && old_t[j].0 == key;
                if j < i {
                    assert(t@[j].0 == key);
                } else {
                    assert(j != i);
                    assert(t@[j - 1].0 == key);
                }
            }
            if exists|j: int| 0 <= j < t@.len() && t@[j].0 == key {
                let j = choose|j: int| 0 <= j < t@.len() && t@[j].0 == key;
                if j < i {
                    assert(old_t[j].0 == key);
                    assert(old_t[j].0 != old_t[i as int].0);
                } else {
                    assert(old_t[j + 1].0 == key);
                    assert(old_t[j + 1].0 != old_t[i as int].0);
                }
                assert(pairs_map(old_t).contains_key(key));
            }
        }
        assert forall|j: int| 0 <= j < t@.len() implies m[#[trigger] t@[j].0] == t@[j].1 by {
            if j < i {
                assert(old_t[j] == t@[j]);
                assert(old_t[j].0 != old_t[i as int].0);
            } else {
                assert(old_t[j + 1] == t@[j]);
                assert(old_t[j + 1].0 != old_t[i as int].0);
            }
        }
        lemma_pairs_map_ext(t@, m);
    }
    removed
}


/// The position of the first pair whose key is at least `key`.
pub fn key_position<V>(t: &Vec<(u64, V)>, key: u64) -> (p: usize)
    requires
        keys_increasing(t@),
    ensures
        p <= t@.len(),
        forall|j: int| 0 <= j < p ==> t@[j].0 < key,
        forall|j: int| p <= j < t@.len() ==> t@[j].0 >= key,
{
    let mut i: usize = 0;
    while i < t.len()
        invariant
            i <= t@.len(),
            keys_increasing(t@),
            forall|j: int| 0 <= j < i ==> t@[j].0 < key,
        decreases t.len() - i,
    {
        if t[i].0 >= key {
            assert forall|j: int| i <= j < t@.len() implies t@[j].0 >= key by {
                if j > i {
                    assert(t@[i as int].0 < t@[j].0);
                }
            }
            return i;
        }
        i = i + 1;
    }
    i
}

/// Puts `(k, v)` in the key-ordered table `t`, in place of the pair with
/// key `k` if there is one, else where its order puts it.
pub fn put_by_key<V>(t: &mut Vec<(u64, V)>, k: u64, v: V)
    requires
        keys_increasing(old(t)@),
    ensures
        keys_increasing(final(t)@),
        pairs_map(final(t)@) == pairs_map(old(t)@).insert(k, v),
{
    let ghost old_t = t@;
    let ghost m = pairs_map(old_t).insert(k, v);
    proof {
        lemma_pairs_map(old_t);
    }
    let p = key_position(t, k);
    if p < t.len() && t[p].0 == k {
        t.set(p, (k, v));
        proof {
            assert forall|key: u64| #[trigger]
                m.contains_key(key) <==> exists|j: int| 0 <= j < t@.len() && t@[j].0 == key by {
                if m.contains_key(key) && key != k {
                    assert(pairs_map(old_t).contains_key(key));
                    let j = choose|j: int| 0 <= j < old_t.len() && old_t[j].0 == key;
                    assert(t@[j].0 == key);
                }
                if key == k {
                    assert(t@[p as int].0 == key);
                }
                if exists|j: int| 0 <= j < t@.len() && t@[j].0 == key {
                    let j = choose|j: int| 0 <= j < t@.len() && t@[j].0 == key;
                    if j != p {
                        assert(old_t[j].0 == key);
                    }
                }
            }
            assert forall|j: int| 0 <= j < t@.len() implies m[#[trigger] t@[j].0] == t@[j].1 by {
                if j != p {
                    assert(old_t[j] == t@[j]);
                }
            }
            lemma_pairs_map_ext(t@, m);
        }
    } else {
        t.insert(p, (k, v));
        proof {
            assert forall|a: int, b: int| 0 <= a < b < t@.len() implies t@[a].0 < t@[b].0 by {
                if b < p {
                    assert(old_t[a].0 < old_t[b].0);
                } else if b == p {
                } else if a < p {
                    assert(old_t[b - 1].0 >= k);
                } else if a == p {
                    assert(old_t[b - 1].0 >= k);
                    assert(old_t[b - 1].0 != k) by {
                        if b - 1 > p {
                            assert(old_t[p as int].0 < old_t[b - 1].0);
                        }
                    }
                } else {
                    assert(old_t[a - 1].0 < old_t[b - 1].0);
                }
            }
            assert forall|key: u64| #[trigger]
                m.contains_key(key) <==> exists|j: int| 0 <= j < t@.len() && t@[j].0 == key by {
                if m.contains_key(key) && key != k {
                    assert(pairs_map(old_t).contains_key(key));
                    let j = choose|j: int| 0 <= j < old_t.len() && old_t[j].0 == key;
                    if j < p {
                        assert(t@[j].0 == key);
                    } else {
                        assert(t@[j + 1].0 == key);
                    }
                }
                if key == k {
                    assert(t@[p as int].0 == key);
                }
                if exists|j: int| 0 <= j < t@.len() && t@[j].0 == key {
                    let j = choose|j: int| 0 <= j < t@.len() && t@[j].0 == key;
                    if j < p {
                        assert(old_t[j].0 == key);
                    } else if j > p {
                        assert(old_t[j - 1].0 == key);
                    }
                }
            }
            assert forall|j: int| 0 <= j < t@.len() implies m[#[trigger] t@[j].0] == t@[j].1 by {
                if j < p {
                    assert(old_t[j] == t@[j]);
                } else if j > p {
                    assert(old_t[j - 1] == t@[j]);
                    assert(old_t[j - 1].0 != k) by {
                        if j - 1 > p {
                            assert(old_t[p as int].0 < old_t[j - 1].0);
                        }
                    }
                }
            }
            lemma_pairs_map_ext(t@, m);
        }
    }
}

/// Removes the pair with key `k` from the key-ordered table `t`, if there
/// is one.
pub fn remove_by_key<V>(t: &mut Vec<(u64, V)>, k: u64)
    requires
        keys_increasing(old(t)@),
    ensures
        keys_increasing(final(t)@),
        pairs_map(final(t)@) == pairs_map(old(t)@).remove(k),
{
    let ghost old_t = t@;
    proof {
        lemma_pairs_map(old_t);
    }
    let p = key_position(t, k);
    if p < t.len() && t[p].0 == k {
        let _ = remove_at(t, p);
        proof {
            assert forall|a: int, b: int| 0 <= a < b < t@.len() implies t@[a].0 < t@[b].0 by {
                if b < p {
                    assert(old_t[a].0 < old_t[b].0);
                } else if a < p {
                    assert(old_t[a].0 < old_t[b + 1].0);
                } else {
                    assert(old_t[a + 1].0 < old_t[b + 1].0);
                }
            }
        }
    } else {
        proof {
            assert forall|j: int| 0 <= j < old_t.len() implies old_t[j].0 != k by {}
            assert(!pairs_map(old_t).contains_key(k));
            assert(pairs_map(old_t).remove(k) =~= pairs_map(old_t));
        }
    }
}

} // verus!
