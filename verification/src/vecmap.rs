//! Association lists with distinct keys: the storage shape of every
//! ledger map, with the lemmas that relate lookups to updates.
use vstd::prelude::*;
use crate::types::{ClaimType, IdentityId, PortfolioId, Ticker};

verus! {

/// Exec-decidable equality that agrees with mathematical equality.
pub trait EqKey: Sized {
    fn eq_key(&self, other: &Self) -> (r: bool)
        ensures
            r == (self == other),
    ;
}

impl EqKey for IdentityId {
    fn eq_key(&self, other: &Self) -> (r: bool)
        ensures
            r == (self == other),
    {
        *self == *other
    }
}

impl EqKey for Ticker {
    fn eq_key(&self, other: &Self) -> (r: bool)
        ensures
            r == (self == other),
    {
        *self == *other
    }
}

impl EqKey for PortfolioId {
    fn eq_key(&self, other: &Self) -> (r: bool)
        ensures
            r == (self == other),
    {
        *self == *other
    }
}

impl EqKey for ClaimType {
    fn eq_key(&self, other: &Self) -> (r: bool)
        ensures
            r == (self == other),
    {
        *self == *other
    }
}

impl EqKey for Option<IdentityId> {
    fn eq_key(&self, other: &Self) -> (r: bool)
        ensures
            r == (self == other),
    {
        match (self, other) {
            (Some(a), Some(b)) => *a == *b,
            (None, None) => true,
            _ => false,
        }
    }
}

impl EqKey for u64 {
    fn eq_key(&self, other: &Self) -> (r: bool)
        ensures
            r == (self == other),
    {
        *self == *other
    }
}

impl<A: EqKey, B: EqKey> EqKey for (A, B) {
    fn eq_key(&self, other: &Self) -> (r: bool)
        ensures
            r == (self == other),
    {
        let same: bool = self.0.eq_key(&other.0) && self.1.eq_key(&other.1);
        proof {
            if same {
                assert(*self == *other);
            }
        }
        same
    }
}

/// Index of the first entry bound to `k`; the length when none is.
pub open spec fn spec_assoc_index_of<K, V>(s: Seq<(K, V)>, k: K) -> int
    decreases s.len(),
{
    if s.len() == 0 {
        0
    } else if s[0].0 == k {
        0
    } else {
        1 + spec_assoc_index_of(s.drop_first(), k)
    }
}

/// First value bound to `k`, when any is.
pub open spec fn spec_assoc_get<K, V>(s: Seq<(K, V)>, k: K) -> Option<V> {
    let i = spec_assoc_index_of(s, k);
    if i < s.len() {
        Some(s[i].1)
    } else {
        None
    }
}

/// Whether some entry is bound to `k`.
pub open spec fn spec_assoc_contains<K, V>(s: Seq<(K, V)>, k: K) -> bool {
    spec_assoc_get(s, k) is Some
}

/// All keys of the entry sequence are distinct.
pub open spec fn spec_keys_unique<K, V>(s: Seq<(K, V)>) -> bool {
    forall|i: int, j: int| 0 <= i < j < s.len() ==> (#[trigger] s[i]).0 != (#[trigger] s[j]).0
}

/// The first index bound to `k` is in bounds exactly when the key
/// occurs, carries the key, and nothing before it does.
pub proof fn lemma_assoc_index_of<K, V>(s: Seq<(K, V)>, k: K)
    ensures
        0 <= spec_assoc_index_of(s, k) <= s.len(),
        spec_assoc_index_of(s, k) < s.len() ==> s[spec_assoc_index_of(s, k)].0 == k,
        forall|j: int| 0 <= j < spec_assoc_index_of(s, k) ==> (#[trigger] s[j]).0 != k,
    decreases s.len(),
{
    if s.len() > 0 && s[0].0 != k {
        lemma_assoc_index_of(s.drop_first(), k);
        assert forall|j: int| 0 <= j < spec_assoc_index_of(s, k) implies (#[trigger] s[j]).0
            != k by {
            if j > 0 {
                assert(s.drop_first()[j - 1] == s[j]);
            }
        }
    }
}

/// A sequence whose prefix misses `k` and that carries `k` at `i` has
/// its first binding of `k` exactly at `i`.
pub proof fn lemma_assoc_index_of_is<K, V>(s: Seq<(K, V)>, k: K, i: int)
    requires
        0 <= i < s.len(),
        s[i].0 == k,
        forall|j: int| 0 <= j < i ==> (#[trigger] s[j]).0 != k,
    ensures
        spec_assoc_index_of(s, k) == i,
    decreases i,
{
    if i > 0 {
        assert forall|j: int| 0 <= j < i - 1 implies (#[trigger] s.drop_first()[j]).0 != k by {
            assert(s.drop_first()[j] == s[j + 1]);
        }
        assert(s.drop_first()[i - 1] == s[i]);
        lemma_assoc_index_of_is(s.drop_first(), k, i - 1);
    }
}

/// A sequence none of whose entries carries `k` has no binding of `k`.
pub proof fn lemma_assoc_index_of_absent<K, V>(s: Seq<(K, V)>, k: K)
    requires
        forall|j: int| 0 <= j < s.len() ==> (#[trigger] s[j]).0 != k,
    ensures
        spec_assoc_index_of(s, k) == s.len(),
    decreases s.len(),
{
    if s.len() > 0 {
        assert forall|j: int| 0 <= j < s.drop_first().len() implies (#[trigger] s.drop_first()[
        j]).0 != k by {
            assert(s.drop_first()[j] == s[j + 1]);
        }
        lemma_assoc_index_of_absent(s.drop_first(), k);
    }
}

/// Updating the entry at `i` in place changes only the binding of its
/// key; looked up by any other key the sequence reads as before.
pub proof fn lemma_assoc_get_update<K, V>(s: Seq<(K, V)>, i: int, v: V, k2: K)
    requires
        spec_keys_unique(s),
        0 <= i < s.len(),
    ensures
        spec_keys_unique(s.update(i, (s[i].0, v))),
        spec_assoc_get(s.update(i, (s[i].0, v)), s[i].0) == Some(v),
        k2 != s[i].0 ==> spec_assoc_get(s.update(i, (s[i].0, v)), k2) == spec_assoc_get(s, k2),
{
    let k = s[i].0;
    let t = s.update(i, (k, v));
    assert(spec_keys_unique(t));
    lemma_assoc_index_of(s, k);
    lemma_assoc_index_of(s, k2);
    assert(spec_assoc_index_of(s, k) == i) by {
        lemma_assoc_index_of_is(s, k, i);
    }
    lemma_assoc_index_of_is(t, k, i);
    if k2 != k {
        let j = spec_assoc_index_of(s, k2);
        if j < s.len() {
            lemma_assoc_index_of_is(t, k2, j);
        } else {
            lemma_assoc_index_of_absent(t, k2);
        }
    }
}

/// Appending a fresh key binds it and leaves every other key as it was.
pub proof fn lemma_assoc_get_push<K, V>(s: Seq<(K, V)>, k: K, v: V, k2: K)
    requires
        spec_keys_unique(s),
        !spec_assoc_contains(s, k),
    ensures
        spec_keys_unique(s.push((k, v))),
        spec_assoc_get(s.push((k, v)), k) == Some(v),
        k2 != k ==> spec_assoc_get(s.push((k, v)), k2) == spec_assoc_get(s, k2),
{
    let t = s.push((k, v));
    lemma_assoc_index_of(s, k);
    assert(spec_keys_unique(t)) by {
        assert(forall|j: int| 0 <= j < s.len() ==> (#[trigger] s[j]).0 != k);
    }
    lemma_assoc_index_of_is(t, k, s.len() as int);
    if k2 != k {
        lemma_assoc_index_of(s, k2);
        let j = spec_assoc_index_of(s, k2);
        if j < s.len() {
            lemma_assoc_index_of_is(t, k2, j);
        } else {
            lemma_assoc_index_of_absent(t, k2);
        }
    }
}

/// Removing the entry at `i` unbinds its key and leaves every other
/// key as it was.
pub proof fn lemma_assoc_get_remove<K, V>(s: Seq<(K, V)>, i: int, k2: K)
    requires
        spec_keys_unique(s),
        0 <= i < s.len(),
    ensures
        spec_keys_unique(s.remove(i)),
        !spec_assoc_contains(s.remove(i), s[i].0),
        k2 != s[i].0 ==> spec_assoc_get(s.remove(i), k2) == spec_assoc_get(s, k2),
{
    let k = s[i].0;
    let t = s.remove(i);
    assert(spec_keys_unique(t)) by {
        assert forall|a: int, b: int| 0 <= a < b < t.len() implies (#[trigger] t[a]).0 != (
        #[trigger] t[b]).0 by {
            let a0 = if a < i {
                a
            } else {
                a + 1
            };
            let b0 = if b < i {
                b
            } else {
                b + 1
            };
            assert(t[a] == s[a0] && t[b] == s[b0]);
        }
    }
    assert forall|j: int| 0 <= j < t.len() implies (#[trigger] t[j]).0 != k by {
        let j0 = if j < i {
            j
        } else {
            j + 1
        };
        assert(t[j] == s[j0]);
    }
    lemma_assoc_index_of_absent(t, k);
    if k2 != k {
        lemma_assoc_index_of(s, k2);
        let j = spec_assoc_index_of(s, k2);
        if j < s.len() {
            if j < i {
                assert forall|m: int| 0 <= m < j implies (#[trigger] t[m]).0 != k2 by {
                    assert(t[m] == s[m]);
                }
                assert(t[j] == s[j]);
                lemma_assoc_index_of_is(t, k2, j);
            } else {
                assert(j != i);
                assert forall|m: int| 0 <= m < j - 1 implies (#[trigger] t[m]).0 != k2 by {
                    let m0 = if m < i {
                        m
                    } else {
                        m + 1
                    };
                    assert(t[m] == s[m0]);
                }
                assert(t[j - 1] == s[j]);
                lemma_assoc_index_of_is(t, k2, j - 1);
            }
        } else {
            assert forall|m: int| 0 <= m < t.len() implies (#[trigger] t[m]).0 != k2 by {
                let m0 = if m < i {
                    m
                } else {
                    m + 1
                };
                assert(t[m] == s[m0]);
            }
            lemma_assoc_index_of_absent(t, k2);
        }
    }
}

/// In a map with distinct keys, every entry is what its key reads as.
pub proof fn lemma_entry_get<K, V>(s: Seq<(K, V)>, i: int)
    requires
        spec_keys_unique(s),
        0 <= i < s.len(),
    ensures
        spec_assoc_get(s, s[i].0) == Some(s[i].1),
{
    assert forall|j: int| 0 <= j < i implies (#[trigger] s[j]).0 != s[i].0 by {}
    lemma_assoc_index_of_is(s, s[i].0, i);
}

/// A bound key is bound at its first index, which carries it.
pub proof fn lemma_get_entry<K, V>(s: Seq<(K, V)>, k: K)
    requires
        spec_assoc_contains(s, k),
    ensures
        0 <= spec_assoc_index_of(s, k) < s.len(),
        s[spec_assoc_index_of(s, k)].0 == k,
        s[spec_assoc_index_of(s, k)].1 == spec_assoc_get(s, k).unwrap(),
{
    lemma_assoc_index_of(s, k);
}

/// Index of the first entry bound to `k`, or the entry count.
pub fn assoc_index_of<K: EqKey, V>(s: &Vec<(K, V)>, k: &K) -> (r: usize)
    ensures
        r == spec_assoc_index_of(s@, *k),
{
    let n: usize = s.len();
    let mut i: usize = 0;
    while i < n
        invariant
            i <= n,
            n == s@.len(),
            forall|j: int| 0 <= j < i ==> (#[trigger] s@[j]).0 != *k,
        decreases n - i,
    {
        if s[i].0.eq_key(k) {
            proof {
                lemma_assoc_index_of_is(s@, *k, i as int);
            }
            return i;
        }
        i = i + 1;
    }
    proof {
        lemma_assoc_index_of_absent(s@, *k);
    }
    n
}

/// Whether the map binds `k`.
pub fn assoc_contains<K: EqKey, V>(s: &Vec<(K, V)>, k: &K) -> (r: bool)
    ensures
        r == spec_assoc_contains(s@, *k),
{
    let i: usize = assoc_index_of(s, k);
    i < s.len()
}

/// The value bound to `k`, when any is.
pub fn assoc_get<'a, K: EqKey, V>(s: &'a Vec<(K, V)>, k: &K) -> (r: Option<&'a V>)
    ensures
        match r {
            Some(v) => spec_assoc_get(s@, *k) == Some(*v),
            None => spec_assoc_get(s@, *k) is None,
        },
{
    let i: usize = assoc_index_of(s, k);
    if i < s.len() {
        Some(&s[i].1)
    } else {
        None
    }
}

/// Binds `k` to `v`, replacing any earlier binding.
pub fn assoc_insert<K: EqKey + Copy, V>(s: &mut Vec<(K, V)>, k: K, v: V)
    requires
        spec_keys_unique(old(s)@),
    ensures
        spec_keys_unique(final(s)@),
        spec_assoc_get(final(s)@, k) == Some(v),
        forall|k2: K| k2 != k ==> spec_assoc_get(final(s)@, k2) == spec_assoc_get(old(s)@, k2),
        ({
            let i = spec_assoc_index_of(old(s)@, k);
            if i < old(s)@.len() {
                final(s)@ == old(s)@.update(i, (k, v))
            } else {
                final(s)@ == old(s)@.push((k, v))
            }
        }),
{
    let i: usize = assoc_index_of(s, &k);
    proof {
        lemma_assoc_index_of(s@, k);
    }
    if i < s.len() {
        proof {
            assert(s@[i as int].0 == k);
            assert forall|k2: K| k2 != k implies spec_assoc_get(s@.update(i as int, (k, v)), k2)
                == spec_assoc_get(s@, k2) by {
                lemma_assoc_get_update(s@, i as int, v, k2);
            }
            lemma_assoc_get_update(s@, i as int, v, k);
        }
        s.set(i, (k, v));
    } else {
        proof {
            assert forall|k2: K| k2 != k implies spec_assoc_get(s@.push((k, v)), k2)
                == spec_assoc_get(s@, k2) by {
                lemma_assoc_get_push(s@, k, v, k2);
            }
            lemma_assoc_get_push(s@, k, v, k);
        }
        s.push((k, v));
    }
}

/// Unbinds `k`, handing back the value it was bound to.
pub fn assoc_take<K: EqKey, V>(s: &mut Vec<(K, V)>, k: &K) -> (r: Option<V>)
    requires
        spec_keys_unique(old(s)@),
    ensures
        spec_keys_unique(final(s)@),
        r == spec_assoc_get(old(s)@, *k),
        !spec_assoc_contains(final(s)@, *k),
        forall|k2: K| k2 != *k ==> spec_assoc_get(final(s)@, k2) == spec_assoc_get(old(s)@, k2),
        ({
            let i = spec_assoc_index_of(old(s)@, *k);
            if i < old(s)@.len() {
                final(s)@ == old(s)@.remove(i)
            } else {
                *final(s) == *old(s)
            }
        }),
{
    let i: usize = assoc_index_of(s, k);
    proof {
        lemma_assoc_index_of(s@, *k);
    }
    if i < s.len() {
        proof {
            assert(s@[i as int].0 == *k);
            assert forall|k2: K| k2 != *k implies spec_assoc_get(s@.remove(i as int), k2)
                == spec_assoc_get(s@, k2) by {
                lemma_assoc_get_remove(s@, i as int, k2);
            }
            lemma_assoc_get_remove(s@, i as int, *k);
        }
        let (_, v) = s.remove(i);
        Some(v)
    } else {
        None
    }
}

} // verus!
