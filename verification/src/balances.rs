//! The balance indices and the lemmas that relate their sums to the
//! single-entry updates the operations perform. Everything here serves
//! the two ledger invariants: per-ticker balances sum to the total
//! supply, and every scope aggregate equals the sum of the balances of
//! the identities bound to that scope.
use vstd::prelude::*;
use crate::state::{
    spec_balance_contrib, spec_sum_balances_for, spec_sum_scope_balances, Ledger,
};
use crate::types::{IdentityId, ScopeId, Ticker};
use crate::vecmap::{
    assoc_insert, lemma_assoc_index_of, lemma_assoc_index_of_absent, lemma_assoc_index_of_is,
    lemma_entry_get, lemma_get_entry, spec_assoc_contains, spec_assoc_get, spec_assoc_index_of,
    spec_keys_unique,
};

verus! {

/// Per-ticker balance sums are never negative.
pub proof fn lemma_sum_balances_nonneg(s: Seq<((Ticker, IdentityId), u128)>, t: Ticker)
    ensures
        spec_sum_balances_for(s, t) >= 0,
    decreases s.len(),
{
    if s.len() > 0 {
        lemma_sum_balances_nonneg(s.drop_last(), t);
    }
}

/// Rewriting the value of one entry moves the sum by the difference,
/// for the entry's own ticker and no other.
pub proof fn lemma_sum_balances_update(
    s: Seq<((Ticker, IdentityId), u128)>,
    i: int,
    v: u128,
    t2: Ticker,
)
    requires
        0 <= i < s.len(),
    ensures
        spec_sum_balances_for(s.update(i, (s[i].0, v)), t2) == spec_sum_balances_for(s, t2)
            - spec_balance_contrib(s[i], t2) + spec_balance_contrib((s[i].0, v), t2),
    decreases s.len(),
{
    let u = s.update(i, (s[i].0, v));
    if i == s.len() - 1 {
        assert(u.drop_last() =~= s.drop_last());
    } else {
        assert(u.drop_last() =~= s.drop_last().update(i, (s[i].0, v)));
        assert(s.drop_last()[i] == s[i]);
        lemma_sum_balances_update(s.drop_last(), i, v, t2);
        assert(u.last() == s.last());
    }
}

/// Appending an entry adds exactly its contribution.
pub proof fn lemma_sum_balances_push(
    s: Seq<((Ticker, IdentityId), u128)>,
    e: ((Ticker, IdentityId), u128),
    t2: Ticker,
)
    ensures
        spec_sum_balances_for(s.push(e), t2) == spec_sum_balances_for(s, t2)
            + spec_balance_contrib(e, t2),
{
    assert(s.push(e).drop_last() =~= s);
}

/// Removing an entry subtracts exactly its contribution.
pub proof fn lemma_sum_balances_remove(s: Seq<((Ticker, IdentityId), u128)>, i: int, t2: Ticker)
    requires
        0 <= i < s.len(),
    ensures
        spec_sum_balances_for(s.remove(i), t2) == spec_sum_balances_for(s, t2)
            - spec_balance_contrib(s[i], t2),
    decreases s.len(),
{
    if i == s.len() - 1 {
        assert(s.remove(i) =~= s.drop_last());
    } else {
        assert(s.remove(i).drop_last() =~= s.drop_last().remove(i));
        assert(s.drop_last()[i] == s[i]);
        lemma_sum_balances_remove(s.drop_last(), i, t2);
        assert(s.remove(i).last() == s.last());
    }
}

/// Every entry contributes at most the whole sum.
pub proof fn lemma_sum_balances_term(s: Seq<((Ticker, IdentityId), u128)>, i: int, t2: Ticker)
    requires
        0 <= i < s.len(),
    ensures
        spec_balance_contrib(s[i], t2) <= spec_sum_balances_for(s, t2),
    decreases s.len(),
{
    if i == s.len() - 1 {
        lemma_sum_balances_nonneg(s.drop_last(), t2);
    } else {
        assert(s.drop_last()[i] == s[i]);
        lemma_sum_balances_term(s.drop_last(), i, t2);
    }
}

/// Looking a key up ignores an unrelated last entry.
pub proof fn lemma_assoc_get_drop_last<K, V>(s: Seq<(K, V)>, k: K)
    requires
        s.len() > 0,
        s.last().0 != k,
    ensures
        spec_assoc_get(s.drop_last(), k) == spec_assoc_get(s, k),
{
    lemma_assoc_index_of(s, k);
    let i = spec_assoc_index_of(s, k);
    if i < s.len() {
        assert(i != s.len() - 1);
        assert forall|j: int| 0 <= j < i implies (#[trigger] s.drop_last()[j]).0 != k by {
            assert(s.drop_last()[j] == s[j]);
        }
        assert(s.drop_last()[i] == s[i]);
        lemma_assoc_index_of_is(s.drop_last(), k, i);
    } else {
        assert forall|j: int| 0 <= j < s.drop_last().len() implies (#[trigger] s.drop_last()[
        j]).0 != k by {
            assert(s.drop_last()[j] == s[j]);
        }
        lemma_assoc_index_of_absent(s.drop_last(), k);
    }
}

/// Scope sums are never negative.
pub proof fn lemma_scope_sum_nonneg(
    bindings: Seq<((Ticker, IdentityId), ScopeId)>,
    balances: Seq<((Ticker, IdentityId), u128)>,
    t: Ticker,
    s: ScopeId,
)
    ensures
        spec_sum_scope_balances(bindings, balances, t, s) >= 0,
    decreases bindings.len(),
{
    if bindings.len() > 0 {
        lemma_scope_sum_nonneg(bindings.drop_last(), balances, t, s);
    }
}

/// Two balance maps that agree on every key of ticker `t` give the
/// same scope sums under `t`.
pub proof fn lemma_scope_sum_congruence(
    bindings: Seq<((Ticker, IdentityId), ScopeId)>,
    b1: Seq<((Ticker, IdentityId), u128)>,
    b2: Seq<((Ticker, IdentityId), u128)>,
    t: Ticker,
    s: ScopeId,
)
    requires
        forall|d: IdentityId|
            (match #[trigger] spec_assoc_get(b1, (t, d)) {
                Some(v) => v as int,
                None => 0int,
            }) == (match spec_assoc_get(b2, (t, d)) {
                Some(v) => v as int,
                None => 0int,
            }),
    ensures
        spec_sum_scope_balances(bindings, b1, t, s) == spec_sum_scope_balances(bindings, b2, t, s),
    decreases bindings.len(),
{
    if bindings.len() > 0 {
        lemma_scope_sum_congruence(bindings.drop_last(), b1, b2, t, s);
        if bindings.last().0.0 == t && bindings.last().1 == s {
            assert((match spec_assoc_get(b1, (t, bindings.last().0.1)) {
                Some(v) => v as int,
                None => 0int,
            }) == (match spec_assoc_get(b2, (t, bindings.last().0.1)) {
                Some(v) => v as int,
                None => 0int,
            }));
        }
    }
}

/// A key present at the last entry and nowhere earlier reads as that
/// entry's value.
pub proof fn lemma_assoc_get_last<K, V>(s: Seq<(K, V)>)
    requires
        spec_keys_unique(s),
        s.len() > 0,
    ensures
        spec_assoc_get(s, s.last().0) == Some(s.last().1),
{
    assert forall|j: int| 0 <= j < s.len() - 1 implies (#[trigger] s[j]).0 != s.last().0 by {
        assert(s[j].0 != s[s.len() - 1].0);
    }
    lemma_assoc_index_of_is(s, s.last().0, s.len() - 1);
}

/// Rewriting one balance entry moves exactly the scope sum of the
/// scope its identity is bound to under the entry's ticker.
pub proof fn lemma_scope_sum_balances_update(
    bindings: Seq<((Ticker, IdentityId), ScopeId)>,
    balances: Seq<((Ticker, IdentityId), u128)>,
    i: int,
    v: u128,
    t2: Ticker,
    s2: ScopeId,
)
    requires
        spec_keys_unique(bindings),
        spec_keys_unique(balances),
        0 <= i < balances.len(),
    ensures
        spec_sum_scope_balances(bindings, balances.update(i, (balances[i].0, v)), t2, s2)
            == spec_sum_scope_balances(bindings, balances, t2, s2) + (
        if balances[i].0.0 == t2 && spec_assoc_get(bindings, balances[i].0) == Some(s2) {
            v - balances[i].1
        } else {
            0int
        }),
    decreases bindings.len(),
{
    let bk = balances[i].0;
    let balances2 = balances.update(i, (bk, v));
    lemma_assoc_index_of_is(balances, bk, i);
    crate::vecmap::lemma_assoc_get_update(balances, i, v, bk);
    if bindings.len() > 0 {
        lemma_scope_sum_balances_update(bindings.drop_last(), balances, i, v, t2, s2);
        let last = bindings.last();
        if last.0 == bk {
            lemma_assoc_get_last(bindings);
            assert forall|j: int| 0 <= j < bindings.drop_last().len() implies (
            #[trigger] bindings.drop_last()[j]).0 != bk by {
                assert(bindings.drop_last()[j] == bindings[j]);
            }
            lemma_assoc_index_of_absent(bindings.drop_last(), bk);
        } else {
            lemma_assoc_get_drop_last(bindings, bk);
            if last.0.0 == t2 && last.1 == s2 {
                let key = (t2, last.0.1);
                assert(key != bk);
                crate::vecmap::lemma_assoc_get_update(balances, i, v, key);
            }
        }
    }
}

/// Appending a fresh balance entry moves exactly the scope sum of the
/// scope its identity is bound to under the entry's ticker.
pub proof fn lemma_scope_sum_balances_push(
    bindings: Seq<((Ticker, IdentityId), ScopeId)>,
    balances: Seq<((Ticker, IdentityId), u128)>,
    e: ((Ticker, IdentityId), u128),
    t2: Ticker,
    s2: ScopeId,
)
    requires
        spec_keys_unique(bindings),
        spec_keys_unique(balances),
        !spec_assoc_contains(balances, e.0),
    ensures
        spec_sum_scope_balances(bindings, balances.push(e), t2, s2) == spec_sum_scope_balances(
            bindings,
            balances,
            t2,
            s2,
        ) + (if e.0.0 == t2 && spec_assoc_get(bindings, e.0) == Some(s2) {
            e.1 as int
        } else {
            0int
        }),
    decreases bindings.len(),
{
    let bk = e.0;
    let balances2 = balances.push(e);
    crate::vecmap::lemma_assoc_get_push(balances, bk, e.1, bk);
    if bindings.len() > 0 {
        lemma_scope_sum_balances_push(bindings.drop_last(), balances, e, t2, s2);
        let last = bindings.last();
        if last.0 == bk {
            lemma_assoc_get_last(bindings);
            assert forall|j: int| 0 <= j < bindings.drop_last().len() implies (
            #[trigger] bindings.drop_last()[j]).0 != bk by {
                assert(bindings.drop_last()[j] == bindings[j]);
            }
            lemma_assoc_index_of_absent(bindings.drop_last(), bk);
        } else {
            lemma_assoc_get_drop_last(bindings, bk);
            if last.0.0 == t2 && last.1 == s2 {
                let key = (t2, last.0.1);
                assert(key != bk);
                crate::vecmap::lemma_assoc_get_push(balances, bk, e.1, key);
            }
        }
    }
}

/// Rebinding one identity's scope moves its balance from the old
/// scope's sum to the new one's, under the binding's ticker.
pub proof fn lemma_scope_sum_bindings_update(
    bindings: Seq<((Ticker, IdentityId), ScopeId)>,
    balances: Seq<((Ticker, IdentityId), u128)>,
    i: int,
    new_scope: ScopeId,
    t2: Ticker,
    s2: ScopeId,
)
    requires
        0 <= i < bindings.len(),
    ensures
        spec_sum_scope_balances(bindings.update(i, (bindings[i].0, new_scope)), balances, t2, s2)
            == spec_sum_scope_balances(bindings, balances, t2, s2) - (
        if bindings[i].0.0 == t2 && bindings[i].1 == s2 {
            (match spec_assoc_get(balances, (t2, bindings[i].0.1)) {
                Some(v) => v as int,
                None => 0int,
            })
        } else {
            0int
        }) + (if bindings[i].0.0 == t2 && new_scope == s2 {
            (match spec_assoc_get(balances, (t2, bindings[i].0.1)) {
                Some(v) => v as int,
                None => 0int,
            })
        } else {
            0int
        }),
    decreases bindings.len(),
{
    let u = bindings.update(i, (bindings[i].0, new_scope));
    if i == bindings.len() - 1 {
        assert(u.drop_last() =~= bindings.drop_last());
    } else {
        assert(u.drop_last() =~= bindings.drop_last().update(i, (bindings[i].0, new_scope)));
        assert(bindings.drop_last()[i] == bindings[i]);
        lemma_scope_sum_bindings_update(bindings.drop_last(), balances, i, new_scope, t2, s2);
        assert(u.last() == bindings.last());
    }
}

/// Appending a binding adds exactly the bound identity's balance to
/// the matching scope sum.
pub proof fn lemma_scope_sum_bindings_push(
    bindings: Seq<((Ticker, IdentityId), ScopeId)>,
    balances: Seq<((Ticker, IdentityId), u128)>,
    e: ((Ticker, IdentityId), ScopeId),
    t2: Ticker,
    s2: ScopeId,
)
    ensures
        spec_sum_scope_balances(bindings.push(e), balances, t2, s2) == spec_sum_scope_balances(
            bindings,
            balances,
            t2,
            s2,
        ) + (if e.0.0 == t2 && e.1 == s2 {
            (match spec_assoc_get(balances, (t2, e.0.1)) {
                Some(v) => v as int,
                None => 0int,
            })
        } else {
            0int
        }),
{
    assert(bindings.push(e).drop_last() =~= bindings);
}

/// The balance read through one matching binding is at most the whole
/// scope sum.
pub proof fn lemma_scope_sum_term(
    bindings: Seq<((Ticker, IdentityId), ScopeId)>,
    balances: Seq<((Ticker, IdentityId), u128)>,
    i: int,
    t2: Ticker,
    s2: ScopeId,
)
    requires
        0 <= i < bindings.len(),
        bindings[i].0.0 == t2,
        bindings[i].1 == s2,
    ensures
        (match spec_assoc_get(balances, (t2, bindings[i].0.1)) {
            Some(v) => v as int,
            None => 0int,
        }) <= spec_sum_scope_balances(bindings, balances, t2, s2),
    decreases bindings.len(),
{
    if i == bindings.len() - 1 {
        lemma_scope_sum_nonneg(bindings.drop_last(), balances, t2, s2);
    } else {
        assert(bindings.drop_last()[i] == bindings[i]);
        lemma_scope_sum_term(bindings.drop_last(), balances, i, t2, s2);
    }
}

/// A scope sum never exceeds the ticker's whole balance sum: distinct
/// bindings read distinct balance entries.
pub proof fn lemma_scope_sum_le(
    bindings: Seq<((Ticker, IdentityId), ScopeId)>,
    balances: Seq<((Ticker, IdentityId), u128)>,
    t: Ticker,
    s: ScopeId,
)
    requires
        spec_keys_unique(bindings),
        spec_keys_unique(balances),
    ensures
        spec_sum_scope_balances(bindings, balances, t, s) <= spec_sum_balances_for(balances, t),
    decreases bindings.len(),
{
    if bindings.len() == 0 {
        lemma_sum_balances_nonneg(balances, t);
    } else {
        let b = bindings.last();
        let rest = bindings.drop_last();
        if b.0.0 == t && b.1 == s {
            let key = (t, b.0.1);
            lemma_assoc_index_of(balances, key);
            let bi = spec_assoc_index_of(balances, key);
            if bi < balances.len() {
                let shrunk = balances.remove(bi);
                crate::vecmap::lemma_assoc_get_remove(balances, bi, key);
                assert forall|d: IdentityId| spec_assoc_get(shrunk, (t, d)) == spec_assoc_get(
                    balances,
                    (t, d),
                ) || (t, d) == key by {
                    if (t, d) != key {
                        crate::vecmap::lemma_assoc_get_remove(balances, bi, (t, d));
                    }
                }
                // Every remaining binding reads a different key, so the
                // shrunk balance map gives it the same value.
                assert forall|d: IdentityId|
                    d != b.0.1 implies spec_assoc_get(shrunk, (t, d)) == spec_assoc_get(
                    balances,
                    (t, d),
                ) by {
                    crate::vecmap::lemma_assoc_get_remove(balances, bi, (t, d));
                }
                lemma_scope_sum_le(rest, shrunk, t, s);
                lemma_sum_balances_remove(balances, bi, t);
                // The remaining bindings never read `key`: their keys
                // differ from the removed binding's key.
                lemma_scope_sum_same_except(rest, shrunk, balances, t, s, b.0.1);
            } else {
                lemma_scope_sum_le(rest, balances, t, s);
            }
        } else {
            lemma_scope_sum_le(rest, balances, t, s);
        }
    }
}

impl Ledger {
    /// Writes one per-identity balance and accounts for exactly how
    /// the per-ticker sums and the scope sums move.
    pub(crate) fn set_balance_internal(&mut self, t: Ticker, did: IdentityId, v: u128)
        requires
            old(self).wf_unique(),
        ensures
            final(self).wf_unique(),
            final(self).same_identity_state(*old(self)),
            final(self).same_registry(*old(self)),
            final(self).same_portfolios(*old(self)),
            final(self).same_compliance(*old(self)),
            final(self).same_config(*old(self)),
            final(self).balance_at_scope@ == old(self).balance_at_scope@,
            final(self).aggregate_balance@ == old(self).aggregate_balance@,
            final(self).scope_id_of@ == old(self).scope_id_of@,
            final(self).identifiers@ == old(self).identifiers@,
            final(self).issued_in_funding_round@ == old(self).issued_in_funding_round@,
            final(self).spec_balance(t, did) == v,
            forall|k2: (Ticker, IdentityId)|
                k2 != (t, did) ==> spec_assoc_get(final(self).balance_of@, k2) == spec_assoc_get(
                    old(self).balance_of@,
                    k2,
                ),
            forall|t2: Ticker|
                spec_sum_balances_for(final(self).balance_of@, t2) == spec_sum_balances_for(
                    old(self).balance_of@,
                    t2,
                ) + (if t2 == t {
                    v - old(self).spec_balance(t, did)
                } else {
                    0int
                }),
            forall|t2: Ticker, s2: ScopeId|
                spec_sum_scope_balances(
                    final(self).scope_id_of@,
                    final(self).balance_of@,
                    t2,
                    s2,
                ) == spec_sum_scope_balances(
                    old(self).scope_id_of@,
                    old(self).balance_of@,
                    t2,
                    s2,
                ) + (if t2 == t && old(self).spec_scope_id_of(t, did) == Some(s2) {
                    v - old(self).spec_balance(t, did)
                } else {
                    0int
                }),
    {
        let ghost oldb = self.balance_of@;
        let ghost bindings = self.scope_id_of@;
        assoc_insert(&mut self.balance_of, (t, did), v);
        proof {
            lemma_assoc_index_of(oldb, (t, did));
            let i = spec_assoc_index_of(oldb, (t, did));
            if i < oldb.len() {
                assert(oldb[i].0 == (t, did));
                assert forall|t2: Ticker|
                    spec_sum_balances_for(self.balance_of@, t2) == spec_sum_balances_for(oldb, t2)
                        + (if t2 == t {
                        v - oldb[i].1
                    } else {
                        0int
                    }) by {
                    lemma_sum_balances_update(oldb, i, v, t2);
                }
                assert forall|t2: Ticker, s2: ScopeId|
                    spec_sum_scope_balances(bindings, self.balance_of@, t2, s2)
                        == spec_sum_scope_balances(bindings, oldb, t2, s2) + (
                    if t2 == t && spec_assoc_get(bindings, (t, did)) == Some(s2) {
                        v - oldb[i].1
                    } else {
                        0int
                    }) by {
                    lemma_scope_sum_balances_update(bindings, oldb, i, v, t2, s2);
                }
            } else {
                assert forall|t2: Ticker|
                    spec_sum_balances_for(self.balance_of@, t2) == spec_sum_balances_for(oldb, t2)
                        + (if t2 == t {
                        v as int
                    } else {
                        0int
                    }) by {
                    lemma_sum_balances_push(oldb, ((t, did), v), t2);
                }
                assert forall|t2: Ticker, s2: ScopeId|
                    spec_sum_scope_balances(bindings, self.balance_of@, t2, s2)
                        == spec_sum_scope_balances(bindings, oldb, t2, s2) + (
                    if t2 == t && spec_assoc_get(bindings, (t, did)) == Some(s2) {
                        v as int
                    } else {
                        0int
                    }) by {
                    lemma_scope_sum_balances_push(bindings, oldb, ((t, did), v), t2, s2);
                }
            }
        }
    }

    /// Adjusts one scope's aggregate by the transferred amount,
    /// saturating defensively, and records the identity's new balance
    /// under its scope. The caller re-establishes the ledger
    /// invariants once every index of the transfer has been updated.
    pub fn update_scope_balance(
        &mut self,
        ticker: &Ticker,
        value: u128,
        scope_id: ScopeId,
        did: IdentityId,
        updated_balance: u128,
        is_sender: bool,
    )
        requires
            old(self).wf_unique(),
        ensures
            final(self).wf_unique(),
            final(self).same_identity_state(*old(self)),
            final(self).same_registry(*old(self)),
            final(self).same_portfolios(*old(self)),
            final(self).same_compliance(*old(self)),
            final(self).same_config(*old(self)),
            final(self).balance_of@ == old(self).balance_of@,
            final(self).scope_id_of@ == old(self).scope_id_of@,
            final(self).identifiers@ == old(self).identifiers@,
            final(self).issued_in_funding_round@ == old(self).issued_in_funding_round@,
            final(self).spec_aggregate_balance(*ticker, scope_id) == (if is_sender {
                if old(self).spec_aggregate_balance(*ticker, scope_id) >= value {
                    (old(self).spec_aggregate_balance(*ticker, scope_id) - value) as u128
                } else {
                    0u128
                }
            } else {
                if old(self).spec_aggregate_balance(*ticker, scope_id) + value <= u128::MAX {
                    (old(self).spec_aggregate_balance(*ticker, scope_id) + value) as u128
                } else {
                    u128::MAX
                }
            }),
            forall|k2: (Ticker, ScopeId)|
                k2 != (*ticker, scope_id) ==> spec_assoc_get(final(self).aggregate_balance@, k2)
                    == spec_assoc_get(old(self).aggregate_balance@, k2),
            final(self).spec_balance_at_scope(scope_id, did) == updated_balance,
            forall|k2: (ScopeId, IdentityId)|
                k2 != (scope_id, did) ==> spec_assoc_get(final(self).balance_at_scope@, k2)
                    == spec_assoc_get(old(self).balance_at_scope@, k2),
    {
        let aggregate: u128 = self.aggregate_balance_of(ticker, &scope_id);
        let new_aggregate: u128 = if is_sender {
            if aggregate >= value {
                aggregate - value
            } else {
                0
            }
        } else {
            if aggregate <= u128::MAX - value {
                aggregate + value
            } else {
                u128::MAX
            }
        };
        assoc_insert(&mut self.aggregate_balance, (*ticker, scope_id), new_aggregate);
        assoc_insert(&mut self.balance_at_scope, (scope_id, did), updated_balance);
    }
}

impl Ledger {
    /// Whether `scope_id` is free to serve `ticker`: it is not bound
    /// under any other ticker.
    pub fn scope_available_for(&self, scope_id: &ScopeId, ticker: &Ticker) -> (r: bool)
        ensures
            r == (forall|i: int|
                0 <= i < self.scope_id_of@.len() && (#[trigger] self.scope_id_of@[i]).1 == *scope_id
                    ==> self.scope_id_of@[i].0.0 == *ticker),
    {
        let mut i: usize = 0;
        #[verifier::loop_isolation(false)]
        while i < self.scope_id_of.len()
            invariant
                i <= self.scope_id_of@.len(),
                forall|k: int|
                    0 <= k < i && (#[trigger] self.scope_id_of@[k]).1 == *scope_id
                        ==> self.scope_id_of@[k].0.0 == *ticker,
            decreases self.scope_id_of@.len() - i,
        {
            let bound_ticker: Ticker = self.scope_id_of[i].0.0;
            let bound_scope: ScopeId = self.scope_id_of[i].1;
            if bound_scope == *scope_id && !(bound_ticker == *ticker) {
                return false;
            }
            i = i + 1;
        }
        true
    }

    /// Binds `target_did` to `scope_id` for `ticker` (registering an
    /// investor-uniqueness scope claim): any earlier scope's records
    /// are cleared and its aggregate reduced, and the identity's
    /// current balance is carried into the new scope's aggregate,
    /// unless it is already counted there.
    ///
    /// A scope id serves a single ticker, so the binding must not
    /// reuse a scope id already bound under a different ticker.
    pub fn update_balance_of_scope_id(
        &mut self,
        scope_id: ScopeId,
        target_did: IdentityId,
        ticker: Ticker,
    )
        requires
            old(self).wf(),
            forall|i: int|
                0 <= i < old(self).scope_id_of@.len() && (#[trigger] old(self).scope_id_of@[i]).1
                    == scope_id ==> old(self).scope_id_of@[i].0.0 == ticker,
        ensures
            final(self).wf(),
            final(self).same_identity_state(*old(self)),
            final(self).same_registry(*old(self)),
            final(self).same_portfolios(*old(self)),
            final(self).same_compliance(*old(self)),
            final(self).same_config(*old(self)),
            final(self).balance_of@ == old(self).balance_of@,
            final(self).spec_scope_id_of(ticker, target_did) == Some(scope_id),
            forall|k2: (Ticker, IdentityId)|
                k2 != (ticker, target_did) ==> spec_assoc_get(final(self).scope_id_of@, k2)
                    == spec_assoc_get(old(self).scope_id_of@, k2),
            final(self).spec_balance_at_scope(scope_id, target_did) == final(self).spec_balance(
                ticker,
                target_did,
            ),
    {
        let ghost s0 = *old(self);
        let ghost bindings0 = s0.scope_id_of@;
        let ghost balances0 = s0.balance_of@;
        let ghost cur = s0.spec_balance(ticker, target_did);
        let old_scope_opt: Option<ScopeId> = self.scope_id_of(&ticker, &target_did);
        match old_scope_opt {
            Some(old_scope) => {
                proof {
                    lemma_get_entry(bindings0, (ticker, target_did));
                }
                let ghost i0 = spec_assoc_index_of(bindings0, (ticker, target_did));
                // The old scope stops counting this identity.
                let target_balance: u128 = self.balance_of_at_scope(&old_scope, &target_did);
                proof {
                    // The recorded scope balance is the identity's
                    // ticker balance.
                    assert(s0.spec_balance_at_scope(bindings0[i0].1, bindings0[i0].0.1)
                        == s0.spec_balance(bindings0[i0].0.0, bindings0[i0].0.1));
                    assert(target_balance == cur);
                }
                assoc_insert(&mut self.balance_at_scope, (old_scope, target_did), 0u128);
                let aggregate: u128 = self.aggregate_balance_of(&ticker, &old_scope);
                proof {
                    // The aggregate holds at least this identity's
                    // balance, so the subtraction never saturates.
                    assert(s0.spec_aggregate_balance(ticker, old_scope) == spec_sum_scope_balances(
                        bindings0,
                        balances0,
                        ticker,
                        old_scope,
                    ));
                    lemma_scope_sum_term(bindings0, balances0, i0, ticker, old_scope);
                }
                let new_aggregate: u128 = if aggregate >= target_balance {
                    aggregate - target_balance
                } else {
                    0
                };
                assoc_insert(&mut self.aggregate_balance, (ticker, old_scope), new_aggregate);
            },
            None => {},
        }
        let bal_at: u128 = self.balance_of_at_scope(&scope_id, &target_did);
        let current: u128 = self.balance_of(&ticker, &target_did);
        proof {
            // The identity cannot already be counted under the new
            // scope: a nonzero record would need a binding of this
            // identity to `scope_id`, which by the single-ticker rule
            // could only be this ticker's own binding.
            if bal_at != 0 {
                match old_scope_opt {
                    Some(old_scope) => {
                        if old_scope != scope_id {
                            assert(spec_assoc_get(self.balance_at_scope@, (scope_id, target_did))
                                == spec_assoc_get(s0.balance_at_scope@, (scope_id, target_did)));
                            lemma_get_entry(s0.balance_at_scope@, (scope_id, target_did));
                            let e = spec_assoc_index_of(s0.balance_at_scope@, (scope_id, target_did));
                            assert(s0.spec_scope_entry_bound(scope_id, target_did));
                            let t2 = choose|t2: Ticker|
                                #[trigger] s0.spec_scope_id_of(t2, target_did) == Some(scope_id);
                            lemma_get_entry(bindings0, (t2, target_did));
                            let j = spec_assoc_index_of(bindings0, (t2, target_did));
                            assert(bindings0[j].1 == scope_id);
                            assert(t2 == ticker);
                            lemma_get_entry(bindings0, (ticker, target_did));
                        }
                    },
                    None => {
                        lemma_get_entry(s0.balance_at_scope@, (scope_id, target_did));
                        let e = spec_assoc_index_of(s0.balance_at_scope@, (scope_id, target_did));
                        assert(s0.spec_scope_entry_bound(scope_id, target_did));
                        let t2 = choose|t2: Ticker|
                            #[trigger] s0.spec_scope_id_of(t2, target_did) == Some(scope_id);
                        lemma_get_entry(bindings0, (t2, target_did));
                        let j = spec_assoc_index_of(bindings0, (t2, target_did));
                        assert(bindings0[j].1 == scope_id);
                        assert(t2 == ticker);
                    },
                }
            }
            assert(bal_at == 0);
        }
        let ghost b1 = (match spec_assoc_get(bindings0, (ticker, target_did)) {
            Some(_) => bindings0.update(
                spec_assoc_index_of(bindings0, (ticker, target_did)),
                ((ticker, target_did), scope_id),
            ),
            None => bindings0.push(((ticker, target_did), scope_id)),
        });
        proof {
            // The rebound index keeps its sums except that this
            // identity's balance moves between the two scopes.
            match old_scope_opt {
                Some(_) => {
                    let i0 = spec_assoc_index_of(bindings0, (ticker, target_did));
                    lemma_get_entry(bindings0, (ticker, target_did));
                    assert forall|t2: Ticker, s2: ScopeId|
                        spec_sum_scope_balances(b1, balances0, t2, s2) == spec_sum_scope_balances(
                            bindings0,
                            balances0,
                            t2,
                            s2,
                        ) - (if t2 == ticker && bindings0[i0].1 == s2 {
                            cur as int
                        } else {
                            0int
                        }) + (if t2 == ticker && scope_id == s2 {
                            cur as int
                        } else {
                            0int
                        }) by {
                        lemma_scope_sum_bindings_update(bindings0, balances0, i0, scope_id, t2, s2);
                    }
                },
                None => {
                    assert forall|t2: Ticker, s2: ScopeId|
                        spec_sum_scope_balances(b1, balances0, t2, s2) == spec_sum_scope_balances(
                            bindings0,
                            balances0,
                            t2,
                            s2,
                        ) + (if t2 == ticker && scope_id == s2 {
                            cur as int
                        } else {
                            0int
                        }) by {
                        lemma_scope_sum_bindings_push(
                            bindings0,
                            balances0,
                            ((ticker, target_did), scope_id),
                            t2,
                            s2,
                        );
                    }
                },
            }
            // The uniqueness of binding keys survives the rebinding.
            match spec_assoc_get(bindings0, (ticker, target_did)) {
                Some(_) => {
                    assert(spec_keys_unique(b1));
                },
                None => {
                    lemma_assoc_index_of(bindings0, (ticker, target_did));
                    assert forall|a: int, b: int| 0 <= a < b < b1.len() implies (
                    #[trigger] b1[a]).0 != (#[trigger] b1[b]).0 by {
                        if b == b1.len() - 1 {
                            assert(bindings0[a].0 != (ticker, target_did));
                        }
                    }
                },
            }
            lemma_scope_sum_le(b1, balances0, ticker, scope_id);
            assert(spec_sum_balances_for(balances0, ticker) == s0.spec_total_supply(ticker));
        }
        if bal_at == 0 {
            // Carry the identity's balance into the new scope: the
            // grown aggregate is the new scope sum, which is bounded
            // by the ticker's total supply.
            assoc_insert(&mut self.balance_at_scope, (scope_id, target_did), current);
            let aggregate2: u128 = self.aggregate_balance_of(&ticker, &scope_id);
            proof {
                assert(current == cur);
                let ghost s0_sum = spec_sum_scope_balances(bindings0, balances0, ticker, scope_id);
                assert(s0.spec_aggregate_balance(ticker, scope_id) == s0_sum);
                match old_scope_opt {
                    Some(old_scope) => {
                        if old_scope == scope_id {
                            assert(aggregate2 == s0_sum - cur);
                        } else {
                            assert(spec_assoc_get(self.aggregate_balance@, (ticker, scope_id))
                                == spec_assoc_get(s0.aggregate_balance@, (ticker, scope_id)));
                            assert(aggregate2 == s0_sum);
                        }
                    },
                    None => {
                        assert(aggregate2 == s0_sum);
                    },
                }
                assert(aggregate2 + current == spec_sum_scope_balances(
                    b1,
                    balances0,
                    ticker,
                    scope_id,
                ));
            }
            assoc_insert(&mut self.aggregate_balance, (ticker, scope_id), aggregate2 + current);
        }
        assoc_insert(&mut self.scope_id_of, (ticker, target_did), scope_id);
        proof {
            assert(self.scope_id_of@ == b1);
            let s1 = *self;
            crate::state::lemma_wf_ownership_frame(s0, s1);
            // Requirement ids and conservation are untouched.
            assert forall|t2: Ticker, j: int|
                0 <= j < s1.spec_requirements(t2).len() implies (#[trigger] s1.spec_requirements(
                t2,
            )[j]).id <= s1.spec_counter(t2) by {
                assert(s1.spec_requirements(t2) == s0.spec_requirements(t2));
                assert(s0.spec_requirements(t2)[j].id <= s0.spec_counter(t2));
            }
            assert forall|t2: Ticker| #[trigger] spec_sum_balances_for(s1.balance_of@, t2)
                == s1.spec_total_supply(t2) by {
                assert(spec_sum_balances_for(s0.balance_of@, t2) == s0.spec_total_supply(t2));
            }
            // One scope, one ticker.
            assert forall|a: int, b: int|
                0 <= a < s1.scope_id_of@.len() && 0 <= b < s1.scope_id_of@.len() && (
                #[trigger] s1.scope_id_of@[a]).1 == (#[trigger] s1.scope_id_of@[b]).1 implies
                s1.scope_id_of@[a].0.0 == s1.scope_id_of@[b].0.0 by {
                let special: int = (match spec_assoc_get(bindings0, (ticker, target_did)) {
                    Some(_) => spec_assoc_index_of(bindings0, (ticker, target_did)),
                    None => bindings0.len() as int,
                });
                if a != special && b != special {
                    assert(s1.scope_id_of@[a] == bindings0[a] && s1.scope_id_of@[b]
                        == bindings0[b]);
                } else if a == special && b != special {
                    assert(s1.scope_id_of@[b] == bindings0[b]);
                    assert(bindings0[b].1 == scope_id ==> bindings0[b].0.0 == ticker);
                } else if a != special && b == special {
                    assert(s1.scope_id_of@[a] == bindings0[a]);
                    assert(bindings0[a].1 == scope_id ==> bindings0[a].0.0 == ticker);
                }
            }
            // Every binding's recorded scope balance is its ticker
            // balance.
            assert forall|k: int|
                0 <= k < s1.scope_id_of@.len() implies s1.spec_balance_at_scope(
                (#[trigger] s1.scope_id_of@[k]).1,
                s1.scope_id_of@[k].0.1,
            ) == s1.spec_balance(s1.scope_id_of@[k].0.0, s1.scope_id_of@[k].0.1) by {
                let special: int = (match spec_assoc_get(bindings0, (ticker, target_did)) {
                    Some(_) => spec_assoc_index_of(bindings0, (ticker, target_did)),
                    None => bindings0.len() as int,
                });
                if k == special {
                    assert(s1.spec_balance_at_scope(scope_id, target_did) == cur);
                } else {
                    let e = bindings0[k];
                    assert(s1.scope_id_of@[k] == e);
                    assert(s0.spec_balance_at_scope(e.1, e.0.1) == s0.spec_balance(
                        e.0.0,
                        e.0.1,
                    ));
                    assert(e.0 != (ticker, target_did)) by {
                        if e.0 == (ticker, target_did) {
                            lemma_entry_get(bindings0, k);
                        }
                    }
                    // The two rewritten scope-balance keys belong to
                    // rebound bindings only.
                    if e.1 == scope_id && e.0.1 == target_did {
                        assert(e.0.0 == ticker);
                    }
                    match old_scope_opt {
                        Some(old_scope) => {
                            let i0 = spec_assoc_index_of(bindings0, (ticker, target_did));
                            lemma_get_entry(bindings0, (ticker, target_did));
                            if e.1 == old_scope && e.0.1 == target_did {
                                assert(bindings0[i0].1 == old_scope);
                                assert(e.0.0 == ticker);
                                assert(false);
                            }
                            assert((e.1, e.0.1) != (scope_id, target_did) && (e.1, e.0.1) != (
                            old_scope,
                            target_did,
                            ));
                        },
                        None => {
                            assert((e.1, e.0.1) != (scope_id, target_did));
                        },
                    }
                    assert(s1.spec_balance_at_scope(e.1, e.0.1) == s0.spec_balance_at_scope(
                        e.1,
                        e.0.1,
                    ));
                }
            }
            // Aggregates match the new scope sums.
            assert forall|t2: Ticker, s2: ScopeId| #[trigger] s1.spec_aggregate_balance(t2, s2)
                == spec_sum_scope_balances(s1.scope_id_of@, s1.balance_of@, t2, s2) by {
                assert(s0.spec_aggregate_balance(t2, s2) == spec_sum_scope_balances(
                    bindings0,
                    balances0,
                    t2,
                    s2,
                ));
                match old_scope_opt {
                    Some(old_scope) => {
                        let i0 = spec_assoc_index_of(bindings0, (ticker, target_did));
                        lemma_get_entry(bindings0, (ticker, target_did));
                        if (t2, s2) == (ticker, scope_id) {
                        } else if t2 == ticker && s2 == old_scope {
                        } else {
                            assert(s1.spec_aggregate_balance(t2, s2) == s0.spec_aggregate_balance(
                                t2,
                                s2,
                            ));
                        }
                    },
                    None => {
                        if (t2, s2) == (ticker, scope_id) {
                        } else {
                            assert(s1.spec_aggregate_balance(t2, s2) == s0.spec_aggregate_balance(
                                t2,
                                s2,
                            ));
                        }
                    },
                }
            }
            // Every nonzero scope balance still belongs to a binding.
            assert forall|i: int|
                0 <= i < s1.balance_at_scope@.len() && (#[trigger] s1.balance_at_scope@[i]).1
                    != 0 implies s1.spec_scope_entry_bound(
                s1.balance_at_scope@[i].0.0,
                s1.balance_at_scope@[i].0.1,
            ) by {
                let e = s1.balance_at_scope@[i];
                lemma_entry_get(s1.balance_at_scope@, i);
                assert(s1.spec_scope_id_of(ticker, target_did) == Some(scope_id));
                if e.0 == (scope_id, target_did) {
                    assert(s1.spec_scope_entry_bound(scope_id, target_did));
                } else {
                    match old_scope_opt {
                        Some(old_scope) => {
                            if e.0 == (old_scope, target_did) {
                                assert(e.1 == 0);
                            } else {
                                assert(spec_assoc_get(s1.balance_at_scope@, e.0) == spec_assoc_get(
                                    s0.balance_at_scope@,
                                    e.0,
                                ));
                                lemma_get_entry(s0.balance_at_scope@, e.0);
                                let j = spec_assoc_index_of(s0.balance_at_scope@, e.0);
                                assert(s0.spec_scope_entry_bound(e.0.0, e.0.1));
                                let t3 = choose|t3: Ticker|
                                    #[trigger] s0.spec_scope_id_of(t3, e.0.1) == Some(e.0.0);
                                if (t3, e.0.1) == (ticker, target_did) {
                                    assert(e.0.0 == old_scope);
                                    assert(false);
                                }
                                assert(s1.spec_scope_id_of(t3, e.0.1) == Some(e.0.0));
                                assert(s1.spec_scope_entry_bound(e.0.0, e.0.1));
                            }
                        },
                        None => {
                            assert(spec_assoc_get(s1.balance_at_scope@, e.0) == spec_assoc_get(
                                s0.balance_at_scope@,
                                e.0,
                            ));
                            lemma_get_entry(s0.balance_at_scope@, e.0);
                            let j = spec_assoc_index_of(s0.balance_at_scope@, e.0);
                            assert(s0.spec_scope_entry_bound(e.0.0, e.0.1));
                            let t3 = choose|t3: Ticker|
                                #[trigger] s0.spec_scope_id_of(t3, e.0.1) == Some(e.0.0);
                            if (t3, e.0.1) == (ticker, target_did) {
                                assert(false);
                            }
                            assert(s1.spec_scope_id_of(t3, e.0.1) == Some(e.0.0));
                            assert(s1.spec_scope_entry_bound(e.0.0, e.0.1));
                        },
                    }
                }
            }
        }
    }
}

/// Two balance maps that agree on every ticker-`t` key except one
/// identity give the same scope sum over bindings that avoid that
/// identity.
proof fn lemma_scope_sum_same_except(
    bindings: Seq<((Ticker, IdentityId), ScopeId)>,
    b1: Seq<((Ticker, IdentityId), u128)>,
    b2: Seq<((Ticker, IdentityId), u128)>,
    t: Ticker,
    s: ScopeId,
    skip: IdentityId,
)
    requires
        forall|d: IdentityId|
            d != skip ==> spec_assoc_get(b1, (t, d)) == spec_assoc_get(b2, (t, d)),
        forall|j: int| 0 <= j < bindings.len() ==> (#[trigger] bindings[j]).0 != (t, skip),
    ensures
        spec_sum_scope_balances(bindings, b1, t, s) == spec_sum_scope_balances(bindings, b2, t, s),
    decreases bindings.len(),
{
    if bindings.len() > 0 {
        assert forall|j: int|
            0 <= j < bindings.drop_last().len() implies (#[trigger] bindings.drop_last()[j]).0
            != (t, skip) by {
            assert(bindings.drop_last()[j] == bindings[j]);
        }
        lemma_scope_sum_same_except(bindings.drop_last(), b1, b2, t, s, skip);
        let b = bindings.last();
        if b.0.0 == t && b.1 == s {
            assert(b.0 != (t, skip));
            assert(b.0.1 != skip);
        }
    }
}

} // verus!
