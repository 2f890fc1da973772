//! The ledger's global laws, stated once over well-formed states.
//! Every operation of the library requires a well-formed state and
//! ensures one, and `Ledger::new` builds one, so each law holds after
//! any sequence of operations.
use vstd::prelude::*;
use crate::state::{spec_sum_balances_for, spec_sum_scope_balances, Ledger};
use crate::types::{IdentityId, ScopeId, Ticker};

verus! {

/// Balance conservation: for every ticker, the per-identity balances
/// sum to the recorded total supply.
pub proof fn lemma_balance_conservation(l: Ledger, t: Ticker)
    requires
        l.wf(),
    ensures
        spec_sum_balances_for(l.balance_of@, t) == l.spec_total_supply(t),
{
}

/// Scope aggregate consistency: for every ticker and scope, the
/// recorded aggregate equals the sum, over the identities bound to
/// that scope, of their ticker balances; and the balance recorded
/// under each binding is exactly the bound identity's ticker balance.
pub proof fn lemma_scope_aggregate_consistency(l: Ledger, t: Ticker, s: ScopeId)
    requires
        l.wf(),
    ensures
        l.spec_aggregate_balance(t, s) == spec_sum_scope_balances(
            l.scope_id_of@,
            l.balance_of@,
            t,
            s,
        ),
        forall|i: int|
            0 <= i < l.scope_id_of@.len() ==> l.spec_balance_at_scope(
                (#[trigger] l.scope_id_of@[i]).1,
                l.scope_id_of@[i].0.1,
            ) == l.spec_balance(l.scope_id_of@[i].0.0, l.scope_id_of@[i].0.1),
{
}

/// Requirement id freshness: every stored requirement id is bounded by
/// the ticker's id counter, so the id the next insertion assigns (one
/// above the counter) is strictly greater than every id ever stored.
/// Insertion raises the counter, replacement never lowers it, and
/// removal and reset leave it in place, so assigned ids grow strictly
/// over time and are never reused.
pub proof fn lemma_requirement_id_fresh(l: Ledger, t: Ticker, j: int)
    requires
        l.wf(),
        0 <= j < l.spec_requirements(t).len(),
    ensures
        l.spec_requirements(t)[j].id < l.spec_counter(t) + 1,
{
    assert(l.spec_requirements(t)[j].id <= l.spec_counter(t));
}

/// Pause short-circuit: while an asset's compliance is paused, the
/// fail-fast verdict of the compliance engine admits every
/// transfer, whatever the rule set, the parties and the claims.
pub proof fn lemma_pause_short_circuit(
    l: Ledger,
    t: Ticker,
    from: Option<IdentityId>,
    to: Option<IdentityId>,
    pia: Option<IdentityId>,
)
    requires
        l.spec_paused(t),
    ensures
        l.spec_verify_restriction(t, from, to, pia),
{
}

/// One owner per ticker: any two ownership rows that hold a ticker or
/// its asset for the same ticker name the same identity — the
/// ticker's current registrant.
pub proof fn lemma_one_owner_per_ticker(l: Ledger, i: int, j: int)
    requires
        l.wf(),
        0 <= i < l.ownership@.len(),
        0 <= j < l.ownership@.len(),
        l.ownership@[i].0.1 == l.ownership@[j].0.1,
        !(l.ownership@[i].1 is NotOwned),
        !(l.ownership@[j].1 is NotOwned),
    ensures
        l.ownership@[i].0.0 == l.ownership@[j].0.0,
        l.spec_ticker_registration(l.ownership@[i].0.1) is Some,
        l.spec_ticker_registration(l.ownership@[i].0.1).unwrap().owner == l.ownership@[i].0.0,
{
    assert(!((l.ownership@[i]).1 is NotOwned));
    assert(!((l.ownership@[j]).1 is NotOwned));
}

/// An identity's balance never exceeds its ticker's total supply.
pub proof fn lemma_balance_within_supply(l: Ledger, t: Ticker, did: IdentityId)
    requires
        l.wf(),
    ensures
        l.spec_balance(t, did) <= l.spec_total_supply(t),
{
    crate::transfer::lemma_balance_le_sum(l, t, did);
}

/// A scope aggregate never exceeds its ticker's total supply.
pub proof fn lemma_aggregate_within_supply(l: Ledger, t: Ticker, s: ScopeId)
    requires
        l.wf(),
    ensures
        l.spec_aggregate_balance(t, s) <= l.spec_total_supply(t),
{
    crate::balances::lemma_scope_sum_le(l.scope_id_of@, l.balance_of@, t, s);
}

} // verus!
