//! The transfer validation pipeline and the ledger mutations behind
//! transfers, minting and redemption. Validation runs before any
//! write, so a rejected request leaves the state untouched, and every
//! accepted mutation updates all balance indices together.
use vstd::prelude::*;
use crate::state::{spec_sum_balances_for, spec_sum_scope_balances, Ledger};
use crate::types::{Error, IdentityId, PortfolioId, PortfolioKind, ScopeId, SecurityToken, Ticker};
use crate::vecmap::{
    assoc_get, assoc_insert, assoc_take, lemma_entry_get, lemma_get_entry, spec_assoc_get,
    spec_assoc_index_of,
};
use crate::{balances, ONE_UNIT};

verus! {

impl Ledger {
    /// An amount respects an asset's granularity when the asset is
    /// divisible or the amount is a whole number of units.
    pub open spec fn spec_check_granularity(self, t: Ticker, value: u128) -> bool {
        (match self.spec_token(t) {
            Some(tok) => tok.divisible,
            None => false,
        }) || value % (ONE_UNIT as u128) == 0
    }

    /// Whether `value` respects the granularity of `t`.
    pub fn check_granularity(&self, t: &Ticker, value: u128) -> (r: bool)
        ensures
            r == self.spec_check_granularity(*t, value),
    {
        let divisible: bool = match assoc_get(&self.tokens, t) {
            Some(tok) => tok.divisible,
            None => false,
        };
        divisible || value % ONE_UNIT == 0
    }

    /// A transfer misses its scope claims when either party has no
    /// scope bound for the ticker.
    pub open spec fn spec_missing_scope_claim(
        self,
        t: Ticker,
        from: IdentityId,
        to: IdentityId,
    ) -> bool {
        !(self.spec_scope_id_of(t, from) is Some && self.spec_scope_id_of(t, to) is Some)
    }

    /// Whether either party misses its investor-uniqueness scope claim.
    pub fn missing_scope_claim(&self, t: &Ticker, from: &IdentityId, to: &IdentityId) -> (r: bool)
        ensures
            r == self.spec_missing_scope_claim(*t, *from, *to),
    {
        let f: Option<ScopeId> = self.scope_id_of(t, from);
        let s: Option<ScopeId> = self.scope_id_of(t, to);
        !(f.is_some() && s.is_some())
    }

    /// The asset's primary issuance agent, or its owner when none is
    /// assigned; the zero identity when no asset exists.
    pub open spec fn spec_primary_issuance_agent_or_owner(self, t: Ticker) -> IdentityId {
        match self.spec_token(t) {
            Some(tok) => match tok.primary_issuance_agent {
                Some(pia) => pia,
                None => tok.owner_did,
            },
            None => IdentityId { hi: 0, lo: 0 },
        }
    }

    /// The asset's primary issuance agent, or its owner.
    pub fn primary_issuance_agent_or_owner(&self, t: &Ticker) -> (r: IdentityId)
        ensures
            r == self.spec_primary_issuance_agent_or_owner(*t),
    {
        match assoc_get(&self.tokens, t) {
            Some(tok) => match tok.primary_issuance_agent {
                Some(pia) => pia,
                None => tok.owner_did,
            },
            None => IdentityId { hi: 0, lo: 0 },
        }
    }

    /// Whether the portfolio exists: default portfolios always do.
    pub fn portfolio_exists(&self, p: &PortfolioId) -> (r: bool)
        ensures
            r == self.spec_portfolio_exists(*p),
    {
        match p.kind {
            PortfolioKind::Default => true,
            PortfolioKind::User(num) => crate::vecmap::assoc_contains(
                &self.portfolios,
                &(p.did, num),
            ),
        }
    }

    /// Per-portfolio balance of `p` for ticker `t`.
    pub fn portfolio_balance(&self, p: &PortfolioId, t: &Ticker) -> (r: u128)
        ensures
            r == self.spec_portfolio_balance(*p, *t),
    {
        match assoc_get(&self.portfolio_balances, &(*p, *t)) {
            Some(v) => *v,
            None => 0,
        }
    }

    /// Locked part of the portfolio balance of `p` for ticker `t`.
    pub fn locked_assets(&self, p: &PortfolioId, t: &Ticker) -> (r: u128)
        ensures
            r == self.spec_locked(*p, *t),
    {
        match assoc_get(&self.locked_assets, &(*p, *t)) {
            Some(v) => *v,
            None => 0,
        }
    }

    /// First reason a portfolio-level transfer would be invalid: equal
    /// portfolios, a missing portfolio, or too little free balance.
    pub open spec fn spec_portfolio_transfer_error(
        self,
        from: PortfolioId,
        to: PortfolioId,
        t: Ticker,
        amount: u128,
    ) -> Option<Error> {
        if from == to {
            Some(Error::DestinationIsSamePortfolio)
        } else if !self.spec_portfolio_exists(from) || !self.spec_portfolio_exists(to) {
            Some(Error::PortfolioDoesNotExist)
        } else if (if self.spec_portfolio_balance(from, t) >= self.spec_locked(from, t) {
            (self.spec_portfolio_balance(from, t) - self.spec_locked(from, t)) as u128
        } else {
            0u128
        }) < amount {
            Some(Error::InsufficientPortfolioBalance)
        } else {
            None
        }
    }

    /// Validates a portfolio-level transfer without touching anything.
    pub fn ensure_portfolio_transfer_validity(
        &self,
        from: &PortfolioId,
        to: &PortfolioId,
        t: &Ticker,
        amount: u128,
    ) -> (r: Result<(), Error>)
        ensures
            r == (match self.spec_portfolio_transfer_error(*from, *to, *t, amount) {
                Some(e) => Err::<(), Error>(e),
                None => Ok::<(), Error>(()),
            }),
    {
        if from.did == to.did && from.kind == to.kind {
            proof {
                assert(*from == *to);
            }
            return Err(Error::DestinationIsSamePortfolio);
        }
        proof {
            assert(*from != *to);
        }
        if !self.portfolio_exists(from) || !self.portfolio_exists(to) {
            return Err(Error::PortfolioDoesNotExist);
        }
        let balance: u128 = self.portfolio_balance(from, t);
        let locked: u128 = self.locked_assets(from, t);
        let free: u128 = if balance >= locked {
            balance - locked
        } else {
            0
        };
        if free < amount {
            return Err(Error::InsufficientPortfolioBalance);
        }
        Ok(())
    }

    /// Checks that `custodian` is the portfolio's custodian: the
    /// assigned identity, or the owner when none is assigned.
    pub fn ensure_portfolio_custody(&self, portfolio: PortfolioId, custodian: IdentityId) -> (r:
        Result<(), Error>)
        ensures
            r == (if self.spec_custodian(portfolio) == custodian {
                Ok::<(), Error>(())
            } else {
                Err::<(), Error>(Error::UnauthorizedCustodian)
            }),
    {
        let assigned: IdentityId = match assoc_get(&self.custodians, &portfolio) {
            Some(c) => *c,
            None => portfolio.did,
        };
        if assigned == custodian {
            Ok(())
        } else {
            Err(Error::UnauthorizedCustodian)
        }
    }

    /// Moves the per-portfolio balance without any validity check: the
    /// caller has already validated portfolios and free balance.
    pub fn unchecked_transfer_portfolio_balance(
        &mut self,
        from_portfolio: &PortfolioId,
        to_portfolio: &PortfolioId,
        ticker: &Ticker,
        amount: u128,
    )
        requires
            old(self).wf_unique(),
        ensures
            final(self).wf_unique(),
            final(self).same_identity_state(*old(self)),
            final(self).same_registry(*old(self)),
            final(self).same_balances(*old(self)),
            final(self).same_compliance(*old(self)),
            final(self).same_config(*old(self)),
            final(self).portfolios@ == old(self).portfolios@,
            final(self).next_portfolio_number@ == old(self).next_portfolio_number@,
            final(self).locked_assets@ == old(self).locked_assets@,
            final(self).custodians@ == old(self).custodians@,
            *from_portfolio != *to_portfolio ==> final(self).spec_portfolio_balance(
                *from_portfolio,
                *ticker,
            ) == (if old(self).spec_portfolio_balance(*from_portfolio, *ticker) >= amount {
                (old(self).spec_portfolio_balance(*from_portfolio, *ticker) - amount) as u128
            } else {
                0u128
            }),
            final(self).spec_portfolio_balance(*to_portfolio, *ticker) == (if old(self).spec_portfolio_balance(*to_portfolio, *ticker) + amount <= u128::MAX {
                (old(self).spec_portfolio_balance(*to_portfolio, *ticker) + amount) as u128
            } else {
                u128::MAX
            }) || *from_portfolio == *to_portfolio,
            forall|k2: (PortfolioId, Ticker)|
                k2 != (*from_portfolio, *ticker) && k2 != (*to_portfolio, *ticker)
                    ==> spec_assoc_get(final(self).portfolio_balances@, k2) == spec_assoc_get(
                    old(self).portfolio_balances@,
                    k2,
                ),
    {
        let from_balance: u128 = self.portfolio_balance(from_portfolio, ticker);
        let new_from: u128 = if from_balance >= amount {
            from_balance - amount
        } else {
            0
        };
        assoc_insert(&mut self.portfolio_balances, (*from_portfolio, *ticker), new_from);
        let to_balance: u128 = self.portfolio_balance(to_portfolio, ticker);
        let new_to: u128 = if to_balance <= u128::MAX - amount {
            to_balance + amount
        } else {
            u128::MAX
        };
        assoc_insert(&mut self.portfolio_balances, (*to_portfolio, *ticker), new_to);
    }

    /// Updates one party's per-identity balance and, when the party
    /// has a scope bound for the ticker, its scope balance and the
    /// scope's aggregate.
    fn adjust_side_internal(
        &mut self,
        ticker: Ticker,
        did: IdentityId,
        new_balance: u128,
        value: u128,
        is_sender: bool,
    )
        requires
            old(self).wf_unique(),
            is_sender ==> old(self).spec_balance(ticker, did) == new_balance + value,
            !is_sender ==> old(self).spec_balance(ticker, did) + value == new_balance,
        ensures
            final(self).wf_unique(),
            final(self).same_identity_state(*old(self)),
            final(self).same_registry(*old(self)),
            final(self).same_portfolios(*old(self)),
            final(self).same_compliance(*old(self)),
            final(self).same_config(*old(self)),
            final(self).scope_id_of@ == old(self).scope_id_of@,
            final(self).spec_balance(ticker, did) == new_balance,
            forall|k2: (Ticker, IdentityId)|
                k2 != (ticker, did) ==> spec_assoc_get(final(self).balance_of@, k2)
                    == spec_assoc_get(old(self).balance_of@, k2),
            forall|t2: Ticker|
                spec_sum_balances_for(final(self).balance_of@, t2) == spec_sum_balances_for(
                    old(self).balance_of@,
                    t2,
                ) + (if t2 == ticker {
                    new_balance - old(self).spec_balance(ticker, did)
                } else {
                    0int
                }),
            forall|t2: Ticker, s2: ScopeId|
                spec_sum_scope_balances(
                    final(self).scope_id_of@,
                    final(self).balance_of@,
                    t2,
                    s2,
                ) == spec_sum_scope_balances(
                    old(self).scope_id_of@,
                    old(self).balance_of@,
                    t2,
                    s2,
                ) + (if t2 == ticker && old(self).spec_scope_id_of(ticker, did) == Some(s2) {
                    new_balance - old(self).spec_balance(ticker, did)
                } else {
                    0int
                }),
            match old(self).spec_scope_id_of(ticker, did) {
                Some(s) => {
                    &&& final(self).spec_balance_at_scope(s, did) == new_balance
                    &&& (forall|k2: (ScopeId, IdentityId)|
                        k2 != (s, did) ==> spec_assoc_get(final(self).balance_at_scope@, k2)
                            == spec_assoc_get(old(self).balance_at_scope@, k2))
                    &&& final(self).spec_aggregate_balance(ticker, s) == (if is_sender {
                        if old(self).spec_aggregate_balance(ticker, s) >= value {
                            (old(self).spec_aggregate_balance(ticker, s) - value) as u128
                        } else {
                            0u128
                        }
                    } else {
                        if old(self).spec_aggregate_balance(ticker, s) + value <= u128::MAX {
                            (old(self).spec_aggregate_balance(ticker, s) + value) as u128
                        } else {
                            u128::MAX
                        }
                    })
                    &&& (forall|k2: (Ticker, ScopeId)|
                        k2 != (ticker, s) ==> spec_assoc_get(final(self).aggregate_balance@, k2)
                            == spec_assoc_get(old(self).aggregate_balance@, k2))
                },
                None => {
                    &&& final(self).balance_at_scope@ == old(self).balance_at_scope@
                    &&& final(self).aggregate_balance@ == old(self).aggregate_balance@
                },
            },
    {
        self.set_balance_internal(ticker, did, new_balance);
        let scope: Option<ScopeId> = self.scope_id_of(&ticker, &did);
        match scope {
            Some(s) => {
                self.update_scope_balance(&ticker, value, s, did, new_balance, is_sender);
            },
            None => {},
        }
    }

    /// Moves `value` of `ticker` between two identities' ledgers:
    /// per-identity balances with checked arithmetic, per-portfolio
    /// balances, and both parties' scope records and aggregates.
    /// Validation happens before any write.
    pub fn unsafe_transfer(
        &mut self,
        from_portfolio: PortfolioId,
        to_portfolio: PortfolioId,
        ticker: &Ticker,
        value: u128,
    ) -> (r: Result<(), Error>)
        requires
            old(self).wf(),
        ensures
            final(self).wf(),
            final(self).same_identity_state(*old(self)),
            final(self).same_registry(*old(self)),
            final(self).same_compliance(*old(self)),
            final(self).same_config(*old(self)),
            final(self).scope_id_of@ == old(self).scope_id_of@,
            final(self).spec_total_supply(*ticker) == old(self).spec_total_supply(*ticker),
            !old(self).spec_check_granularity(*ticker, value) ==> r == Err::<(), Error>(
                Error::InvalidGranularity,
            ) && *final(self) == *old(self),
            old(self).spec_check_granularity(*ticker, value) && from_portfolio.did
                == to_portfolio.did ==> r == Err::<(), Error>(Error::SenderSameAsReceiver)
                && *final(self) == *old(self),
            old(self).spec_check_granularity(*ticker, value) && from_portfolio.did
                != to_portfolio.did && old(self).spec_balance(*ticker, from_portfolio.did) < value
                ==> r == Err::<(), Error>(Error::InsufficientBalance) && *final(self) == *old(self),
            old(self).spec_check_granularity(*ticker, value) && from_portfolio.did
                != to_portfolio.did && old(self).spec_balance(*ticker, from_portfolio.did) >= value
                && old(self).spec_balance(*ticker, to_portfolio.did) + value > u128::MAX ==> r
                == Err::<(), Error>(Error::BalanceOverflow) && *final(self) == *old(self),
            old(self).spec_check_granularity(*ticker, value) && from_portfolio.did
                != to_portfolio.did && old(self).spec_balance(*ticker, from_portfolio.did) >= value
                && old(self).spec_balance(*ticker, to_portfolio.did) + value <= u128::MAX ==> r
                == Ok::<(), Error>(()) && final(self).spec_balance(*ticker, from_portfolio.did)
                == old(self).spec_balance(*ticker, from_portfolio.did) - value && final(self).spec_balance(*ticker, to_portfolio.did) == old(self).spec_balance(
                *ticker,
                to_portfolio.did,
            ) + value && (forall|k2: (Ticker, IdentityId)|
                k2 != (*ticker, from_portfolio.did) && k2 != (*ticker, to_portfolio.did)
                    ==> spec_assoc_get(final(self).balance_of@, k2) == spec_assoc_get(
                    old(self).balance_of@,
                    k2,
                )) && final(self).spec_portfolio_balance(from_portfolio, *ticker) == (if old(self).spec_portfolio_balance(from_portfolio, *ticker) >= value {
                (old(self).spec_portfolio_balance(from_portfolio, *ticker) - value) as u128
            } else {
                0u128
            }) && final(self).spec_portfolio_balance(to_portfolio, *ticker) == (if old(self).spec_portfolio_balance(to_portfolio, *ticker) + value <= u128::MAX {
                (old(self).spec_portfolio_balance(to_portfolio, *ticker) + value) as u128
            } else {
                u128::MAX
            }) && (forall|k2: (PortfolioId, Ticker)|
                k2 != (from_portfolio, *ticker) && k2 != (to_portfolio, *ticker)
                    ==> spec_assoc_get(final(self).portfolio_balances@, k2) == spec_assoc_get(
                    old(self).portfolio_balances@,
                    k2,
                )),
            final(self).portfolios@ == old(self).portfolios@,
            final(self).next_portfolio_number@ == old(self).next_portfolio_number@,
            final(self).locked_assets@ == old(self).locked_assets@,
            final(self).custodians@ == old(self).custodians@,
    {
        let ghost s0 = *old(self);
        if !self.check_granularity(ticker, value) {
            return Err(Error::InvalidGranularity);
        }
        if from_portfolio.did == to_portfolio.did {
            return Err(Error::SenderSameAsReceiver);
        }
        let from_total_balance: u128 = self.balance_of(ticker, &from_portfolio.did);
        if from_total_balance < value {
            return Err(Error::InsufficientBalance);
        }
        let updated_from_total_balance: u128 = from_total_balance - value;
        let to_total_balance: u128 = self.balance_of(ticker, &to_portfolio.did);
        if to_total_balance > u128::MAX - value {
            return Err(Error::BalanceOverflow);
        }
        let updated_to_total_balance: u128 = to_total_balance + value;
        // All checks passed; only writes follow. A checkpoint advance
        // with both pre-mutation balances is the caller's collaborator.
        let ghost from_scope = s0.spec_scope_id_of(*ticker, from_portfolio.did);
        let ghost to_scope = s0.spec_scope_id_of(*ticker, to_portfolio.did);
        proof {
            // The sender's own balance backs the subtraction from its
            // scope's aggregate.
            if from_scope is Some {
                lemma_get_entry(s0.scope_id_of@, (*ticker, from_portfolio.did));
                balances::lemma_scope_sum_term(
                    s0.scope_id_of@,
                    s0.balance_of@,
                    spec_assoc_index_of(s0.scope_id_of@, (*ticker, from_portfolio.did)),
                    *ticker,
                    from_scope.unwrap(),
                );
            }
        }
        self.adjust_side_internal(
            *ticker,
            from_portfolio.did,
            updated_from_total_balance,
            value,
            true,
        );
        let ghost s1 = *self;
        proof {
            assert(s1.spec_balance(*ticker, to_portfolio.did) == to_total_balance);
            assert(s1.spec_scope_id_of(*ticker, to_portfolio.did) == to_scope);
        }
        self.adjust_side_internal(
            *ticker,
            to_portfolio.did,
            updated_to_total_balance,
            value,
            false,
        );
        let ghost s2 = *self;
        proof {
            // The receiving scope's new aggregate is its new scope
            // sum, which stays within the total supply.
            if to_scope is Some {
                balances::lemma_scope_sum_le(s2.scope_id_of@, s2.balance_of@, *ticker, to_scope.unwrap());
                assert(spec_sum_balances_for(s2.balance_of@, *ticker) == spec_sum_balances_for(
                    s0.balance_of@,
                    *ticker,
                ));
                assert(spec_sum_balances_for(s0.balance_of@, *ticker) == s0.spec_total_supply(
                    *ticker,
                ));
            }
        }
        self.unchecked_transfer_portfolio_balance(&from_portfolio, &to_portfolio, ticker, value);
        proof {
            // Each touched aggregate now equals its new scope sum:
            // the sender's aggregate lost `value` without saturating,
            // the receiver's gained `value` without overflowing.
            assert forall|t2: Ticker, s2q: ScopeId| #[trigger] self.spec_aggregate_balance(
                t2,
                s2q,
            ) == spec_sum_scope_balances(self.scope_id_of@, self.balance_of@, t2, s2q) by {
                assert(s0.spec_aggregate_balance(t2, s2q) == spec_sum_scope_balances(
                    s0.scope_id_of@,
                    s0.balance_of@,
                    t2,
                    s2q,
                ));
                let from_hit = t2 == *ticker && from_scope == Some(s2q);
                let to_hit = t2 == *ticker && to_scope == Some(s2q);
                if from_hit || to_hit {
                    assert(spec_sum_balances_for(s2.balance_of@, t2) == s0.spec_total_supply(t2));
                    balances::lemma_scope_sum_le(s2.scope_id_of@, s2.balance_of@, t2, s2q);
                }
            }
            lemma_transfer_wf(
                s0,
                *self,
                *ticker,
                from_portfolio.did,
                to_portfolio.did,
                value,
                updated_from_total_balance,
                updated_to_total_balance,
            );
        }
        Ok(())
    }
}

/// One identity's recorded balance never exceeds its ticker's sum.
pub proof fn lemma_balance_le_sum(s: Ledger, t: Ticker, d: IdentityId)
    ensures
        s.spec_balance(t, d) <= spec_sum_balances_for(s.balance_of@, t),
{
    crate::vecmap::lemma_assoc_index_of(s.balance_of@, (t, d));
    let i = spec_assoc_index_of(s.balance_of@, (t, d));
    if i < s.balance_of@.len() {
        balances::lemma_sum_balances_term(s.balance_of@, i, t);
    } else {
        balances::lemma_sum_balances_nonneg(s.balance_of@, t);
    }
}

impl Ledger {
    /// Mints `value` of `ticker` to `to_did`: grows the total supply
    /// and the receiver's balances under checked arithmetic, plus the
    /// receiver's default portfolio and, when the receiver has a scope
    /// bound, its scope records. Validation happens before any write.
    pub fn mint(&mut self, ticker: &Ticker, to_did: IdentityId, value: u128) -> (r: Result<
        (),
        Error,
    >)
        requires
            old(self).wf(),
        ensures
            final(self).wf(),
            final(self).same_identity_state(*old(self)),
            final(self).same_compliance(*old(self)),
            final(self).same_config(*old(self)),
            final(self).tickers@ == old(self).tickers@,
            final(self).ownership@ == old(self).ownership@,
            final(self).frozen@ == old(self).frozen@,
            final(self).funding_round@ == old(self).funding_round@,
            final(self).identifiers@ == old(self).identifiers@,
            final(self).scope_id_of@ == old(self).scope_id_of@,
            final(self).portfolios@ == old(self).portfolios@,
            final(self).next_portfolio_number@ == old(self).next_portfolio_number@,
            final(self).locked_assets@ == old(self).locked_assets@,
            final(self).custodians@ == old(self).custodians@,
            !old(self).spec_check_granularity(*ticker, value) ==> r == Err::<(), Error>(
                Error::InvalidGranularity,
            ) && *final(self) == *old(self),
            old(self).spec_check_granularity(*ticker, value) && !old(self).spec_asset_exists(
                *ticker,
            ) ==> r == Err::<(), Error>(Error::NoSuchAsset) && *final(self) == *old(self),
            old(self).spec_check_granularity(*ticker, value) && old(self).spec_asset_exists(
                *ticker,
            ) && old(self).spec_total_supply(*ticker) + value > u128::MAX ==> r == Err::<
                (),
                Error,
            >(Error::TotalSupplyOverflow) && *final(self) == *old(self),
            old(self).spec_check_granularity(*ticker, value) && old(self).spec_asset_exists(
                *ticker,
            ) && old(self).spec_total_supply(*ticker) + value <= u128::MAX && old(self).spec_total_supply(*ticker) + value > crate::MAX_SUPPLY ==> r == Err::<(), Error>(
                Error::TotalSupplyAboveLimit,
            ) && *final(self) == *old(self),
            old(self).spec_check_granularity(*ticker, value) && old(self).spec_asset_exists(
                *ticker,
            ) && old(self).spec_total_supply(*ticker) + value <= crate::MAX_SUPPLY ==> r == Ok::<
                (),
                Error,
            >(()) && final(self).spec_total_supply(*ticker) == old(self).spec_total_supply(*ticker)
                + value && final(self).spec_balance(*ticker, to_did) == old(self).spec_balance(
                *ticker,
                to_did,
            ) + value && (forall|k2: (Ticker, IdentityId)|
                k2 != (*ticker, to_did) ==> spec_assoc_get(final(self).balance_of@, k2)
                    == spec_assoc_get(old(self).balance_of@, k2)) && (forall|t2: Ticker|
                t2 != *ticker ==> spec_assoc_get(final(self).tokens@, t2) == spec_assoc_get(
                    old(self).tokens@,
                    t2,
                )) && final(self).spec_portfolio_balance(
                (PortfolioId { did: to_did, kind: PortfolioKind::Default }),
                *ticker,
            ) == (if old(self).spec_portfolio_balance(
                (PortfolioId { did: to_did, kind: PortfolioKind::Default }),
                *ticker,
            ) + value <= u128::MAX {
                (old(self).spec_portfolio_balance(
                    (PortfolioId { did: to_did, kind: PortfolioKind::Default }),
                    *ticker,
                ) + value) as u128
            } else {
                u128::MAX
            }) && (forall|k2: (PortfolioId, Ticker)|
                k2 != ((PortfolioId { did: to_did, kind: PortfolioKind::Default }), *ticker)
                    ==> spec_assoc_get(final(self).portfolio_balances@, k2) == spec_assoc_get(
                    old(self).portfolio_balances@,
                    k2,
                )) && spec_assoc_get(final(self).issued_in_funding_round@, *ticker) == Some(
                (if old(self).spec_issued_in_round(*ticker) + value <= u128::MAX {
                    (old(self).spec_issued_in_round(*ticker) + value) as u128
                } else {
                    u128::MAX
                }),
            ) && (forall|t2: Ticker|
                t2 != *ticker ==> spec_assoc_get(final(self).issued_in_funding_round@, t2)
                    == spec_assoc_get(old(self).issued_in_funding_round@, t2)),
    {
        let ghost s0 = *old(self);
        if !self.check_granularity(ticker, value) {
            return Err(Error::InvalidGranularity);
        }
        let supply: u128 = match assoc_get(&self.tokens, ticker) {
            None => {
                return Err(Error::NoSuchAsset);
            },
            Some(tok) => tok.total_supply,
        };
        if supply > u128::MAX - value {
            return Err(Error::TotalSupplyOverflow);
        }
        if value > crate::MAX_SUPPLY || supply > crate::MAX_SUPPLY - value {
            return Err(Error::TotalSupplyAboveLimit);
        }
        let token: SecurityToken = match assoc_take(&mut self.tokens, ticker) {
            None => {
                proof {
                    assert(false);
                }
                return Err(Error::NoSuchAsset);
            },
            Some(tok) => tok,
        };
        let updated_total_supply: u128 = token.total_supply + value;
        // The receiver's balance is bounded by the old supply, so the
        // new balance fits below the supply ceiling.
        let current_to_balance: u128 = self.balance_of(ticker, &to_did);
        proof {
            lemma_balance_le_sum(s0, *ticker, to_did);
            assert(spec_sum_balances_for(s0.balance_of@, *ticker) == s0.spec_total_supply(*ticker));
        }
        let updated_to_balance: u128 = current_to_balance + value;
        // All checks passed; only writes follow.
        let new_token = SecurityToken {
            name: token.name,
            total_supply: updated_total_supply,
            owner_did: token.owner_did,
            divisible: token.divisible,
            asset_type: token.asset_type,
            primary_issuance_agent: token.primary_issuance_agent,
        };
        assoc_insert(&mut self.tokens, *ticker, new_token);
        let ghost to_scope = s0.spec_scope_id_of(*ticker, to_did);
        self.adjust_side_internal(*ticker, to_did, updated_to_balance, value, false);
        let ghost s2 = *self;
        // The receiver's default portfolio grows alongside.
        let default_portfolio = PortfolioId { did: to_did, kind: PortfolioKind::Default };
        let portfolio_balance: u128 = self.portfolio_balance(&default_portfolio, ticker);
        let new_portfolio_balance: u128 = if portfolio_balance <= u128::MAX - value {
            portfolio_balance + value
        } else {
            u128::MAX
        };
        assoc_insert(
            &mut self.portfolio_balances,
            (default_portfolio, *ticker),
            new_portfolio_balance,
        );
        // Track what this funding round has issued.
        let issued: u128 = match assoc_get(&self.issued_in_funding_round, ticker) {
            Some(v) => *v,
            None => 0,
        };
        let new_issued: u128 = if issued <= u128::MAX - value {
            issued + value
        } else {
            u128::MAX
        };
        assoc_insert(&mut self.issued_in_funding_round, *ticker, new_issued);
        proof {
            assert forall|t2: Ticker, s2q: ScopeId| #[trigger] self.spec_aggregate_balance(
                t2,
                s2q,
            ) == spec_sum_scope_balances(self.scope_id_of@, self.balance_of@, t2, s2q) by {
                assert(s0.spec_aggregate_balance(t2, s2q) == spec_sum_scope_balances(
                    s0.scope_id_of@,
                    s0.balance_of@,
                    t2,
                    s2q,
                ));
                if t2 == *ticker && to_scope == Some(s2q) {
                    assert(spec_sum_balances_for(s2.balance_of@, t2) == s0.spec_total_supply(t2)
                        + value);
                    balances::lemma_scope_sum_le(s2.scope_id_of@, s2.balance_of@, t2, s2q);
                }
            }
            lemma_one_side_wf(s0, *self, *ticker, to_did, updated_to_balance);
        }
        Ok(())
    }

    /// Checks that `did` is the asset's primary issuance agent, or its
    /// owner when none is assigned.
    pub fn ensure_pia(&self, ticker: &Ticker, did: IdentityId) -> (r: Result<(), Error>)
        ensures
            r == (if self.spec_primary_issuance_agent_or_owner(*ticker) == did {
                Ok::<(), Error>(())
            } else {
                Err::<(), Error>(Error::Unauthorized)
            }),
    {
        if self.primary_issuance_agent_or_owner(ticker) == did {
            Ok(())
        } else {
            Err(Error::Unauthorized)
        }
    }

    /// Redeems `value` of `ticker` from the issuance agent's default
    /// portfolio, shrinking the total supply. Only the asset's primary
    /// issuance agent (or owner) may redeem. Validation happens before
    /// any write.
    pub fn base_redeem(&mut self, did: IdentityId, ticker: &Ticker, value: u128) -> (r: Result<
        (),
        Error,
    >)
        requires
            old(self).wf(),
        ensures
            final(self).wf(),
            final(self).same_identity_state(*old(self)),
            final(self).same_compliance(*old(self)),
            final(self).same_config(*old(self)),
            final(self).tickers@ == old(self).tickers@,
            final(self).ownership@ == old(self).ownership@,
            final(self).frozen@ == old(self).frozen@,
            final(self).funding_round@ == old(self).funding_round@,
            final(self).issued_in_funding_round@ == old(self).issued_in_funding_round@,
            final(self).identifiers@ == old(self).identifiers@,
            final(self).scope_id_of@ == old(self).scope_id_of@,
            final(self).portfolios@ == old(self).portfolios@,
            final(self).next_portfolio_number@ == old(self).next_portfolio_number@,
            final(self).locked_assets@ == old(self).locked_assets@,
            final(self).custodians@ == old(self).custodians@,
            r is Ok <==> old(self).spec_primary_issuance_agent_or_owner(*ticker) == did && old(self).spec_check_granularity(*ticker, value) && (match old(self).spec_portfolio_transfer_free_balance(
                (PortfolioId { did, kind: PortfolioKind::Default }),
                *ticker,
            ) {
                f => f >= value,
            }) && old(self).spec_balance(*ticker, did) >= value,
            r is Err ==> *final(self) == *old(self),
            r is Ok ==> final(self).spec_total_supply(*ticker) == old(self).spec_total_supply(
                *ticker,
            ) - value && final(self).spec_balance(*ticker, did) == old(self).spec_balance(
                *ticker,
                did,
            ) - value && (forall|k2: (Ticker, IdentityId)|
                k2 != (*ticker, did) ==> spec_assoc_get(final(self).balance_of@, k2)
                    == spec_assoc_get(old(self).balance_of@, k2)) && final(self).spec_portfolio_balance((PortfolioId { did, kind: PortfolioKind::Default }), *ticker)
                == old(self).spec_portfolio_balance(
                (PortfolioId { did, kind: PortfolioKind::Default }),
                *ticker,
            ) - value && (forall|k2: (PortfolioId, Ticker)|
                k2 != ((PortfolioId { did, kind: PortfolioKind::Default }), *ticker)
                    ==> spec_assoc_get(final(self).portfolio_balances@, k2) == spec_assoc_get(
                    old(self).portfolio_balances@,
                    k2,
                )),
    {
        let ghost s0 = *old(self);
        if self.primary_issuance_agent_or_owner(ticker) != did {
            return Err(Error::Unauthorized);
        }
        if !self.check_granularity(ticker, value) {
            return Err(Error::InvalidGranularity);
        }
        let pia_portfolio = PortfolioId { did, kind: PortfolioKind::Default };
        // The agent's default portfolio must hold enough free balance.
        let portfolio_balance: u128 = self.portfolio_balance(&pia_portfolio, ticker);
        let locked: u128 = self.locked_assets(&pia_portfolio, ticker);
        let free: u128 = if portfolio_balance >= locked {
            portfolio_balance - locked
        } else {
            0
        };
        if free < value {
            return Err(Error::InsufficientPortfolioBalance);
        }
        let balance: u128 = self.balance_of(ticker, &did);
        if balance < value {
            return Err(Error::InsufficientBalance);
        }
        // All checks passed; only writes follow.
        assoc_insert(&mut self.portfolio_balances, (pia_portfolio, *ticker), portfolio_balance - value);
        let updated_balance: u128 = balance - value;
        let token: SecurityToken = match assoc_take(&mut self.tokens, ticker) {
            None => {
                // A positive balance needs a positive supply, so the
                // asset exists whenever anything can be redeemed;
                // a redemption of zero units of a nonexistent asset
                // leaves nothing to change.
                proof {
                    lemma_balance_le_sum(s0, *ticker, did);
                    balances::lemma_sum_balances_nonneg(s0.balance_of@, *ticker);
                    assert(value == 0);
                    crate::state::lemma_wf_frame(s0, *self);
                }
                return Ok(());
            },
            Some(tok) => tok,
        };
        proof {
            lemma_balance_le_sum(s0, *ticker, did);
            assert(spec_sum_balances_for(s0.balance_of@, *ticker) == s0.spec_total_supply(*ticker));
        }
        let new_token = SecurityToken {
            name: token.name,
            total_supply: token.total_supply - value,
            owner_did: token.owner_did,
            divisible: token.divisible,
            asset_type: token.asset_type,
            primary_issuance_agent: token.primary_issuance_agent,
        };
        assoc_insert(&mut self.tokens, *ticker, new_token);
        let ghost from_scope = s0.spec_scope_id_of(*ticker, did);
        proof {
            if from_scope is Some {
                lemma_get_entry(s0.scope_id_of@, (*ticker, did));
                balances::lemma_scope_sum_term(
                    s0.scope_id_of@,
                    s0.balance_of@,
                    spec_assoc_index_of(s0.scope_id_of@, (*ticker, did)),
                    *ticker,
                    from_scope.unwrap(),
                );
            }
        }
        self.adjust_side_internal(*ticker, did, updated_balance, value, true);
        proof {
            assert forall|t2: Ticker, s2q: ScopeId| #[trigger] self.spec_aggregate_balance(
                t2,
                s2q,
            ) == spec_sum_scope_balances(self.scope_id_of@, self.balance_of@, t2, s2q) by {
                assert(s0.spec_aggregate_balance(t2, s2q) == spec_sum_scope_balances(
                    s0.scope_id_of@,
                    s0.balance_of@,
                    t2,
                    s2q,
                ));
            }
            lemma_one_side_wf(s0, *self, *ticker, did, updated_balance);
        }
        Ok(())
    }

    /// Free (unlocked) balance of a portfolio for one ticker.
    pub open spec fn spec_portfolio_transfer_free_balance(self, p: PortfolioId, t: Ticker) -> u128 {
        if self.spec_portfolio_balance(p, t) >= self.spec_locked(p, t) {
            (self.spec_portfolio_balance(p, t) - self.spec_locked(p, t)) as u128
        } else {
            0u128
        }
    }
}

/// Restores well-formedness after one party's balance moved together
/// with the total supply, its scope records, and its scope aggregate.
proof fn lemma_one_side_wf(s0: Ledger, sf: Ledger, t: Ticker, did: IdentityId, new_bal: u128)
    requires
        s0.wf(),
        sf.wf_unique(),
        forall|t2: Ticker|
            t2 != t ==> spec_assoc_get(sf.tokens@, t2) == spec_assoc_get(s0.tokens@, t2),
        sf.spec_total_supply(t) == s0.spec_total_supply(t) + new_bal - s0.spec_balance(t, did),
        sf.tickers@ == s0.tickers@,
        sf.ownership@ == s0.ownership@,
        sf.compliances@ == s0.compliances@,
        sf.requirement_counter@ == s0.requirement_counter@,
        sf.scope_id_of@ == s0.scope_id_of@,
        sf.spec_balance(t, did) == new_bal,
        forall|k2: (Ticker, IdentityId)|
            k2 != (t, did) ==> spec_assoc_get(sf.balance_of@, k2) == spec_assoc_get(
                s0.balance_of@,
                k2,
            ),
        forall|t2: Ticker|
            spec_sum_balances_for(sf.balance_of@, t2) == spec_sum_balances_for(s0.balance_of@, t2)
                + (if t2 == t {
                new_bal - s0.spec_balance(t, did)
            } else {
                0int
            }),
        match s0.spec_scope_id_of(t, did) {
            Some(s) => sf.spec_balance_at_scope(s, did) == new_bal,
            None => true,
        },
        forall|k2: (ScopeId, IdentityId)|
            (match s0.spec_scope_id_of(t, did) {
                Some(s) => k2 != (s, did),
                None => true,
            }) ==> spec_assoc_get(sf.balance_at_scope@, k2) == spec_assoc_get(
                s0.balance_at_scope@,
                k2,
            ),
        forall|t2: Ticker, s2: ScopeId|
            #[trigger] sf.spec_aggregate_balance(t2, s2) == spec_sum_scope_balances(
                sf.scope_id_of@,
                sf.balance_of@,
                t2,
                s2,
            ),
    ensures
        sf.wf(),
{
    crate::state::lemma_wf_ownership_frame(s0, sf);
    assert forall|t2: Ticker, j: int|
        0 <= j < sf.spec_requirements(t2).len() implies (#[trigger] sf.spec_requirements(t2)[
    j]).id <= sf.spec_counter(t2) by {
        assert(sf.spec_requirements(t2) == s0.spec_requirements(t2));
        assert(s0.spec_requirements(t2)[j].id <= s0.spec_counter(t2));
    }
    assert forall|t2: Ticker| #[trigger] spec_sum_balances_for(sf.balance_of@, t2)
        == sf.spec_total_supply(t2) by {
        assert(spec_sum_balances_for(s0.balance_of@, t2) == s0.spec_total_supply(t2));
    }
    assert forall|a: int, b: int|
        0 <= a < sf.scope_id_of@.len() && 0 <= b < sf.scope_id_of@.len() && (
        #[trigger] sf.scope_id_of@[a]).1 == (#[trigger] sf.scope_id_of@[b]).1 implies
        sf.scope_id_of@[a].0.0 == sf.scope_id_of@[b].0.0 by {
        assert(s0.scope_id_of@[a].1 == s0.scope_id_of@[b].1);
    }
    assert forall|k: int|
        0 <= k < sf.scope_id_of@.len() implies sf.spec_balance_at_scope(
        (#[trigger] sf.scope_id_of@[k]).1,
        sf.scope_id_of@[k].0.1,
    ) == sf.spec_balance(sf.scope_id_of@[k].0.0, sf.scope_id_of@[k].0.1) by {
        let e = s0.scope_id_of@[k];
        lemma_entry_get(s0.scope_id_of@, k);
        assert(s0.spec_balance_at_scope(e.1, e.0.1) == s0.spec_balance(e.0.0, e.0.1));
        if e.0 == (t, did) {
            assert(s0.spec_scope_id_of(t, did) == Some(e.1));
        } else {
            match s0.spec_scope_id_of(t, did) {
                Some(s) => {
                    if (e.1, e.0.1) == (s, did) {
                        lemma_get_entry(s0.scope_id_of@, (t, did));
                        let i0 = spec_assoc_index_of(s0.scope_id_of@, (t, did));
                        assert(s0.scope_id_of@[i0].1 == e.1);
                        assert(e.0.0 == t);
                        assert(false);
                    }
                },
                None => {},
            }
            assert(sf.spec_balance_at_scope(e.1, e.0.1) == s0.spec_balance_at_scope(e.1, e.0.1));
            assert(sf.spec_balance(e.0.0, e.0.1) == s0.spec_balance(e.0.0, e.0.1));
        }
    }
    assert forall|i: int|
        0 <= i < sf.balance_at_scope@.len() && (#[trigger] sf.balance_at_scope@[i]).1
            != 0 implies sf.spec_scope_entry_bound(
        sf.balance_at_scope@[i].0.0,
        sf.balance_at_scope@[i].0.1,
    ) by {
        let e = sf.balance_at_scope@[i];
        lemma_entry_get(sf.balance_at_scope@, i);
        let hit = (match s0.spec_scope_id_of(t, did) {
            Some(s) => e.0 == (s, did),
            None => false,
        });
        if hit {
            assert(sf.spec_scope_id_of(t, did) == s0.spec_scope_id_of(t, did));
            assert(sf.spec_scope_entry_bound(e.0.0, e.0.1));
        } else {
            assert(spec_assoc_get(sf.balance_at_scope@, e.0) == spec_assoc_get(
                s0.balance_at_scope@,
                e.0,
            ));
            lemma_get_entry(s0.balance_at_scope@, e.0);
            assert(s0.spec_scope_entry_bound(e.0.0, e.0.1));
            let t3 = choose|t3: Ticker| #[trigger] s0.spec_scope_id_of(t3, e.0.1) == Some(e.0.0);
            assert(sf.spec_scope_id_of(t3, e.0.1) == Some(e.0.0));
            assert(sf.spec_scope_entry_bound(e.0.0, e.0.1));
        }
    }
}

/// Restores well-formedness after both sides of a transfer have been
/// adjusted: the sums moved by opposite amounts, and each touched
/// scope record was rewritten to its party's new balance.
proof fn lemma_transfer_wf(
    s0: Ledger,
    sf: Ledger,
    t: Ticker,
    from_did: IdentityId,
    to_did: IdentityId,
    value: u128,
    new_from: u128,
    new_to: u128,
)
    requires
        s0.wf(),
        sf.wf_unique(),
        from_did != to_did,
        s0.spec_balance(t, from_did) == new_from + value,
        s0.spec_balance(t, to_did) + value == new_to,
        sf.tokens@ == s0.tokens@,
        sf.tickers@ == s0.tickers@,
        sf.ownership@ == s0.ownership@,
        sf.compliances@ == s0.compliances@,
        sf.requirement_counter@ == s0.requirement_counter@,
        sf.scope_id_of@ == s0.scope_id_of@,
        sf.spec_balance(t, from_did) == new_from,
        sf.spec_balance(t, to_did) == new_to,
        forall|k2: (Ticker, IdentityId)|
            k2 != (t, from_did) && k2 != (t, to_did) ==> spec_assoc_get(sf.balance_of@, k2)
                == spec_assoc_get(s0.balance_of@, k2),
        forall|t2: Ticker|
            spec_sum_balances_for(sf.balance_of@, t2) == spec_sum_balances_for(s0.balance_of@, t2),
        forall|t2: Ticker, s2: ScopeId|
            spec_sum_scope_balances(sf.scope_id_of@, sf.balance_of@, t2, s2)
                == spec_sum_scope_balances(s0.scope_id_of@, s0.balance_of@, t2, s2) + (
            if t2 == t && s0.spec_scope_id_of(t, from_did) == Some(s2) {
                0int - value
            } else {
                0int
            }) + (if t2 == t && s0.spec_scope_id_of(t, to_did) == Some(s2) {
                value as int
            } else {
                0int
            }),
        match s0.spec_scope_id_of(t, from_did) {
            Some(s) => sf.spec_balance_at_scope(s, from_did) == new_from,
            None => true,
        },
        match s0.spec_scope_id_of(t, to_did) {
            Some(s) => sf.spec_balance_at_scope(s, to_did) == new_to,
            None => true,
        },
        forall|k2: (ScopeId, IdentityId)|
            (match s0.spec_scope_id_of(t, from_did) {
                Some(s) => k2 != (s, from_did),
                None => true,
            }) && (match s0.spec_scope_id_of(t, to_did) {
                Some(s) => k2 != (s, to_did),
                None => true,
            }) ==> spec_assoc_get(sf.balance_at_scope@, k2) == spec_assoc_get(
                s0.balance_at_scope@,
                k2,
            ),
        forall|t2: Ticker, s2: ScopeId|
            #[trigger] sf.spec_aggregate_balance(t2, s2) == spec_sum_scope_balances(
                sf.scope_id_of@,
                sf.balance_of@,
                t2,
                s2,
            ),
    ensures
        sf.wf(),
{
    crate::state::lemma_wf_ownership_frame(s0, sf);
    assert forall|t2: Ticker, j: int|
        0 <= j < sf.spec_requirements(t2).len() implies (#[trigger] sf.spec_requirements(t2)[
    j]).id <= sf.spec_counter(t2) by {
        assert(sf.spec_requirements(t2) == s0.spec_requirements(t2));
        assert(s0.spec_requirements(t2)[j].id <= s0.spec_counter(t2));
    }
    assert forall|t2: Ticker| #[trigger] spec_sum_balances_for(sf.balance_of@, t2)
        == sf.spec_total_supply(t2) by {
        assert(spec_sum_balances_for(s0.balance_of@, t2) == s0.spec_total_supply(t2));
    }
    // One scope, one ticker: the bindings did not move.
    assert forall|a: int, b: int|
        0 <= a < sf.scope_id_of@.len() && 0 <= b < sf.scope_id_of@.len() && (
        #[trigger] sf.scope_id_of@[a]).1 == (#[trigger] sf.scope_id_of@[b]).1 implies
        sf.scope_id_of@[a].0.0 == sf.scope_id_of@[b].0.0 by {
        assert(s0.scope_id_of@[a].1 == s0.scope_id_of@[b].1);
    }
    // Every binding's recorded scope balance is its ticker balance.
    assert forall|k: int|
        0 <= k < sf.scope_id_of@.len() implies sf.spec_balance_at_scope(
        (#[trigger] sf.scope_id_of@[k]).1,
        sf.scope_id_of@[k].0.1,
    ) == sf.spec_balance(sf.scope_id_of@[k].0.0, sf.scope_id_of@[k].0.1) by {
        let e = s0.scope_id_of@[k];
        lemma_entry_get(s0.scope_id_of@, k);
        assert(s0.spec_balance_at_scope(e.1, e.0.1) == s0.spec_balance(e.0.0, e.0.1));
        if e.0 == (t, from_did) {
            assert(s0.spec_scope_id_of(t, from_did) == Some(e.1));
        } else if e.0 == (t, to_did) {
            assert(s0.spec_scope_id_of(t, to_did) == Some(e.1));
        } else {
            // This binding's record and balance are untouched: the
            // rewritten record keys belong to the two parties' own
            // bindings under this ticker.
            match s0.spec_scope_id_of(t, from_did) {
                Some(s) => {
                    if (e.1, e.0.1) == (s, from_did) {
                        lemma_get_entry(s0.scope_id_of@, (t, from_did));
                        let i0 = spec_assoc_index_of(s0.scope_id_of@, (t, from_did));
                        assert(s0.scope_id_of@[i0].1 == e.1);
                        assert(e.0.0 == t);
                        assert(false);
                    }
                },
                None => {},
            }
            match s0.spec_scope_id_of(t, to_did) {
                Some(s) => {
                    if (e.1, e.0.1) == (s, to_did) {
                        lemma_get_entry(s0.scope_id_of@, (t, to_did));
                        let i0 = spec_assoc_index_of(s0.scope_id_of@, (t, to_did));
                        assert(s0.scope_id_of@[i0].1 == e.1);
                        assert(e.0.0 == t);
                        assert(false);
                    }
                },
                None => {},
            }
            assert(sf.spec_balance_at_scope(e.1, e.0.1) == s0.spec_balance_at_scope(e.1, e.0.1));
            assert(sf.spec_balance(e.0.0, e.0.1) == s0.spec_balance(e.0.0, e.0.1));
        }
    }
    // Every nonzero scope record still belongs to a binding.
    assert forall|i: int|
        0 <= i < sf.balance_at_scope@.len() && (#[trigger] sf.balance_at_scope@[i]).1
            != 0 implies sf.spec_scope_entry_bound(
        sf.balance_at_scope@[i].0.0,
        sf.balance_at_scope@[i].0.1,
    ) by {
        let e = sf.balance_at_scope@[i];
        lemma_entry_get(sf.balance_at_scope@, i);
        let from_hit = (match s0.spec_scope_id_of(t, from_did) {
            Some(s) => e.0 == (s, from_did),
            None => false,
        });
        let to_hit = (match s0.spec_scope_id_of(t, to_did) {
            Some(s) => e.0 == (s, to_did),
            None => false,
        });
        if from_hit {
            assert(sf.spec_scope_id_of(t, from_did) == s0.spec_scope_id_of(t, from_did));
            assert(sf.spec_scope_entry_bound(e.0.0, e.0.1));
        } else if to_hit {
            assert(sf.spec_scope_id_of(t, to_did) == s0.spec_scope_id_of(t, to_did));
            assert(sf.spec_scope_entry_bound(e.0.0, e.0.1));
        } else {
            assert(spec_assoc_get(sf.balance_at_scope@, e.0) == spec_assoc_get(
                s0.balance_at_scope@,
                e.0,
            ));
            lemma_get_entry(s0.balance_at_scope@, e.0);
            assert(s0.spec_scope_entry_bound(e.0.0, e.0.1));
            let t3 = choose|t3: Ticker| #[trigger] s0.spec_scope_id_of(t3, e.0.1) == Some(e.0.0);
            assert(sf.spec_scope_id_of(t3, e.0.1) == Some(e.0.0));
            assert(sf.spec_scope_entry_bound(e.0.0, e.0.1));
        }
    }
}

} // verus!
