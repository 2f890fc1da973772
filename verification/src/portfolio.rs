//! User portfolios: creation, deletion, renaming, moves between one
//! identity's portfolios, custody, and the lock that keeps committed
//! funds from being spent twice.
use vstd::prelude::*;
use crate::state::Ledger;
use crate::types::{eq_u8_vec, Error, IdentityId, PortfolioId, PortfolioKind, Ticker};
use crate::vecmap::{assoc_get, assoc_insert, assoc_take, spec_assoc_get};

verus! {

impl Ledger {
    /// No user portfolio of `did` carries the name already.
    pub open spec fn spec_portfolio_name_unique(self, did: IdentityId, name: Seq<u8>) -> bool {
        forall|i: int|
            0 <= i < self.portfolios@.len() && (#[trigger] self.portfolios@[i]).0.0 == did
                ==> self.portfolios@[i].1@ != name
    }

    /// Whether no user portfolio of `did` carries `name` yet.
    fn portfolio_name_unique(&self, did: IdentityId, name: &Vec<u8>) -> (r: bool)
        ensures
            r == self.spec_portfolio_name_unique(did, name@),
    {
        let mut i: usize = 0;
        while i < self.portfolios.len()
            invariant
                i <= self.portfolios@.len(),
                forall|k: int|
                    0 <= k < i && (#[trigger] self.portfolios@[k]).0.0 == did
                        ==> self.portfolios@[k].1@ != name@,
            decreases self.portfolios@.len() - i,
        {
            let entry_did: IdentityId = self.portfolios[i].0.0;
            if entry_did == did && eq_u8_vec(&self.portfolios[i].1, name) {
                return false;
            }
            i = i + 1;
        }
        true
    }

    /// Creates a user portfolio named `name` for `did` and hands back
    /// its number. Numbers start at one and never repeat.
    pub fn create_portfolio(&mut self, did: IdentityId, name: Vec<u8>) -> (r: Result<u64, Error>)
        requires
            old(self).wf(),
            (match spec_assoc_get(old(self).next_portfolio_number@, did) {
                Some(n) => n,
                None => 1u64,
            }) < u64::MAX,
        ensures
            final(self).wf(),
            final(self).same_identity_state(*old(self)),
            final(self).same_registry(*old(self)),
            final(self).same_balances(*old(self)),
            final(self).same_compliance(*old(self)),
            final(self).same_config(*old(self)),
            !old(self).spec_portfolio_name_unique(did, name@) ==> r == Err::<u64, Error>(
                Error::PortfolioNameAlreadyInUse,
            ) && *final(self) == *old(self),
            old(self).spec_portfolio_name_unique(did, name@) ==> match r {
                Ok(num) => final(self).spec_portfolio_exists(
                    PortfolioId { did, kind: PortfolioKind::User(num) },
                ),
                Err(_) => false,
            },
    {
        let ghost s0 = *old(self);
        if !self.portfolio_name_unique(did, &name) {
            return Err(Error::PortfolioNameAlreadyInUse);
        }
        let num: u64 = match assoc_get(&self.next_portfolio_number, &did) {
            Some(n) => *n,
            None => 1,
        };
        assoc_insert(&mut self.next_portfolio_number, did, num + 1);
        assoc_insert(&mut self.portfolios, (did, num), name);
        proof {
            crate::state::lemma_wf_frame(s0, *self);
        }
        Ok(num)
    }

    /// Every recorded balance of the portfolio is zero.
    pub open spec fn spec_portfolio_empty(self, p: PortfolioId) -> bool {
        forall|i: int|
            0 <= i < self.portfolio_balances@.len() && (#[trigger] self.portfolio_balances@[i]).0.0
                == p ==> self.portfolio_balances@[i].1 == 0
    }

    /// Deletes a user portfolio; it must exist and hold no assets.
    pub fn delete_portfolio(&mut self, did: IdentityId, num: u64) -> (r: Result<(), Error>)
        requires
            old(self).wf(),
        ensures
            final(self).wf(),
            final(self).same_identity_state(*old(self)),
            final(self).same_registry(*old(self)),
            final(self).same_balances(*old(self)),
            final(self).same_compliance(*old(self)),
            final(self).same_config(*old(self)),
            !old(self).spec_portfolio_exists(PortfolioId { did, kind: PortfolioKind::User(num) })
                ==> r == Err::<(), Error>(Error::PortfolioDoesNotExist) && *final(self) == *old(self),
            old(self).spec_portfolio_exists(PortfolioId { did, kind: PortfolioKind::User(num) })
                && !old(self).spec_portfolio_empty(
                PortfolioId { did, kind: PortfolioKind::User(num) },
            ) ==> r == Err::<(), Error>(Error::PortfolioNotEmpty) && *final(self) == *old(self),
            old(self).spec_portfolio_exists(PortfolioId { did, kind: PortfolioKind::User(num) })
                && old(self).spec_portfolio_empty(
                PortfolioId { did, kind: PortfolioKind::User(num) },
            ) ==> r == Ok::<(), Error>(()) && !final(self).spec_portfolio_exists(
                PortfolioId { did, kind: PortfolioKind::User(num) },
            ),
    {
        let ghost s0 = *old(self);
        if !crate::vecmap::assoc_contains(&self.portfolios, &(did, num)) {
            return Err(Error::PortfolioDoesNotExist);
        }
        let portfolio = PortfolioId { did, kind: PortfolioKind::User(num) };
        // The portfolio must hold no asset balance.
        let mut i: usize = 0;
        #[verifier::loop_isolation(false)]
        while i < self.portfolio_balances.len()
            invariant
                i <= self.portfolio_balances@.len(),
                forall|k: int|
                    0 <= k < i && (#[trigger] self.portfolio_balances@[k]).0.0 == portfolio
                        ==> self.portfolio_balances@[k].1 == 0,
            decreases self.portfolio_balances@.len() - i,
        {
            if self.portfolio_balances[i].0.0 == portfolio && self.portfolio_balances[i].1 > 0 {
                return Err(Error::PortfolioNotEmpty);
            }
            i = i + 1;
        }
        let _ = assoc_take(&mut self.portfolios, &(did, num));
        proof {
            crate::state::lemma_wf_frame(s0, *self);
        }
        Ok(())
    }

    /// Renames a user portfolio; it must exist and the name be unused.
    pub fn rename_portfolio(&mut self, did: IdentityId, num: u64, to_name: Vec<u8>) -> (r: Result<
        (),
        Error,
    >)
        requires
            old(self).wf(),
        ensures
            final(self).wf(),
            final(self).same_identity_state(*old(self)),
            final(self).same_registry(*old(self)),
            final(self).same_balances(*old(self)),
            final(self).same_compliance(*old(self)),
            final(self).same_config(*old(self)),
            !old(self).spec_portfolio_exists(PortfolioId { did, kind: PortfolioKind::User(num) })
                ==> r == Err::<(), Error>(Error::PortfolioDoesNotExist) && *final(self) == *old(self),
            old(self).spec_portfolio_exists(PortfolioId { did, kind: PortfolioKind::User(num) })
                && !old(self).spec_portfolio_name_unique(did, to_name@) ==> r == Err::<(), Error>(
                Error::PortfolioNameAlreadyInUse,
            ) && *final(self) == *old(self),
            old(self).spec_portfolio_exists(PortfolioId { did, kind: PortfolioKind::User(num) })
                && old(self).spec_portfolio_name_unique(did, to_name@) ==> r == Ok::<(), Error>(())
                && spec_assoc_get(final(self).portfolios@, (did, num)) == Some(to_name),
    {
        let ghost s0 = *old(self);
        if !crate::vecmap::assoc_contains(&self.portfolios, &(did, num)) {
            return Err(Error::PortfolioDoesNotExist);
        }
        if !self.portfolio_name_unique(did, &to_name) {
            return Err(Error::PortfolioNameAlreadyInUse);
        }
        assoc_insert(&mut self.portfolios, (did, num), to_name);
        proof {
            crate::state::lemma_wf_frame(s0, *self);
        }
        Ok(())
    }

    /// Moves an amount of one asset between two portfolios of the same
    /// identity, after validating existence, custody and free balance.
    pub fn move_portfolio_funds(
        &mut self,
        did: IdentityId,
        from: PortfolioId,
        to: PortfolioId,
        ticker: &Ticker,
        amount: u128,
    ) -> (r: Result<(), Error>)
        requires
            old(self).wf(),
        ensures
            final(self).wf(),
            final(self).same_identity_state(*old(self)),
            final(self).same_registry(*old(self)),
            final(self).same_balances(*old(self)),
            final(self).same_compliance(*old(self)),
            final(self).same_config(*old(self)),
            from == to ==> r == Err::<(), Error>(Error::DestinationIsSamePortfolio) && *final(self)
                == *old(self),
            from != to && from.did != to.did ==> r == Err::<(), Error>(
                Error::DifferentIdentityPortfolios,
            ) && *final(self) == *old(self),
            r is Err ==> *final(self) == *old(self),
            r is Ok <==> from != to && from.did == to.did && old(self).spec_portfolio_exists(from)
                && old(self).spec_portfolio_exists(to) && old(self).spec_custodian(from) == did
                && old(self).spec_portfolio_transfer_free_balance(from, *ticker) >= amount && old(self).spec_portfolio_balance(to, *ticker) + amount <= u128::MAX,
            r is Ok ==> final(self).spec_portfolio_balance(from, *ticker) == old(self).spec_portfolio_balance(from, *ticker) - amount && final(self).spec_portfolio_balance(
                to,
                *ticker,
            ) == old(self).spec_portfolio_balance(to, *ticker) + amount && (forall|
                k2: (PortfolioId, Ticker),
            |
                k2 != (from, *ticker) && k2 != (to, *ticker) ==> spec_assoc_get(
                    final(self).portfolio_balances@,
                    k2,
                ) == spec_assoc_get(old(self).portfolio_balances@, k2)),
    {
        let ghost s0 = *old(self);
        if from.did == to.did && from.kind == to.kind {
            proof {
                assert(from == to);
            }
            return Err(Error::DestinationIsSamePortfolio);
        }
        proof {
            assert(from != to);
        }
        if from.did != to.did {
            return Err(Error::DifferentIdentityPortfolios);
        }
        if !self.portfolio_exists(&from) || !self.portfolio_exists(&to) {
            return Err(Error::PortfolioDoesNotExist);
        }
        if self.ensure_portfolio_custody(from, did).is_err() {
            return Err(Error::UnauthorizedCustodian);
        }
        let from_balance: u128 = self.portfolio_balance(&from, ticker);
        let locked: u128 = self.locked_assets(&from, ticker);
        let free: u128 = if from_balance >= locked {
            from_balance - locked
        } else {
            0
        };
        if free < amount {
            return Err(Error::InsufficientPortfolioBalance);
        }
        let to_balance: u128 = self.portfolio_balance(&to, ticker);
        if to_balance > u128::MAX - amount {
            return Err(Error::InsufficientPortfolioBalance);
        }
        assoc_insert(&mut self.portfolio_balances, (from, *ticker), from_balance - amount);
        assoc_insert(&mut self.portfolio_balances, (to, *ticker), to_balance + amount);
        proof {
            crate::state::lemma_wf_frame(s0, *self);
        }
        Ok(())
    }

    /// Locks tokens of a portfolio so that a pending commitment cannot
    /// be spent twice; locks stack.
    pub fn lock_tokens(&mut self, portfolio: &PortfolioId, ticker: &Ticker, amount: u128) -> (r:
        Result<(), Error>)
        requires
            old(self).wf(),
        ensures
            final(self).wf(),
            final(self).same_identity_state(*old(self)),
            final(self).same_registry(*old(self)),
            final(self).same_balances(*old(self)),
            final(self).same_compliance(*old(self)),
            final(self).same_config(*old(self)),
            r is Ok <==> old(self).spec_portfolio_transfer_free_balance(*portfolio, *ticker)
                >= amount && old(self).spec_locked(*portfolio, *ticker) + amount <= u128::MAX,
            r is Err ==> *final(self) == *old(self),
            r is Ok ==> final(self).spec_locked(*portfolio, *ticker) == old(self).spec_locked(
                *portfolio,
                *ticker,
            ) + amount,
    {
        let ghost s0 = *old(self);
        let balance: u128 = self.portfolio_balance(portfolio, ticker);
        let locked: u128 = self.locked_assets(portfolio, ticker);
        let free: u128 = if balance >= locked {
            balance - locked
        } else {
            0
        };
        if free < amount {
            return Err(Error::InsufficientPortfolioBalance);
        }
        if locked > u128::MAX - amount {
            return Err(Error::InsufficientPortfolioBalance);
        }
        assoc_insert(&mut self.locked_assets, (*portfolio, *ticker), locked + amount);
        proof {
            crate::state::lemma_wf_frame(s0, *self);
        }
        Ok(())
    }

    /// Unlocks previously locked tokens.
    pub fn unlock_tokens(&mut self, portfolio: &PortfolioId, ticker: &Ticker, amount: u128) -> (r:
        Result<(), Error>)
        requires
            old(self).wf(),
        ensures
            final(self).wf(),
            final(self).same_identity_state(*old(self)),
            final(self).same_registry(*old(self)),
            final(self).same_balances(*old(self)),
            final(self).same_compliance(*old(self)),
            final(self).same_config(*old(self)),
            r is Ok <==> old(self).spec_locked(*portfolio, *ticker) >= amount,
            r is Err ==> r == Err::<(), Error>(Error::InsufficientTokensLocked) && *final(self)
                == *old(self),
            r is Ok ==> final(self).spec_locked(*portfolio, *ticker) == old(self).spec_locked(
                *portfolio,
                *ticker,
            ) - amount,
    {
        let ghost s0 = *old(self);
        let locked: u128 = self.locked_assets(portfolio, ticker);
        if locked < amount {
            return Err(Error::InsufficientTokensLocked);
        }
        assoc_insert(&mut self.locked_assets, (*portfolio, *ticker), locked - amount);
        proof {
            crate::state::lemma_wf_frame(s0, *self);
        }
        Ok(())
    }

    /// Hands custody of a portfolio to `new_custodian`; the caller
    /// must be its current custodian. The authorization handshake is
    /// the external identity collaborator's business.
    pub fn accept_portfolio_custody(
        &mut self,
        current: IdentityId,
        portfolio: PortfolioId,
        new_custodian: IdentityId,
    ) -> (r: Result<(), Error>)
        requires
            old(self).wf(),
        ensures
            final(self).wf(),
            final(self).same_identity_state(*old(self)),
            final(self).same_registry(*old(self)),
            final(self).same_balances(*old(self)),
            final(self).same_compliance(*old(self)),
            final(self).same_config(*old(self)),
            old(self).spec_custodian(portfolio) != current ==> r == Err::<(), Error>(
                Error::UnauthorizedCustodian,
            ) && *final(self) == *old(self),
            old(self).spec_custodian(portfolio) == current ==> r == Ok::<(), Error>(()) && final(self).spec_custodian(portfolio) == new_custodian,
    {
        let ghost s0 = *old(self);
        if self.ensure_portfolio_custody(portfolio, current).is_err() {
            return Err(Error::UnauthorizedCustodian);
        }
        assoc_insert(&mut self.custodians, portfolio, new_custodian);
        proof {
            crate::state::lemma_wf_frame(s0, *self);
        }
        Ok(())
    }

    /// Balance of the identity's default portfolio for one ticker.
    pub fn default_portfolio_balance(&self, did: IdentityId, ticker: &Ticker) -> (r: u128)
        ensures
            r == self.spec_portfolio_balance(
                PortfolioId { did, kind: PortfolioKind::Default },
                *ticker,
            ),
    {
        self.portfolio_balance(&PortfolioId { did, kind: PortfolioKind::Default }, ticker)
    }

    /// Balance of one of the identity's user portfolios.
    pub fn user_portfolio_balance(&self, did: IdentityId, num: u64, ticker: &Ticker) -> (r: u128)
        ensures
            r == self.spec_portfolio_balance(
                PortfolioId { did, kind: PortfolioKind::User(num) },
                *ticker,
            ),
    {
        self.portfolio_balance(&PortfolioId { did, kind: PortfolioKind::User(num) }, ticker)
    }
}

} // verus!
