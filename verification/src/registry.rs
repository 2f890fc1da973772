//! The ticker and asset registry: reservation with expiry, asset
//! creation, ownership transfers, freezing, and asset metadata.
//! The current time is handed in explicitly wherever expiry matters.
use vstd::prelude::*;
use crate::identifier::{spec_identifier_valid, Identifier};
use crate::state::{lemma_wf_balances_frame, Ledger};
use crate::types::{
    spec_ticker_ascii_ok, spec_first_nul, AssetOwnershipRelation, AssetType, Error, IdentityId,
    SecurityToken, Ticker, TickerRegistration, TickerRegistrationStatus,
};
use crate::vecmap::{
    assoc_get, assoc_insert, assoc_take, lemma_entry_get, lemma_get_entry, spec_assoc_get,
    spec_assoc_index_of,
};

verus! {

/// Every identifier in the list passes its checksum.
pub open spec fn spec_identifiers_valid(ids: Seq<Identifier>) -> bool {
    forall|i: int| 0 <= i < ids.len() ==> spec_identifier_valid(#[trigger] ids[i])
}

/// Whether every supplied identifier passes its checksum.
pub fn all_identifiers_valid(ids: &Vec<Identifier>) -> (r: bool)
    ensures
        r == spec_identifiers_valid(ids@),
{
    let mut i: usize = 0;
    while i < ids.len()
        invariant
            i <= ids@.len(),
            forall|k: int| 0 <= k < i ==> spec_identifier_valid(#[trigger] ids@[k]),
        decreases ids@.len() - i,
    {
        if !ids[i].is_valid() {
            return false;
        }
        i = i + 1;
    }
    true
}

impl Ledger {
    /// Availability of `t` with respect to `did` at time `now`: an
    /// expired or absent registration is available; otherwise the
    /// ticker belongs to its owner.
    pub open spec fn spec_ticker_status(
        self,
        t: Ticker,
        did: IdentityId,
        now: u64,
    ) -> TickerRegistrationStatus {
        match self.spec_ticker_registration(t) {
            Some(reg) => match reg.expiry {
                Some(e) => if now > e {
                    TickerRegistrationStatus::Available
                } else if reg.owner == did {
                    TickerRegistrationStatus::RegisteredByDid
                } else {
                    TickerRegistrationStatus::RegisteredByOther
                },
                None => if reg.owner == did {
                    TickerRegistrationStatus::RegisteredByDid
                } else {
                    TickerRegistrationStatus::RegisteredByOther
                },
            },
            None => TickerRegistrationStatus::Available,
        }
    }

    /// Availability of `t` with respect to `did` at time `now`.
    pub fn is_ticker_available_or_registered_to(
        &self,
        t: &Ticker,
        did: IdentityId,
        now: u64,
    ) -> (r: TickerRegistrationStatus)
        ensures
            r == self.spec_ticker_status(*t, did, now),
    {
        match assoc_get(&self.tickers, t) {
            Some(reg) => match reg.expiry {
                Some(e) => if now > e {
                    TickerRegistrationStatus::Available
                } else if reg.owner == did {
                    TickerRegistrationStatus::RegisteredByDid
                } else {
                    TickerRegistrationStatus::RegisteredByOther
                },
                None => if reg.owner == did {
                    TickerRegistrationStatus::RegisteredByDid
                } else {
                    TickerRegistrationStatus::RegisteredByOther
                },
            },
            None => TickerRegistrationStatus::Available,
        }
    }

    /// Whether `t` is free to register at time `now`: never registered,
    /// or registered with an expiry that has passed.
    pub fn is_ticker_available(&self, t: &Ticker, now: u64) -> (r: bool)
        ensures
            r == (match self.spec_ticker_registration(*t) {
                Some(reg) => reg.expiry is Some && now > reg.expiry.unwrap(),
                None => true,
            }),
    {
        match assoc_get(&self.tickers, t) {
            Some(reg) => match reg.expiry {
                Some(e) => now > e,
                None => false,
            },
            None => true,
        }
    }

    /// Whether `t` is registered to `did` and not expired at `now`.
    pub fn is_ticker_registry_valid(&self, t: &Ticker, did: IdentityId, now: u64) -> (r: bool)
        ensures
            r == (match self.spec_ticker_registration(*t) {
                Some(reg) => reg.owner == did && !(reg.expiry is Some && now > reg.expiry.unwrap()),
                None => false,
            }),
    {
        match assoc_get(&self.tickers, t) {
            Some(reg) => {
                let expired: bool = match reg.expiry {
                    Some(e) => now > e,
                    None => false,
                };
                reg.owner == did && !expired
            },
            None => false,
        }
    }

    /// The ticker's registration record, when one exists.
    pub fn ticker_registration(&self, t: &Ticker) -> (r: Option<TickerRegistration>)
        ensures
            r == self.spec_ticker_registration(*t),
    {
        match assoc_get(&self.tickers, t) {
            Some(reg) => Some(*reg),
            None => None,
        }
    }

    /// The ticker fits the configured maximum length.
    pub open spec fn spec_ticker_length_ok(self, t: Ticker) -> bool {
        spec_first_nul(t.bytes@, 0) <= self.ticker_config.max_ticker_length
    }

    /// First reason a registration of `t` to `did` would be rejected:
    /// a non-ASCII symbol, an already created asset, an over-long
    /// symbol, or a live registration held by someone (else).
    pub open spec fn spec_ticker_registration_error(
        self,
        t: Ticker,
        did: IdentityId,
        no_re_register: bool,
        now: u64,
    ) -> Option<Error> {
        if !spec_ticker_ascii_ok(t.bytes@) {
            Some(Error::TickerNotAscii)
        } else if self.spec_asset_exists(t) {
            Some(Error::AssetAlreadyCreated)
        } else if !self.spec_ticker_length_ok(t) {
            Some(Error::TickerTooLong)
        } else if self.spec_ticker_status(t, did, now) is RegisteredByOther || (
        self.spec_ticker_status(t, did, now) is RegisteredByDid && no_re_register) {
            Some(Error::TickerAlreadyRegistered)
        } else {
            None
        }
    }

    /// Stores a registration of `t` to `owner`, clearing any prior
    /// owner's ownership relation first. No validation happens here.
    fn unverified_register_ticker(&mut self, t: Ticker, owner: IdentityId, expiry: Option<u64>)
        requires
            old(self).wf(),
        ensures
            final(self).wf(),
            final(self).same_identity_state(*old(self)),
            final(self).same_balances(*old(self)),
            final(self).same_portfolios(*old(self)),
            final(self).same_compliance(*old(self)),
            final(self).same_config(*old(self)),
            final(self).tokens@ == old(self).tokens@,
            final(self).frozen@ == old(self).frozen@,
            final(self).funding_round@ == old(self).funding_round@,
            final(self).issued_in_funding_round@ == old(self).issued_in_funding_round@,
            final(self).identifiers@ == old(self).identifiers@,
            final(self).spec_ticker_registration(t) == Some(TickerRegistration { owner, expiry }),
            forall|t2: Ticker|
                t2 != t ==> spec_assoc_get(final(self).tickers@, t2) == spec_assoc_get(
                    old(self).tickers@,
                    t2,
                ),
            final(self).spec_ownership(owner, t) == AssetOwnershipRelation::TickerOwned,
            match old(self).spec_ticker_registration(t) {
                Some(reg) => reg.owner != owner ==> final(self).spec_ownership(reg.owner, t)
                    == AssetOwnershipRelation::NotOwned,
                None => true,
            },
            forall|k2: (IdentityId, Ticker)|
                k2 != (owner, t) && (match old(self).spec_ticker_registration(t) {
                    Some(reg) => k2 != (reg.owner, t),
                    None => true,
                }) ==> spec_assoc_get(final(self).ownership@, k2) == spec_assoc_get(
                    old(self).ownership@,
                    k2,
                ),
    {
        let ghost s0 = *old(self);
        let prior: Option<TickerRegistration> = self.ticker_registration(&t);
        match prior {
            Some(reg) => {
                let _ = assoc_take(&mut self.ownership, &(reg.owner, t));
            },
            None => {},
        }
        assoc_insert(&mut self.tickers, t, TickerRegistration { owner, expiry });
        assoc_insert(&mut self.ownership, (owner, t), AssetOwnershipRelation::TickerOwned);
        proof {
            lemma_rebind_sole_owner(
                s0,
                *self,
                t,
                owner,
                (match prior {
                    Some(reg) => reg.owner,
                    None => owner,
                }),
            );
            lemma_wf_after_ticker_rebind(s0, *self, t, owner);
        }
    }

    /// Registers `t` to `did` at time `now`, or extends the holder's
    /// own registration. The expiry is `now` plus the configured
    /// registration length, when one is configured.
    pub fn register_ticker(&mut self, did: IdentityId, ticker: Ticker, now: u64) -> (r: Result<
        (),
        Error,
    >)
        requires
            old(self).wf(),
            match old(self).ticker_config.registration_length {
                Some(l) => now + l <= u64::MAX,
                None => true,
            },
        ensures
            final(self).wf(),
            final(self).same_identity_state(*old(self)),
            final(self).same_balances(*old(self)),
            final(self).same_portfolios(*old(self)),
            final(self).same_compliance(*old(self)),
            final(self).same_config(*old(self)),
            final(self).tokens@ == old(self).tokens@,
            match old(self).spec_ticker_registration_error(ticker, did, false, now) {
                Some(e) => r == Err::<(), Error>(e) && *final(self) == *old(self),
                None => r == Ok::<(), Error>(()) && final(self).spec_ticker_registration(ticker)
                    == Some(
                    TickerRegistration {
                        owner: did,
                        expiry: (match old(self).ticker_config.registration_length {
                            Some(l) => Some((now + l) as u64),
                            None => None,
                        }),
                    },
                ) && final(self).spec_ownership(did, ticker)
                    == AssetOwnershipRelation::TickerOwned && (match old(self).spec_ticker_registration(ticker) {
                    Some(reg) => reg.owner != did ==> final(self).spec_ownership(reg.owner, ticker)
                        == AssetOwnershipRelation::NotOwned,
                    None => true,
                }),
            },
    {
        if !ticker.is_ascii_ok() {
            return Err(Error::TickerNotAscii);
        }
        if crate::vecmap::assoc_contains(&self.tokens, &ticker) {
            return Err(Error::AssetAlreadyCreated);
        }
        if ticker.len() > self.ticker_config.max_ticker_length as usize {
            return Err(Error::TickerTooLong);
        }
        let status: TickerRegistrationStatus = self.is_ticker_available_or_registered_to(
            &ticker,
            did,
            now,
        );
        match status {
            TickerRegistrationStatus::RegisteredByOther => {
                return Err(Error::TickerAlreadyRegistered);
            },
            _ => {},
        }
        let expiry: Option<u64> = match self.ticker_config.registration_length {
            Some(l) => Some(now + l),
            None => None,
        };
        self.unverified_register_ticker(ticker, did, expiry);
        Ok(())
    }

    /// First reason creating an asset would be rejected.
    pub open spec fn spec_create_asset_error(
        self,
        did: IdentityId,
        name: Seq<u8>,
        t: Ticker,
        identifiers: Seq<Identifier>,
        funding_round_len: nat,
        now: u64,
    ) -> Option<Error> {
        if name.len() > self.asset_name_max_length {
            Some(Error::MaxLengthOfAssetNameExceeded)
        } else if funding_round_len > self.funding_round_name_max_length {
            Some(Error::FundingRoundNameMaxLengthExceeded)
        } else if !spec_identifiers_valid(identifiers) {
            Some(Error::InvalidAssetIdentifier)
        } else if self.spec_asset_exists(t) {
            Some(Error::AssetAlreadyCreated)
        } else if !self.spec_ticker_length_ok(t) {
            Some(Error::TickerTooLong)
        } else if self.spec_ticker_status(t, did, now) is RegisteredByOther {
            Some(Error::TickerAlreadyRegistered)
        } else if self.spec_ticker_status(t, did, now) is Available && !spec_ticker_ascii_ok(
            t.bytes@,
        ) {
            Some(Error::TickerNotAscii)
        } else {
            None
        }
    }

    /// Creates the asset behind `ticker` with zero total supply:
    /// registers or finalizes the ticker, stores the token metadata,
    /// marks the creator as asset owner, and records the funding round
    /// and identifiers. To mint units afterwards, issue them.
    pub fn base_create_asset(
        &mut self,
        did: IdentityId,
        name: Vec<u8>,
        ticker: Ticker,
        divisible: bool,
        asset_type: AssetType,
        identifiers: Vec<Identifier>,
        funding_round: Option<Vec<u8>>,
        now: u64,
    ) -> (r: Result<(), Error>)
        requires
            old(self).wf(),
        ensures
            final(self).wf(),
            final(self).same_identity_state(*old(self)),
            final(self).same_balances(*old(self)),
            final(self).same_portfolios(*old(self)),
            final(self).same_compliance(*old(self)),
            final(self).same_config(*old(self)),
            match old(self).spec_create_asset_error(
                did,
                name@,
                ticker,
                identifiers@,
                (match funding_round {
                    Some(n) => n@.len(),
                    None => 0,
                }),
                now,
            ) {
                Some(e) => r == Err::<(), Error>(e) && *final(self) == *old(self),
                None => r == Ok::<(), Error>(()) && final(self).spec_token(ticker) == Some(
                    SecurityToken {
                        name,
                        total_supply: 0u128,
                        owner_did: did,
                        divisible,
                        asset_type,
                        primary_issuance_agent: None,
                    },
                ) && final(self).spec_ownership(did, ticker)
                    == AssetOwnershipRelation::AssetOwned && final(self).spec_is_owner(ticker, did)
                    && final(self).spec_ticker_registration(ticker) == Some(
                    TickerRegistration { owner: did, expiry: None },
                ) && (match old(self).spec_ticker_registration(ticker) {
                    Some(reg) => reg.owner != did ==> final(self).spec_ownership(reg.owner, ticker)
                        == AssetOwnershipRelation::NotOwned,
                    None => true,
                }) && spec_assoc_get(final(self).identifiers@, ticker) == Some(identifiers)
                    && spec_assoc_get(final(self).funding_round@, ticker) is Some
                    && spec_assoc_get(final(self).funding_round@, ticker).unwrap()@ == (
                match funding_round {
                    Some(n) => n@,
                    None => Seq::<u8>::empty(),
                }) && (forall|t2: Ticker|
                    t2 != ticker ==> spec_assoc_get(final(self).tokens@, t2) == spec_assoc_get(
                        old(self).tokens@,
                        t2,
                    )),
            },
    {
        let ghost s0 = *old(self);
        if name.len() > self.asset_name_max_length {
            return Err(Error::MaxLengthOfAssetNameExceeded);
        }
        let round_len: usize = match &funding_round {
            Some(n) => n.len(),
            None => 0,
        };
        if round_len > self.funding_round_name_max_length {
            return Err(Error::FundingRoundNameMaxLengthExceeded);
        }
        if !all_identifiers_valid(&identifiers) {
            return Err(Error::InvalidAssetIdentifier);
        }
        if crate::vecmap::assoc_contains(&self.tokens, &ticker) {
            return Err(Error::AssetAlreadyCreated);
        }
        if ticker.len() > self.ticker_config.max_ticker_length as usize {
            return Err(Error::TickerTooLong);
        }
        let status: TickerRegistrationStatus = self.is_ticker_available_or_registered_to(
            &ticker,
            did,
            now,
        );
        let available: bool = match status {
            TickerRegistrationStatus::RegisteredByOther => {
                return Err(Error::TickerAlreadyRegistered);
            },
            TickerRegistrationStatus::RegisteredByDid => false,
            TickerRegistrationStatus::Available => true,
        };
        if available && !ticker.is_ascii_ok() {
            return Err(Error::TickerNotAscii);
        }
        // All checks passed; only writes follow.
        if available {
            self.unverified_register_ticker(ticker, did, None);
        } else {
            // The holder finalizes its own registration: no expiry.
            let reg: TickerRegistration = match self.ticker_registration(&ticker) {
                Some(reg) => reg,
                None => TickerRegistration { owner: did, expiry: None },
            };
            assoc_insert(
                &mut self.tickers,
                ticker,
                TickerRegistration { owner: reg.owner, expiry: None },
            );
        }
        let ghost s1 = *self;
        let token = SecurityToken {
            name,
            total_supply: 0,
            owner_did: did,
            divisible,
            asset_type,
            primary_issuance_agent: None,
        };
        assoc_insert(&mut self.tokens, ticker, token);
        assoc_insert(&mut self.ownership, (did, ticker), AssetOwnershipRelation::AssetOwned);
        let round_name: Vec<u8> = match funding_round {
            Some(n) => n,
            None => Vec::new(),
        };
        assoc_insert(&mut self.funding_round, ticker, round_name);
        assoc_insert(&mut self.identifiers, ticker, identifiers);
        proof {
            assert forall|t2: Ticker| #[trigger] self.spec_total_supply(t2)
                == s0.spec_total_supply(t2) by {
                if t2 == ticker {
                    assert(s0.spec_total_supply(ticker) == 0);
                }
            }
            lemma_rebind_sole_owner(
                s0,
                *self,
                ticker,
                did,
                (match s0.spec_ticker_registration(ticker) {
                    Some(reg0) => reg0.owner,
                    None => did,
                }),
            );
            lemma_wf_after_ticker_rebind(s0, *self, ticker, did);
        }
        Ok(())
    }

    /// Moves the registration of `ticker` from `from` to `to`,
    /// rewriting the ownership relations accordingly. `from` must be
    /// the current registrant, when there is one.
    fn transfer_ticker(&mut self, ticker: Ticker, to: IdentityId, from: IdentityId)
        requires
            old(self).wf(),
            match old(self).spec_ticker_registration(ticker) {
                Some(reg) => from == reg.owner,
                None => true,
            },
        ensures
            final(self).wf(),
            final(self).same_identity_state(*old(self)),
            final(self).same_balances(*old(self)),
            final(self).same_portfolios(*old(self)),
            final(self).same_compliance(*old(self)),
            final(self).same_config(*old(self)),
            final(self).tokens@ == old(self).tokens@,
            final(self).frozen@ == old(self).frozen@,
            final(self).spec_ownership(to, ticker) == AssetOwnershipRelation::TickerOwned,
            from != to ==> final(self).spec_ownership(from, ticker)
                == AssetOwnershipRelation::NotOwned,
            final(self).spec_ticker_registration(ticker) == Some(
                TickerRegistration {
                    owner: to,
                    expiry: (match old(self).spec_ticker_registration(ticker) {
                        Some(reg) => reg.expiry,
                        None => None,
                    }),
                },
            ),
    {
        let ghost s0 = *old(self);
        let _ = assoc_take(&mut self.ownership, &(from, ticker));
        assoc_insert(&mut self.ownership, (to, ticker), AssetOwnershipRelation::TickerOwned);
        let expiry: Option<u64> = match assoc_get(&self.tickers, &ticker) {
            Some(reg) => reg.expiry,
            None => None,
        };
        assoc_insert(&mut self.tickers, ticker, TickerRegistration { owner: to, expiry });
        proof {
            lemma_rebind_sole_owner(s0, *self, ticker, to, from);
            lemma_wf_after_ticker_rebind(s0, *self, ticker, to);
        }
    }

    /// Accepts a ticker transfer to `to_did`: the authorization itself
    /// is consumed by the external identity collaborator beforehand.
    pub fn accept_ticker_transfer(&mut self, to_did: IdentityId, ticker: Ticker) -> (r: Result<
        (),
        Error,
    >)
        requires
            old(self).wf(),
        ensures
            final(self).wf(),
            final(self).same_identity_state(*old(self)),
            final(self).same_balances(*old(self)),
            final(self).same_portfolios(*old(self)),
            final(self).same_compliance(*old(self)),
            final(self).same_config(*old(self)),
            old(self).spec_asset_exists(ticker) ==> r == Err::<(), Error>(
                Error::AssetAlreadyCreated,
            ) && *final(self) == *old(self),
            !old(self).spec_asset_exists(ticker) ==> r == Ok::<(), Error>(()) && final(self).spec_ownership(to_did, ticker) == AssetOwnershipRelation::TickerOwned && final(self).spec_ticker_registration(ticker) is Some && final(self).spec_ticker_registration(
                ticker,
            ).unwrap().owner == to_did,
    {
        if crate::vecmap::assoc_contains(&self.tokens, &ticker) {
            return Err(Error::AssetAlreadyCreated);
        }
        let owner: IdentityId = match assoc_get(&self.tickers, &ticker) {
            Some(reg) => reg.owner,
            None => IdentityId { hi: 0, lo: 0 },
        };
        self.transfer_ticker(ticker, to_did, owner);
        Ok(())
    }

    /// Accepts a primary-issuance-agent transfer: `to_did` becomes the
    /// asset's issuance agent.
    pub fn accept_primary_issuance_agent_transfer(
        &mut self,
        to_did: IdentityId,
        ticker: Ticker,
    ) -> (r: Result<(), Error>)
        requires
            old(self).wf(),
        ensures
            final(self).wf(),
            final(self).same_identity_state(*old(self)),
            final(self).same_balances(*old(self)),
            final(self).same_portfolios(*old(self)),
            final(self).same_compliance(*old(self)),
            final(self).same_config(*old(self)),
            !old(self).spec_asset_exists(ticker) ==> r == Err::<(), Error>(Error::NoSuchAsset)
                && *final(self) == *old(self),
            old(self).spec_asset_exists(ticker) ==> r == Ok::<(), Error>(()) && final(self).spec_token(ticker) is Some && final(self).spec_token(
                ticker,
            ).unwrap().primary_issuance_agent == Some(to_did) && final(self).spec_token(
                ticker,
            ).unwrap().total_supply == old(self).spec_token(ticker).unwrap().total_supply,
    {
        let ghost s0 = *old(self);
        let token: SecurityToken = match assoc_take(&mut self.tokens, &ticker) {
            None => {
                return Err(Error::NoSuchAsset);
            },
            Some(tok) => tok,
        };
        let new_token = SecurityToken {
            name: token.name,
            total_supply: token.total_supply,
            owner_did: token.owner_did,
            divisible: token.divisible,
            asset_type: token.asset_type,
            primary_issuance_agent: Some(to_did),
        };
        assoc_insert(&mut self.tokens, ticker, new_token);
        proof {
            lemma_registry_token_update_wf(s0, *self, ticker);
        }
        Ok(())
    }

    /// Accepts an asset ownership transfer: `to_did` becomes the
    /// asset's and the ticker's owner, and the prior owner's relation
    /// is cleared.
    pub fn accept_asset_ownership_transfer(&mut self, to_did: IdentityId, ticker: Ticker) -> (r:
        Result<(), Error>)
        requires
            old(self).wf(),
        ensures
            final(self).wf(),
            final(self).same_identity_state(*old(self)),
            final(self).same_balances(*old(self)),
            final(self).same_portfolios(*old(self)),
            final(self).same_compliance(*old(self)),
            final(self).same_config(*old(self)),
            !old(self).spec_asset_exists(ticker) ==> r == Err::<(), Error>(Error::NoSuchAsset)
                && *final(self) == *old(self),
            old(self).spec_asset_exists(ticker) ==> r == Ok::<(), Error>(()) && final(self).spec_ownership(to_did, ticker) == AssetOwnershipRelation::AssetOwned && final(self).spec_token(ticker) is Some && final(self).spec_token(ticker).unwrap().owner_did
                == to_did && final(self).spec_token(ticker).unwrap().total_supply == old(self).spec_token(ticker).unwrap().total_supply,
    {
        let ghost s0 = *old(self);
        if !crate::vecmap::assoc_contains(&self.tokens, &ticker) {
            return Err(Error::NoSuchAsset);
        }
        let prior_owner: IdentityId = match assoc_get(&self.tickers, &ticker) {
            Some(reg) => reg.owner,
            None => IdentityId { hi: 0, lo: 0 },
        };
        let _ = assoc_take(&mut self.ownership, &(prior_owner, ticker));
        assoc_insert(&mut self.ownership, (to_did, ticker), AssetOwnershipRelation::AssetOwned);
        let expiry: Option<u64> = match assoc_get(&self.tickers, &ticker) {
            Some(reg) => reg.expiry,
            None => None,
        };
        assoc_insert(&mut self.tickers, ticker, TickerRegistration { owner: to_did, expiry });
        let token: SecurityToken = match assoc_take(&mut self.tokens, &ticker) {
            None => {
                proof {
                    assert(false);
                }
                return Err(Error::NoSuchAsset);
            },
            Some(tok) => tok,
        };
        let new_token = SecurityToken {
            name: token.name,
            total_supply: token.total_supply,
            owner_did: to_did,
            divisible: token.divisible,
            asset_type: token.asset_type,
            primary_issuance_agent: token.primary_issuance_agent,
        };
        assoc_insert(&mut self.tokens, ticker, new_token);
        proof {
            assert forall|t2: Ticker| #[trigger] self.spec_total_supply(t2)
                == s0.spec_total_supply(t2) by {}
            lemma_rebind_sole_owner(s0, *self, ticker, to_did, prior_owner);
            lemma_wf_after_ticker_rebind(s0, *self, ticker, to_did);
        }
        Ok(())
    }

    /// Freezes or unfreezes transfers of `ticker`. Freezing an already
    /// frozen asset is rejected, and symmetrically for unfreezing.
    pub fn set_freeze(&mut self, did: IdentityId, ticker: Ticker, freeze: bool) -> (r: Result<
        (),
        Error,
    >)
        requires
            old(self).wf(),
        ensures
            final(self).wf(),
            final(self).same_identity_state(*old(self)),
            final(self).same_balances(*old(self)),
            final(self).same_portfolios(*old(self)),
            final(self).same_compliance(*old(self)),
            final(self).same_config(*old(self)),
            final(self).tokens@ == old(self).tokens@,
            !old(self).spec_is_owner(ticker, did) ==> r == Err::<(), Error>(Error::Unauthorized)
                && *final(self) == *old(self),
            old(self).spec_is_owner(ticker, did) && !old(self).spec_asset_exists(ticker) ==> r
                == Err::<(), Error>(Error::NoSuchAsset) && *final(self) == *old(self),
            old(self).spec_is_owner(ticker, did) && old(self).spec_asset_exists(ticker) && old(self).spec_frozen(ticker) == freeze ==> r == Err::<(), Error>(
                if freeze {
                    Error::AlreadyFrozen
                } else {
                    Error::NotFrozen
                },
            ) && *final(self) == *old(self),
            old(self).spec_is_owner(ticker, did) && old(self).spec_asset_exists(ticker) && old(self).spec_frozen(ticker) != freeze ==> r == Ok::<(), Error>(()) && final(self).spec_frozen(ticker) == freeze,
    {
        let ghost s0 = *old(self);
        if !self.is_owner(&ticker, did) {
            return Err(Error::Unauthorized);
        }
        if !crate::vecmap::assoc_contains(&self.tokens, &ticker) {
            return Err(Error::NoSuchAsset);
        }
        if self.frozen(&ticker) == freeze {
            if freeze {
                return Err(Error::AlreadyFrozen);
            }
            return Err(Error::NotFrozen);
        }
        assoc_insert(&mut self.frozen, ticker, freeze);
        proof {
            crate::state::lemma_wf_frame(s0, *self);
        }
        Ok(())
    }

    /// Freezes transfers and minting of `ticker`.
    pub fn freeze(&mut self, did: IdentityId, ticker: Ticker) -> (r: Result<(), Error>)
        requires
            old(self).wf(),
        ensures
            final(self).wf(),
            r is Ok <==> old(self).spec_is_owner(ticker, did) && old(self).spec_asset_exists(
                ticker,
            ) && !old(self).spec_frozen(ticker),
            r is Ok ==> final(self).spec_frozen(ticker),
            r is Err ==> *final(self) == *old(self),
    {
        self.set_freeze(did, ticker, true)
    }

    /// Unfreezes transfers and minting of `ticker`.
    pub fn unfreeze(&mut self, did: IdentityId, ticker: Ticker) -> (r: Result<(), Error>)
        requires
            old(self).wf(),
        ensures
            final(self).wf(),
            r is Ok <==> old(self).spec_is_owner(ticker, did) && old(self).spec_asset_exists(
                ticker,
            ) && old(self).spec_frozen(ticker),
            r is Ok ==> !final(self).spec_frozen(ticker),
            r is Err ==> *final(self) == *old(self),
    {
        self.set_freeze(did, ticker, false)
    }

    /// Renames the asset behind `ticker`.
    pub fn base_rename_asset(&mut self, did: IdentityId, ticker: Ticker, name: Vec<u8>) -> (r:
        Result<(), Error>)
        requires
            old(self).wf(),
        ensures
            final(self).wf(),
            final(self).same_identity_state(*old(self)),
            final(self).same_balances(*old(self)),
            final(self).same_compliance(*old(self)),
            final(self).same_config(*old(self)),
            name@.len() > old(self).asset_name_max_length ==> r == Err::<(), Error>(
                Error::MaxLengthOfAssetNameExceeded,
            ) && *final(self) == *old(self),
            name@.len() <= old(self).asset_name_max_length && !old(self).spec_is_owner(ticker, did)
                ==> r == Err::<(), Error>(Error::Unauthorized) && *final(self) == *old(self),
            name@.len() <= old(self).asset_name_max_length && old(self).spec_is_owner(ticker, did)
                && !old(self).spec_asset_exists(ticker) ==> r == Err::<(), Error>(
                Error::NoSuchAsset,
            ) && *final(self) == *old(self),
            name@.len() <= old(self).asset_name_max_length && old(self).spec_is_owner(ticker, did)
                && old(self).spec_asset_exists(ticker) ==> r == Ok::<(), Error>(()) && final(self).spec_token(ticker) is Some && final(self).spec_token(ticker).unwrap().name@ == name@
                && final(self).spec_token(ticker).unwrap().total_supply == old(self).spec_token(
                ticker,
            ).unwrap().total_supply,
    {
        let ghost s0 = *old(self);
        if name.len() > self.asset_name_max_length {
            return Err(Error::MaxLengthOfAssetNameExceeded);
        }
        if !self.is_owner(&ticker, did) {
            return Err(Error::Unauthorized);
        }
        let token: SecurityToken = match assoc_take(&mut self.tokens, &ticker) {
            None => {
                return Err(Error::NoSuchAsset);
            },
            Some(tok) => tok,
        };
        let new_token = SecurityToken {
            name,
            total_supply: token.total_supply,
            owner_did: token.owner_did,
            divisible: token.divisible,
            asset_type: token.asset_type,
            primary_issuance_agent: token.primary_issuance_agent,
        };
        assoc_insert(&mut self.tokens, ticker, new_token);
        proof {
            lemma_registry_token_update_wf(s0, *self, ticker);
        }
        Ok(())
    }

    /// Makes an indivisible asset divisible.
    pub fn base_make_divisible(&mut self, did: IdentityId, ticker: Ticker) -> (r: Result<
        (),
        Error,
    >)
        requires
            old(self).wf(),
        ensures
            final(self).wf(),
            final(self).same_identity_state(*old(self)),
            final(self).same_balances(*old(self)),
            final(self).same_compliance(*old(self)),
            final(self).same_config(*old(self)),
            !old(self).spec_is_owner(ticker, did) ==> r == Err::<(), Error>(Error::Unauthorized)
                && *final(self) == *old(self),
            old(self).spec_is_owner(ticker, did) && !old(self).spec_asset_exists(ticker) ==> r
                == Err::<(), Error>(Error::NoSuchAsset) && *final(self) == *old(self),
            old(self).spec_is_owner(ticker, did) && old(self).spec_asset_exists(ticker) && old(self).spec_token(ticker).unwrap().divisible ==> r == Err::<(), Error>(
                Error::AssetAlreadyDivisible,
            ) && *final(self) == *old(self),
            old(self).spec_is_owner(ticker, did) && old(self).spec_asset_exists(ticker) && !old(self).spec_token(ticker).unwrap().divisible ==> r == Ok::<(), Error>(()) && final(self).spec_token(ticker) is Some && final(self).spec_token(ticker).unwrap().divisible
                && final(self).spec_token(ticker).unwrap().total_supply == old(self).spec_token(
                ticker,
            ).unwrap().total_supply,
    {
        let ghost s0 = *old(self);
        if !self.is_owner(&ticker, did) {
            return Err(Error::Unauthorized);
        }
        let divisible: bool = match assoc_get(&self.tokens, &ticker) {
            None => {
                return Err(Error::NoSuchAsset);
            },
            Some(tok) => tok.divisible,
        };
        if divisible {
            return Err(Error::AssetAlreadyDivisible);
        }
        let token: SecurityToken = match assoc_take(&mut self.tokens, &ticker) {
            None => {
                proof {
                    assert(false);
                }
                return Err(Error::NoSuchAsset);
            },
            Some(tok) => tok,
        };
        let new_token = SecurityToken {
            name: token.name,
            total_supply: token.total_supply,
            owner_did: token.owner_did,
            divisible: true,
            asset_type: token.asset_type,
            primary_issuance_agent: token.primary_issuance_agent,
        };
        assoc_insert(&mut self.tokens, ticker, new_token);
        proof {
            lemma_registry_token_update_wf(s0, *self, ticker);
        }
        Ok(())
    }

    /// Clears the asset's primary issuance agent; issuance falls back
    /// to the asset owner.
    pub fn base_remove_primary_issuance_agent(&mut self, did: IdentityId, ticker: Ticker) -> (r:
        Result<(), Error>)
        requires
            old(self).wf(),
        ensures
            final(self).wf(),
            final(self).same_identity_state(*old(self)),
            final(self).same_balances(*old(self)),
            final(self).same_compliance(*old(self)),
            final(self).same_config(*old(self)),
            !old(self).spec_is_owner(ticker, did) ==> r == Err::<(), Error>(Error::Unauthorized)
                && *final(self) == *old(self),
            old(self).spec_is_owner(ticker, did) && !old(self).spec_asset_exists(ticker) ==> r
                == Err::<(), Error>(Error::NoSuchAsset) && *final(self) == *old(self),
            old(self).spec_is_owner(ticker, did) && old(self).spec_asset_exists(ticker) ==> r
                == Ok::<(), Error>(()) && final(self).spec_token(ticker) is Some && final(self).spec_token(ticker).unwrap().primary_issuance_agent is None && final(self).spec_token(
                ticker,
            ).unwrap().total_supply == old(self).spec_token(ticker).unwrap().total_supply,
    {
        let ghost s0 = *old(self);
        if !self.is_owner(&ticker, did) {
            return Err(Error::Unauthorized);
        }
        let token: SecurityToken = match assoc_take(&mut self.tokens, &ticker) {
            None => {
                return Err(Error::NoSuchAsset);
            },
            Some(tok) => tok,
        };
        let new_token = SecurityToken {
            name: token.name,
            total_supply: token.total_supply,
            owner_did: token.owner_did,
            divisible: token.divisible,
            asset_type: token.asset_type,
            primary_issuance_agent: None,
        };
        assoc_insert(&mut self.tokens, ticker, new_token);
        proof {
            lemma_registry_token_update_wf(s0, *self, ticker);
        }
        Ok(())
    }

    /// Names the asset's current funding round; a different name
    /// starts the round's issuance total afresh.
    pub fn base_set_funding_round(&mut self, did: IdentityId, ticker: Ticker, name: Vec<u8>) -> (r:
        Result<(), Error>)
        requires
            old(self).wf(),
        ensures
            final(self).wf(),
            final(self).same_identity_state(*old(self)),
            final(self).same_balances(*old(self)),
            final(self).same_compliance(*old(self)),
            final(self).same_config(*old(self)),
            final(self).tokens@ == old(self).tokens@,
            name@.len() > old(self).funding_round_name_max_length ==> r == Err::<(), Error>(
                Error::FundingRoundNameMaxLengthExceeded,
            ) && *final(self) == *old(self),
            name@.len() <= old(self).funding_round_name_max_length && !old(self).spec_is_owner(
                ticker,
                did,
            ) ==> r == Err::<(), Error>(Error::Unauthorized) && *final(self) == *old(self),
            name@.len() <= old(self).funding_round_name_max_length && old(self).spec_is_owner(
                ticker,
                did,
            ) ==> r == Ok::<(), Error>(()) && spec_assoc_get(final(self).funding_round@, ticker)
                is Some && spec_assoc_get(final(self).funding_round@, ticker).unwrap()@ == name@
                && final(self).spec_issued_in_round(ticker) == (match spec_assoc_get(
                old(self).funding_round@,
                ticker,
            ) {
                Some(current) => if current@ == name@ {
                    old(self).spec_issued_in_round(ticker)
                } else {
                    0u128
                },
                None => 0u128,
            }) && (forall|t2: Ticker|
                t2 != ticker ==> spec_assoc_get(final(self).issued_in_funding_round@, t2)
                    == spec_assoc_get(old(self).issued_in_funding_round@, t2)),
    {
        let ghost s0 = *old(self);
        if name.len() > self.funding_round_name_max_length {
            return Err(Error::FundingRoundNameMaxLengthExceeded);
        }
        if !self.is_owner(&ticker, did) {
            return Err(Error::Unauthorized);
        }
        let same_name: bool = match assoc_get(&self.funding_round, &ticker) {
            Some(current) => crate::types::eq_u8_vec(current, &name),
            None => false,
        };
        if !same_name {
            assoc_insert(&mut self.issued_in_funding_round, ticker, 0u128);
        }
        assoc_insert(&mut self.funding_round, ticker, name);
        proof {
            crate::state::lemma_wf_frame(s0, *self);
        }
        Ok(())
    }

    /// Replaces the asset's validated identifiers.
    pub fn base_update_identifiers(
        &mut self,
        did: IdentityId,
        ticker: Ticker,
        identifiers: Vec<Identifier>,
    ) -> (r: Result<(), Error>)
        requires
            old(self).wf(),
        ensures
            final(self).wf(),
            final(self).same_identity_state(*old(self)),
            final(self).same_balances(*old(self)),
            final(self).same_compliance(*old(self)),
            final(self).same_config(*old(self)),
            final(self).tokens@ == old(self).tokens@,
            !old(self).spec_is_owner(ticker, did) ==> r == Err::<(), Error>(Error::Unauthorized)
                && *final(self) == *old(self),
            old(self).spec_is_owner(ticker, did) && !spec_identifiers_valid(identifiers@) ==> r
                == Err::<(), Error>(Error::InvalidAssetIdentifier) && *final(self) == *old(self),
            old(self).spec_is_owner(ticker, did) && spec_identifiers_valid(identifiers@) ==> r
                == Ok::<(), Error>(()) && spec_assoc_get(final(self).identifiers@, ticker) == Some(
                identifiers,
            ),
    {
        let ghost s0 = *old(self);
        if !self.is_owner(&ticker, did) {
            return Err(Error::Unauthorized);
        }
        if !all_identifiers_valid(&identifiers) {
            return Err(Error::InvalidAssetIdentifier);
        }
        assoc_insert(&mut self.identifiers, ticker, identifiers);
        proof {
            crate::state::lemma_wf_frame(s0, *self);
        }
        Ok(())
    }
}

impl Ledger {
    /// Checks a secondary key's asset permission: the primary key,
    /// acting without a secondary key, may touch everything.
    pub fn ensure_asset_perms(
        &self,
        secondary_key: Option<&crate::signing_key::SigningKey>,
        ticker: &Ticker,
    ) -> (r: Result<(), Error>)
        ensures
            r == (match secondary_key {
                Some(sk) => (match sk.permissions.asset {
                    crate::signing_key::Subset::All => Ok::<(), Error>(()),
                    crate::signing_key::Subset::Elems(a) => if a@.contains(*ticker) {
                        Ok::<(), Error>(())
                    } else {
                        Err::<(), Error>(Error::SecondaryKeyNotAuthorizedForAsset)
                    },
                }),
                None => Ok::<(), Error>(()),
            }),
    {
        match secondary_key {
            Some(sk) => {
                if sk.has_asset_permission(*ticker) {
                    Ok(())
                } else {
                    Err(Error::SecondaryKeyNotAuthorizedForAsset)
                }
            },
            None => Ok(()),
        }
    }

    /// Checks that `did` owns the asset behind `ticker` and that the
    /// acting secondary key, when there is one, may touch the asset.
    pub fn ensure_perms_owner_asset(
        &self,
        did: IdentityId,
        secondary_key: Option<&crate::signing_key::SigningKey>,
        ticker: &Ticker,
    ) -> (r: Result<(), Error>)
        ensures
            !self.spec_is_owner(*ticker, did) ==> r == Err::<(), Error>(Error::Unauthorized),
            self.spec_is_owner(*ticker, did) ==> r == (match secondary_key {
                Some(sk) => (match sk.permissions.asset {
                    crate::signing_key::Subset::All => Ok::<(), Error>(()),
                    crate::signing_key::Subset::Elems(a) => if a@.contains(*ticker) {
                        Ok::<(), Error>(())
                    } else {
                        Err::<(), Error>(Error::SecondaryKeyNotAuthorizedForAsset)
                    },
                }),
                None => Ok::<(), Error>(()),
            }),
    {
        if !self.is_owner(ticker, did) {
            return Err(Error::Unauthorized);
        }
        self.ensure_asset_perms(secondary_key, ticker)
    }

    /// Creates an asset and mints its initial supply in one request:
    /// everything the minting could reject is validated before the
    /// asset is created, so the pair commits or fails as one.
    pub fn base_create_asset_and_mint(
        &mut self,
        did: IdentityId,
        name: Vec<u8>,
        ticker: Ticker,
        total_supply: u128,
        divisible: bool,
        asset_type: AssetType,
        identifiers: Vec<Identifier>,
        funding_round: Option<Vec<u8>>,
        now: u64,
    ) -> (r: Result<(), Error>)
        requires
            old(self).wf(),
        ensures
            final(self).wf(),
            final(self).same_identity_state(*old(self)),
            final(self).same_compliance(*old(self)),
            final(self).same_config(*old(self)),
            r is Err ==> *final(self) == *old(self),
            !divisible && total_supply % crate::ONE_UNIT != 0 ==> r == Err::<(), Error>(
                Error::InvalidGranularity,
            ),
            (divisible || total_supply % crate::ONE_UNIT == 0) && total_supply > crate::MAX_SUPPLY
                ==> r == Err::<(), Error>(Error::TotalSupplyAboveLimit),
            r is Ok <==> (divisible || total_supply % crate::ONE_UNIT == 0) && total_supply
                <= crate::MAX_SUPPLY && old(self).spec_create_asset_error(
                did,
                name@,
                ticker,
                identifiers@,
                (match funding_round {
                    Some(n) => n@.len(),
                    None => 0,
                }),
                now,
            ) is None,
            r is Err && (divisible || total_supply % crate::ONE_UNIT == 0) && total_supply
                <= crate::MAX_SUPPLY ==> r == Err::<(), Error>(
                old(self).spec_create_asset_error(
                    did,
                    name@,
                    ticker,
                    identifiers@,
                    (match funding_round {
                        Some(n) => n@.len(),
                        None => 0,
                    }),
                    now,
                ).unwrap(),
            ),
            r is Ok ==> final(self).spec_token(ticker) is Some && final(self).spec_total_supply(
                ticker,
            ) == total_supply && final(self).spec_balance(ticker, did) == total_supply && final(self).spec_is_owner(ticker, did),
    {
        // Minting must not be able to fail once the asset exists.
        if !divisible && total_supply % crate::ONE_UNIT != 0 {
            return Err(Error::InvalidGranularity);
        }
        if total_supply > crate::MAX_SUPPLY {
            return Err(Error::TotalSupplyAboveLimit);
        }
        let created = self.base_create_asset(
            did,
            name,
            ticker,
            divisible,
            asset_type,
            identifiers,
            funding_round,
            now,
        );
        match created {
            Err(e) => Err(e),
            Ok(()) => {
                if total_supply > 0 {
                    proof {
                        assert(self.spec_asset_exists(ticker));
                        assert(self.spec_total_supply(ticker) == 0);
                        assert(self.spec_check_granularity(ticker, total_supply));
                        // A fresh asset's creator starts from nothing:
                        // the zero supply bounds every balance.
                        crate::transfer::lemma_balance_le_sum(*self, ticker, did);
                        assert(self.spec_balance(ticker, did) == 0);
                    }
                    let minted = self.mint(&ticker, did, total_supply);
                    proof {
                        assert(minted is Ok);
                    }
                    minted
                } else {
                    proof {
                        crate::transfer::lemma_balance_le_sum(*self, ticker, did);
                        assert(self.spec_balance(ticker, did) == 0);
                    }
                    Ok(())
                }
            },
        }
    }
}

/// After a rebinding that cleared the row `(removed_id, t)` and wrote
/// only `(new_owner, t)` among ticker `t`'s ownership rows, no owned
/// relation for `t` names anyone but `new_owner`.
proof fn lemma_rebind_sole_owner(
    s0: Ledger,
    sf: Ledger,
    t: Ticker,
    new_owner: IdentityId,
    removed_id: IdentityId,
)
    requires
        s0.wf(),
        sf.wf_unique(),
        removed_id == new_owner || (match spec_assoc_get(sf.ownership@, (removed_id, t)) {
            Some(rel) => rel is NotOwned,
            None => true,
        }),
        forall|k2: (IdentityId, Ticker)|
            k2 != (new_owner, t) && k2 != (removed_id, t) ==> spec_assoc_get(sf.ownership@, k2)
                == spec_assoc_get(s0.ownership@, k2),
        match spec_assoc_get(s0.tickers@, t) {
            Some(reg0) => reg0.owner == removed_id || reg0.owner == new_owner,
            None => true,
        },
    ensures
        forall|i: int|
            0 <= i < sf.ownership@.len() && (#[trigger] sf.ownership@[i]).0.1 == t && !(
            sf.ownership@[i].1 is NotOwned) ==> sf.ownership@[i].0.0 == new_owner,
{
    assert forall|i: int|
        0 <= i < sf.ownership@.len() && (#[trigger] sf.ownership@[i]).0.1 == t && !(
        sf.ownership@[i].1 is NotOwned) implies sf.ownership@[i].0.0 == new_owner by {
        let e = sf.ownership@[i];
        if e.0.0 != new_owner {
            lemma_entry_get(sf.ownership@, i);
            // The row survived the rebinding, so it predates it.
            assert(e.0 != (removed_id, t));
            assert(spec_assoc_get(s0.ownership@, e.0) == Some(e.1));
            lemma_get_entry(s0.ownership@, e.0);
            let j = spec_assoc_index_of(s0.ownership@, e.0);
            assert(!(s0.ownership@[j].1 is NotOwned));
            // The old owned-by-registrant rule pins its identity to
            // the prior registrant, which the rebinding cleared.
            assert(false);
        }
    }
}

/// Re-establishes well-formedness after an operation that rewrote
/// only ticker `t`'s registration and its ownership rows, leaving
/// `new_owner` as the ticker's registrant and its sole owned identity.
proof fn lemma_wf_after_ticker_rebind(s0: Ledger, sf: Ledger, t: Ticker, new_owner: IdentityId)
    requires
        s0.wf(),
        sf.wf_unique(),
        sf.balance_of@ == s0.balance_of@,
        forall|t2: Ticker| #[trigger] sf.spec_total_supply(t2) == s0.spec_total_supply(t2),
        sf.scope_id_of@ == s0.scope_id_of@,
        sf.balance_at_scope@ == s0.balance_at_scope@,
        sf.aggregate_balance@ == s0.aggregate_balance@,
        sf.compliances@ == s0.compliances@,
        sf.requirement_counter@ == s0.requirement_counter@,
        match spec_assoc_get(sf.tickers@, t) {
            Some(reg) => reg.owner == new_owner,
            None => false,
        },
        forall|t2: Ticker|
            t2 != t ==> spec_assoc_get(sf.tickers@, t2) == spec_assoc_get(s0.tickers@, t2),
        forall|k2: (IdentityId, Ticker)|
            k2.1 != t ==> spec_assoc_get(sf.ownership@, k2) == spec_assoc_get(s0.ownership@, k2),
        forall|i: int|
            0 <= i < sf.ownership@.len() && (#[trigger] sf.ownership@[i]).0.1 == t && !(
            sf.ownership@[i].1 is NotOwned) ==> sf.ownership@[i].0.0 == new_owner,
    ensures
        sf.wf(),
{
    assert forall|t2: Ticker, j: int|
        0 <= j < sf.spec_requirements(t2).len() implies (#[trigger] sf.spec_requirements(t2)[
    j]).id <= sf.spec_counter(t2) by {
        assert(sf.spec_requirements(t2) == s0.spec_requirements(t2));
        assert(s0.spec_requirements(t2)[j].id <= s0.spec_counter(t2));
    }
    lemma_wf_balances_frame(s0, sf);
    assert forall|i: int|
        0 <= i < sf.ownership@.len() && !((#[trigger] sf.ownership@[i]).1 is NotOwned) implies (
    match spec_assoc_get(sf.tickers@, sf.ownership@[i].0.1) {
        Some(reg) => reg.owner == sf.ownership@[i].0.0,
        None => false,
    }) by {
        let e = sf.ownership@[i];
        if e.0.1 != t {
            // An untouched row: its registration is also untouched.
            lemma_entry_get(sf.ownership@, i);
            assert(spec_assoc_get(s0.ownership@, e.0) == Some(e.1));
            lemma_get_entry(s0.ownership@, e.0);
            let j = spec_assoc_index_of(s0.ownership@, e.0);
            assert(!(s0.ownership@[j].1 is NotOwned));
        }
    }
}

/// A token rewrite that keeps the total supply keeps the ledger well
/// formed, whatever metadata moved.
proof fn lemma_registry_token_update_wf(s0: Ledger, sf: Ledger, t: Ticker)
    requires
        s0.wf(),
        sf.wf_unique(),
        sf.balance_of@ == s0.balance_of@,
        sf.tickers@ == s0.tickers@,
        sf.ownership@ == s0.ownership@,
        sf.scope_id_of@ == s0.scope_id_of@,
        sf.balance_at_scope@ == s0.balance_at_scope@,
        sf.aggregate_balance@ == s0.aggregate_balance@,
        sf.compliances@ == s0.compliances@,
        sf.requirement_counter@ == s0.requirement_counter@,
        forall|t2: Ticker|
            t2 != t ==> spec_assoc_get(sf.tokens@, t2) == spec_assoc_get(s0.tokens@, t2),
        sf.spec_total_supply(t) == s0.spec_total_supply(t),
    ensures
        sf.wf(),
{
    assert forall|t2: Ticker| #[trigger] sf.spec_total_supply(t2) == s0.spec_total_supply(t2) by {}
    lemma_wf_balances_frame(s0, sf);
    crate::state::lemma_wf_ownership_frame(s0, sf);
    assert forall|t2: Ticker, j: int|
        0 <= j < sf.spec_requirements(t2).len() implies (#[trigger] sf.spec_requirements(t2)[
    j]).id <= sf.spec_counter(t2) by {
        assert(sf.spec_requirements(t2) == s0.spec_requirements(t2));
        assert(s0.spec_requirements(t2)[j].id <= s0.spec_counter(t2));
    }
}

} // verus!
