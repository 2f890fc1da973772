//! The two faces of transfer validation: the fail-fast execution check
//! used right before mutating the ledger, and the full diagnostic
//! report that evaluates every check independently.
//!
//! Statistical (transfer-manager) limits are delegated to an external
//! collaborator: the caller hands its verdict in, as one boolean for
//! the fail-fast check and as per-rule results for the diagnostic report.
use vstd::prelude::*;
use crate::compliance::AssetComplianceResult;
use crate::state::Ledger;
use crate::types::{Error, IdentityId, PortfolioId, Ticker};
use crate::{
    COMPLIANCE_MANAGER_FAILURE, CUSTODIAN_ERROR, ERC1400_INSUFFICIENT_BALANCE,
    ERC1400_TRANSFERS_HALTED, ERC1400_TRANSFER_SUCCESS, INVALID_GRANULARITY, INVALID_RECEIVER_DID,
    INVALID_SENDER_DID, PORTFOLIO_FAILURE, SCOPE_CLAIM_MISSING, TRANSFER_MANAGER_FAILURE,
};

verus! {

/// Verdict of one statistical transfer rule, supplied by the external
/// statistics collaborator.
#[derive(Clone, Copy, Debug, PartialEq, Eq, Structural)]
pub struct TransferManagerResult {
    /// Tag of the rule the verdict belongs to.
    pub rule: u64,
    /// Whether the rule admits the transfer.
    pub result: bool,
}

/// Outcome of every portfolio-level check of a transfer.
#[derive(Clone, Copy, Debug, PartialEq, Eq, Structural)]
pub struct PortfolioValidityResult {
    pub receiver_is_same_portfolio: bool,
    pub sender_portfolio_does_not_exist: bool,
    pub receiver_portfolio_does_not_exist: bool,
    pub sender_insufficient_balance: bool,
    /// Whether every portfolio-level check passed.
    pub result: bool,
}

/// Full diagnostic report of one prospective transfer: one flag per
/// check, the detailed portfolio, statistics and compliance outcomes,
/// and the conjunction of everything.
#[derive(Clone, Debug, PartialEq, Eq)]
pub struct GranularCanTransferResult {
    pub invalid_granularity: bool,
    pub self_transfer: bool,
    pub invalid_receiver_cdd: bool,
    pub invalid_sender_cdd: bool,
    pub missing_scope_claim: bool,
    pub receiver_custodian_error: bool,
    pub sender_custodian_error: bool,
    pub sender_insufficient_balance: bool,
    pub asset_frozen: bool,
    /// Whether every check passed.
    pub result: bool,
    pub statistics_result: Vec<TransferManagerResult>,
    pub compliance_result: AssetComplianceResult,
    pub portfolio_validity_result: PortfolioValidityResult,
}

/// Every supplied statistics rule admits the transfer.
pub open spec fn spec_stats_all_ok(stats: Seq<TransferManagerResult>) -> bool {
    forall|i: int| 0 <= i < stats.len() ==> (#[trigger] stats[i]).result
}

impl Ledger {
    /// Outcome of the short-circuit validation of one transfer,
    /// evaluated right before the ledger moves any balance, with
    /// `stats_ok` the external statistics collaborator's answer.
    pub open spec fn spec_is_valid_transfer(
        self,
        t: Ticker,
        from: PortfolioId,
        to: PortfolioId,
        value: u128,
        stats_ok: bool,
    ) -> u8 {
        if self.spec_frozen(t) {
            ERC1400_TRANSFERS_HALTED
        } else if self.spec_missing_scope_claim(t, from.did, to.did) {
            SCOPE_CLAIM_MISSING
        } else if self.spec_portfolio_transfer_error(from, to, t, value) is Some {
            PORTFOLIO_FAILURE
        } else if !stats_ok {
            TRANSFER_MANAGER_FAILURE
        } else if !self.spec_verify_restriction(
            t,
            Some(from.did),
            Some(to.did),
            Some(self.spec_primary_issuance_agent_or_owner(t)),
        ) {
            COMPLIANCE_MANAGER_FAILURE
        } else {
            ERC1400_TRANSFER_SUCCESS
        }
    }

    /// Applies the fail-fast validation sequence, touching nothing.
    pub fn is_valid_transfer(
        &self,
        ticker: &Ticker,
        from_portfolio: PortfolioId,
        to_portfolio: PortfolioId,
        value: u128,
        stats_ok: bool,
    ) -> (r: u8)
        ensures
            r == self.spec_is_valid_transfer(
                *ticker,
                from_portfolio,
                to_portfolio,
                value,
                stats_ok,
            ),
    {
        if self.frozen(ticker) {
            return ERC1400_TRANSFERS_HALTED;
        }
        if self.missing_scope_claim(ticker, &from_portfolio.did, &to_portfolio.did) {
            return SCOPE_CLAIM_MISSING;
        }
        if self.ensure_portfolio_transfer_validity(&from_portfolio, &to_portfolio, ticker, value)
            .is_err() {
            return PORTFOLIO_FAILURE;
        }
        if !stats_ok {
            return TRANSFER_MANAGER_FAILURE;
        }
        let pia: IdentityId = self.primary_issuance_agent_or_owner(ticker);
        let status: u8 = self.verify_restriction(
            ticker,
            Some(from_portfolio.did),
            Some(to_portfolio.did),
            Some(pia),
        );
        if status != ERC1400_TRANSFER_SUCCESS {
            return COMPLIANCE_MANAGER_FAILURE;
        }
        ERC1400_TRANSFER_SUCCESS
    }

    /// Validates a transfer with the fail-fast sequence and, when it
    /// passes, moves the balances.
    pub fn base_transfer(
        &mut self,
        from_portfolio: PortfolioId,
        to_portfolio: PortfolioId,
        ticker: &Ticker,
        value: u128,
        stats_ok: bool,
    ) -> (r: Result<(), Error>)
        requires
            old(self).wf(),
        ensures
            final(self).wf(),
            final(self).same_identity_state(*old(self)),
            final(self).same_registry(*old(self)),
            final(self).same_compliance(*old(self)),
            final(self).same_config(*old(self)),
            final(self).scope_id_of@ == old(self).scope_id_of@,
            old(self).spec_is_valid_transfer(*ticker, from_portfolio, to_portfolio, value, stats_ok)
                != ERC1400_TRANSFER_SUCCESS ==> r == Err::<(), Error>(Error::InvalidTransfer)
                && *final(self) == *old(self),
            old(self).spec_is_valid_transfer(*ticker, from_portfolio, to_portfolio, value, stats_ok)
                == ERC1400_TRANSFER_SUCCESS && old(self).spec_check_granularity(*ticker, value)
                && from_portfolio.did != to_portfolio.did && old(self).spec_balance(
                *ticker,
                from_portfolio.did,
            ) >= value && old(self).spec_balance(*ticker, to_portfolio.did) + value <= u128::MAX
                ==> r == Ok::<(), Error>(()) && final(self).spec_balance(
                *ticker,
                from_portfolio.did,
            ) == old(self).spec_balance(*ticker, from_portfolio.did) - value && final(self).spec_balance(*ticker, to_portfolio.did) == old(self).spec_balance(
                *ticker,
                to_portfolio.did,
            ) + value && final(self).spec_total_supply(*ticker) == old(self).spec_total_supply(
                *ticker,
            ),
            r is Err ==> *final(self) == *old(self),
    {
        let code: u8 = self.is_valid_transfer(ticker, from_portfolio, to_portfolio, value, stats_ok);
        if code != ERC1400_TRANSFER_SUCCESS {
            return Err(Error::InvalidTransfer);
        }
        self.unsafe_transfer(from_portfolio, to_portfolio, ticker, value)
    }

    /// Forces a transfer from `from_portfolio` into the issuance
    /// agent's default portfolio. Only the asset's primary issuance
    /// agent (or owner) may call this.
    pub fn base_controller_transfer(
        &mut self,
        did: IdentityId,
        ticker: &Ticker,
        value: u128,
        from_portfolio: PortfolioId,
    ) -> (r: Result<(), Error>)
        requires
            old(self).wf(),
        ensures
            final(self).wf(),
            final(self).same_identity_state(*old(self)),
            final(self).same_registry(*old(self)),
            final(self).same_compliance(*old(self)),
            final(self).same_config(*old(self)),
            old(self).spec_primary_issuance_agent_or_owner(*ticker) != did ==> r == Err::<
                (),
                Error,
            >(Error::Unauthorized) && *final(self) == *old(self),
            r is Err ==> *final(self) == *old(self),
            old(self).spec_primary_issuance_agent_or_owner(*ticker) == did && old(self).spec_check_granularity(*ticker, value) && from_portfolio.did != did && old(self).spec_balance(*ticker, from_portfolio.did) >= value && old(self).spec_balance(
                *ticker,
                did,
            ) + value <= u128::MAX ==> r == Ok::<(), Error>(()) && final(self).spec_balance(
                *ticker,
                from_portfolio.did,
            ) == old(self).spec_balance(*ticker, from_portfolio.did) - value && final(self).spec_balance(*ticker, did) == old(self).spec_balance(*ticker, did) + value && final(self).spec_total_supply(*ticker) == old(self).spec_total_supply(*ticker),
    {
        if self.primary_issuance_agent_or_owner(ticker) != did {
            return Err(Error::Unauthorized);
        }
        let to_portfolio = PortfolioId::default_portfolio(did);
        self.unsafe_transfer(from_portfolio, to_portfolio, ticker, value)
    }

    /// Diagnostic status-code chain of a prospective transfer,
    /// evaluated without touching anything.
    pub open spec fn spec_can_transfer(
        self,
        from_custodian: Option<IdentityId>,
        from: PortfolioId,
        to_custodian: Option<IdentityId>,
        to: PortfolioId,
        t: Ticker,
        value: u128,
        stats_ok: bool,
    ) -> u8 {
        if !self.spec_check_granularity(t, value) {
            INVALID_GRANULARITY
        } else if from.did == to.did {
            INVALID_RECEIVER_DID
        } else if !self.spec_has_valid_cdd(from.did) {
            INVALID_SENDER_DID
        } else if self.spec_missing_scope_claim(t, to.did, from.did) {
            SCOPE_CLAIM_MISSING
        } else if self.spec_custodian(from) != (match from_custodian {
            Some(c) => c,
            None => from.did,
        }) {
            CUSTODIAN_ERROR
        } else if !self.spec_has_valid_cdd(to.did) {
            INVALID_RECEIVER_DID
        } else if self.spec_custodian(to) != (match to_custodian {
            Some(c) => c,
            None => to.did,
        }) {
            CUSTODIAN_ERROR
        } else if self.spec_balance(t, from.did) < value {
            ERC1400_INSUFFICIENT_BALANCE
        } else if self.spec_portfolio_transfer_error(from, to, t, value) is Some {
            PORTFOLIO_FAILURE
        } else {
            self.spec_is_valid_transfer(t, from, to, value, stats_ok)
        }
    }

    /// Tells a caller beforehand whether a transfer would be valid,
    /// as the diagnostic status-code chain.
    pub fn unsafe_can_transfer(
        &self,
        from_custodian: Option<IdentityId>,
        from_portfolio: PortfolioId,
        to_custodian: Option<IdentityId>,
        to_portfolio: PortfolioId,
        ticker: &Ticker,
        value: u128,
        stats_ok: bool,
    ) -> (r: u8)
        ensures
            r == self.spec_can_transfer(
                from_custodian,
                from_portfolio,
                to_custodian,
                to_portfolio,
                *ticker,
                value,
                stats_ok,
            ),
    {
        if !self.check_granularity(ticker, value) {
            return INVALID_GRANULARITY;
        }
        if from_portfolio.did == to_portfolio.did {
            return INVALID_RECEIVER_DID;
        }
        if !self.has_valid_cdd(&from_portfolio.did) {
            return INVALID_SENDER_DID;
        }
        if self.missing_scope_claim(ticker, &to_portfolio.did, &from_portfolio.did) {
            return SCOPE_CLAIM_MISSING;
        }
        let from_cust: IdentityId = match from_custodian {
            Some(c) => c,
            None => from_portfolio.did,
        };
        if self.ensure_portfolio_custody(from_portfolio, from_cust).is_err() {
            return CUSTODIAN_ERROR;
        }
        if !self.has_valid_cdd(&to_portfolio.did) {
            return INVALID_RECEIVER_DID;
        }
        let to_cust: IdentityId = match to_custodian {
            Some(c) => c,
            None => to_portfolio.did,
        };
        if self.ensure_portfolio_custody(to_portfolio, to_cust).is_err() {
            return CUSTODIAN_ERROR;
        }
        if self.balance_of(ticker, &from_portfolio.did) < value {
            return ERC1400_INSUFFICIENT_BALANCE;
        }
        if self.ensure_portfolio_transfer_validity(&from_portfolio, &to_portfolio, ticker, value)
            .is_err() {
            return PORTFOLIO_FAILURE;
        }
        self.is_valid_transfer(ticker, from_portfolio, to_portfolio, value, stats_ok)
    }

    /// Evaluates every portfolio-level check of a transfer, without
    /// short-circuiting.
    pub fn ensure_portfolio_transfer_validity_granular(
        &self,
        from: &PortfolioId,
        to: &PortfolioId,
        t: &Ticker,
        amount: u128,
    ) -> (r: PortfolioValidityResult)
        ensures
            r.receiver_is_same_portfolio == (*from == *to),
            r.sender_portfolio_does_not_exist == !self.spec_portfolio_exists(*from),
            r.receiver_portfolio_does_not_exist == !self.spec_portfolio_exists(*to),
            r.sender_insufficient_balance == (self.spec_portfolio_transfer_free_balance(*from, *t)
                < amount),
            r.result == (!r.receiver_is_same_portfolio && !r.sender_portfolio_does_not_exist
                && !r.receiver_portfolio_does_not_exist && !r.sender_insufficient_balance),
    {
        let receiver_is_same_portfolio: bool = from.did == to.did && from.kind == to.kind;
        proof {
            assert(receiver_is_same_portfolio == (*from == *to));
        }
        let sender_portfolio_does_not_exist: bool = !self.portfolio_exists(from);
        let receiver_portfolio_does_not_exist: bool = !self.portfolio_exists(to);
        let balance: u128 = self.portfolio_balance(from, t);
        let locked: u128 = self.locked_assets(from, t);
        let free: u128 = if balance >= locked {
            balance - locked
        } else {
            0
        };
        let sender_insufficient_balance: bool = free < amount;
        let result: bool = !receiver_is_same_portfolio && !sender_portfolio_does_not_exist
            && !receiver_portfolio_does_not_exist && !sender_insufficient_balance;
        PortfolioValidityResult {
            receiver_is_same_portfolio,
            sender_portfolio_does_not_exist,
            receiver_portfolio_does_not_exist,
            sender_insufficient_balance,
            result,
        }
    }

    /// Builds the full diagnostic report of a prospective transfer:
    /// every check is evaluated independently, never short-circuiting,
    /// and the overall verdict is their conjunction. The statistics
    /// collaborator's per-rule verdicts are handed in by the caller.
    pub fn unsafe_can_transfer_granular(
        &self,
        from_custodian: Option<IdentityId>,
        from_portfolio: PortfolioId,
        to_custodian: Option<IdentityId>,
        to_portfolio: PortfolioId,
        ticker: &Ticker,
        value: u128,
        statistics_result: Vec<TransferManagerResult>,
    ) -> (r: GranularCanTransferResult)
        ensures
            r.invalid_granularity == !self.spec_check_granularity(*ticker, value),
            r.self_transfer == (from_portfolio.did == to_portfolio.did),
            r.invalid_sender_cdd == !self.spec_has_valid_cdd(from_portfolio.did),
            r.invalid_receiver_cdd == !self.spec_has_valid_cdd(to_portfolio.did),
            r.missing_scope_claim == self.spec_missing_scope_claim(
                *ticker,
                to_portfolio.did,
                from_portfolio.did,
            ),
            r.sender_custodian_error == (self.spec_custodian(from_portfolio) != (
            match from_custodian {
                Some(c) => c,
                None => from_portfolio.did,
            })),
            r.receiver_custodian_error == (self.spec_custodian(to_portfolio) != (
            match to_custodian {
                Some(c) => c,
                None => to_portfolio.did,
            })),
            r.sender_insufficient_balance == (self.spec_balance(*ticker, from_portfolio.did)
                < value),
            r.asset_frozen == self.spec_frozen(*ticker),
            r.statistics_result@ == statistics_result@,
            r.portfolio_validity_result.result == (self.spec_portfolio_transfer_error(
                from_portfolio,
                to_portfolio,
                *ticker,
                value,
            ) is None),
            r.compliance_result.result == self.spec_any_requirement_ok(
                *ticker,
                Some(from_portfolio.did),
                Some(to_portfolio.did),
                Some(self.spec_primary_issuance_agent_or_owner(*ticker)),
            ),
            r.compliance_result.paused == self.spec_paused(*ticker),
            r.compliance_result.requirements@.len() == self.spec_requirements(*ticker).len(),
            forall|i: int|
                0 <= i < self.spec_requirements(*ticker).len() ==> self.spec_granular_req(
                    *ticker,
                    Some(from_portfolio.did),
                    Some(to_portfolio.did),
                    self.spec_requirements(*ticker)[i],
                    Some(self.spec_primary_issuance_agent_or_owner(*ticker)),
                    #[trigger] r.compliance_result.requirements@[i],
                ),
            r.result == (!r.invalid_granularity && !r.self_transfer && !r.invalid_receiver_cdd
                && !r.invalid_sender_cdd && !r.missing_scope_claim && !r.receiver_custodian_error
                && !r.sender_custodian_error && !r.sender_insufficient_balance
                && r.portfolio_validity_result.result && !r.asset_frozen && spec_stats_all_ok(
                statistics_result@,
            ) && r.compliance_result.result),
    {
        let invalid_granularity: bool = !self.check_granularity(ticker, value);
        let self_transfer: bool = from_portfolio.did == to_portfolio.did;
        let invalid_sender_cdd: bool = !self.has_valid_cdd(&from_portfolio.did);
        let invalid_receiver_cdd: bool = !self.has_valid_cdd(&to_portfolio.did);
        let missing_scope_claim: bool = self.missing_scope_claim(
            ticker,
            &to_portfolio.did,
            &from_portfolio.did,
        );
        let from_cust: IdentityId = match from_custodian {
            Some(c) => c,
            None => from_portfolio.did,
        };
        let sender_custodian_error: bool = self.ensure_portfolio_custody(
            from_portfolio,
            from_cust,
        ).is_err();
        let to_cust: IdentityId = match to_custodian {
            Some(c) => c,
            None => to_portfolio.did,
        };
        let receiver_custodian_error: bool = self.ensure_portfolio_custody(
            to_portfolio,
            to_cust,
        ).is_err();
        let sender_insufficient_balance: bool = self.balance_of(ticker, &from_portfolio.did)
            < value;
        let portfolio_validity_result: PortfolioValidityResult = self.ensure_portfolio_transfer_validity_granular(
            &from_portfolio,
            &to_portfolio,
            ticker,
            value,
        );
        let asset_frozen: bool = self.frozen(ticker);
        let pia: IdentityId = self.primary_issuance_agent_or_owner(ticker);
        let compliance_result: AssetComplianceResult = self.granular_verify_restriction(
            ticker,
            Some(from_portfolio.did),
            Some(to_portfolio.did),
            Some(pia),
        );
        let mut stats_ok: bool = true;
        let mut i: usize = 0;
        while i < statistics_result.len()
            invariant
                i <= statistics_result@.len(),
                stats_ok == (forall|k: int|
                    0 <= k < i ==> (#[trigger] statistics_result@[k]).result),
            decreases statistics_result@.len() - i,
        {
            if !statistics_result[i].result {
                stats_ok = false;
            }
            i = i + 1;
        }
        proof {
            // The detailed portfolio flags and the single-error view
            // agree on whether everything passed.
            assert(portfolio_validity_result.result == (self.spec_portfolio_transfer_error(
                from_portfolio,
                to_portfolio,
                *ticker,
                value,
            ) is None));
        }
        let result: bool = !invalid_granularity && !self_transfer && !invalid_receiver_cdd
            && !invalid_sender_cdd && !missing_scope_claim && !receiver_custodian_error
            && !sender_custodian_error && !sender_insufficient_balance
            && portfolio_validity_result.result && !asset_frozen && stats_ok
            && compliance_result.result;
        GranularCanTransferResult {
            invalid_granularity,
            self_transfer,
            invalid_receiver_cdd,
            invalid_sender_cdd,
            missing_scope_claim,
            receiver_custodian_error,
            sender_custodian_error,
            sender_insufficient_balance,
            asset_frozen,
            result,
            statistics_result,
            compliance_result,
            portfolio_validity_result,
        }
    }
}

} // verus!
