//! Transfer-compliance core of a permissioned security-token ledger.
//!
//! The crate decides, for every attempted movement of a fungible asset
//! between two portfolios, whether the movement is legal under a
//! programmable rule set, and it maintains the balance bookkeeping that
//! makes that decision auditable:
//!
//! * a ticker and asset registry (reservation, expiry, freezing),
//! * a portfolio ledger with several redundant balance indices
//!   (per identity, per portfolio, per deduplication scope),
//! * a compliance rule engine with AND/OR semantics and a complexity
//!   budget, and
//! * a transfer validation pipeline with a fail-fast execution mode and
//!   a full diagnostic report.
//!
//! External collaborators (claim issuance, statistics limits, custody
//! authorisations) are modelled as plain data handed to the library:
//! every operation takes the acting identity and the collaborator
//! verdicts it needs explicitly, so the whole decision logic is
//! verified.
use vstd::prelude::*;

pub mod identifier;
pub mod types;
pub mod vecmap;
pub mod state;
pub mod compliance;
pub mod compliance_mut;
pub mod balances;
pub mod transfer;
pub mod pipeline;
pub mod registry;
pub mod portfolio;
pub mod signing_key;
pub mod laws;

verus! {

/// Smallest transactable amount of an indivisible asset.
pub const ONE_UNIT: u128 = 1_000_000;

/// Largest total supply an asset may ever reach.
pub const MAX_SUPPLY: u128 = 1_000_000 * 1_000_000_000_000;

/// Status code of a transfer that failed a generic check.
pub const ERC1400_TRANSFER_FAILURE: u8 = 0x50;

/// Status code of a transfer that passed every check.
pub const ERC1400_TRANSFER_SUCCESS: u8 = 0x51;

/// Status code of a transfer with an insufficient sender balance.
pub const ERC1400_INSUFFICIENT_BALANCE: u8 = 0x52;

/// Status code of a transfer on a frozen asset.
pub const ERC1400_TRANSFERS_HALTED: u8 = 0x54;

/// Status code of a transfer whose sender identity is not valid.
pub const INVALID_SENDER_DID: u8 = 0x56;

/// Status code of a transfer whose receiver identity is not valid.
pub const INVALID_RECEIVER_DID: u8 = 0x57;

/// Status code of a transfer that a custodian did not authorise.
pub const CUSTODIAN_ERROR: u8 = 0x58;

/// Status code of a transfer whose amount breaks the granularity rule.
pub const INVALID_GRANULARITY: u8 = 0xa8;

/// Status code of a transfer with a missing investor-uniqueness scope claim.
pub const SCOPE_CLAIM_MISSING: u8 = 0xa9;

/// Status code of a transfer that failed the portfolio-level checks.
pub const PORTFOLIO_FAILURE: u8 = 0xaa;

/// Status code of a transfer that failed a statistical limit.
pub const TRANSFER_MANAGER_FAILURE: u8 = 0xab;

/// Status code of a transfer that the compliance engine rejected.
pub const COMPLIANCE_MANAGER_FAILURE: u8 = 0xac;

} // verus!
