//! The ticker and asset registry, portfolios, and the transfer
//! pipeline's error surface.
use compliance_core::identifier::Identifier;
use compliance_core::state::Ledger;
use compliance_core::types::{
    Error, IdentityId, PortfolioId, PortfolioKind, Ticker, TickerRegistrationConfig,
};
use compliance_core::signing_key::{
    AccountId, ExtrinsicPermissions, Permissions, Signatory, SigningKey, Subset,
};
use compliance_core::{
    CUSTODIAN_ERROR, ERC1400_TRANSFERS_HALTED, ERC1400_TRANSFER_SUCCESS, INVALID_GRANULARITY,
    SCOPE_CLAIM_MISSING,
};

fn did(n: u128) -> IdentityId {
    IdentityId::from_u128(n)
}

fn ticker(name: &[u8]) -> Ticker {
    Ticker::from_slice(name).unwrap()
}

fn new_ledger() -> Ledger {
    Ledger::new(
        TickerRegistrationConfig { max_ticker_length: 6, registration_length: Some(100) },
        16,
        16,
        50,
    )
}

fn create_asset(l: &mut Ledger, owner: IdentityId, name: &[u8], supply: u128) -> Ticker {
    l.register_identity(owner);
    let t = ticker(name);
    l.base_create_asset(owner, name.to_vec(), t, true, Default::default(), vec![], None, 0)
        .unwrap();
    if supply > 0 {
        l.mint(&t, owner, supply).unwrap();
    }
    t
}

#[test]
fn ticker_registration_validation() {
    let mut l = new_ledger();
    let alice = did(10);
    let bob = did(20);
    l.register_identity(alice);
    l.register_identity(bob);

    // A NUL in the middle of the symbol is not printable ASCII.
    let bad = Ticker::from_slice(&[65, 0, 66]).unwrap();
    assert_eq!(l.register_ticker(alice, bad, 0), Err(Error::TickerNotAscii));

    // Seven printable bytes exceed the configured maximum of six.
    let long = ticker(b"TOOLONG");
    assert_eq!(l.register_ticker(alice, long, 0), Err(Error::TickerTooLong));

    let t = ticker(b"ABC");
    l.register_ticker(alice, t, 0).unwrap();
    // A live registration blocks anyone else.
    assert_eq!(l.register_ticker(bob, t, 50), Err(Error::TickerAlreadyRegistered));
    // The holder may renew.
    l.register_ticker(alice, t, 50).unwrap();

    // A created asset blocks registration outright.
    let a = create_asset(&mut l, alice, b"ACME", 0);
    assert_eq!(l.register_ticker(alice, a, 0), Err(Error::AssetAlreadyCreated));
    assert_eq!(
        l.base_create_asset(alice, b"ACME".to_vec(), a, true, Default::default(), vec![], None, 0),
        Err(Error::AssetAlreadyCreated)
    );
}

#[test]
fn create_asset_validation() {
    let mut l = new_ledger();
    let alice = did(10);
    l.register_identity(alice);
    let t = ticker(b"ACME");

    assert_eq!(
        l.base_create_asset(
            alice,
            b"far-longer-than-sixteen-bytes".to_vec(),
            t,
            true,
            Default::default(),
            vec![],
            None,
            0,
        ),
        Err(Error::MaxLengthOfAssetNameExceeded)
    );
    assert_eq!(
        l.base_create_asset(
            alice,
            b"ACME".to_vec(),
            t,
            true,
            Default::default(),
            vec![],
            Some(b"far-longer-than-sixteen-bytes".to_vec()),
            0,
        ),
        Err(Error::FundingRoundNameMaxLengthExceeded)
    );
    assert_eq!(
        l.base_create_asset(
            alice,
            b"ACME".to_vec(),
            t,
            true,
            Default::default(),
            vec![Identifier::CUSIP(*b"68389X106")],
            None,
            0,
        ),
        Err(Error::InvalidAssetIdentifier)
    );
    l.base_create_asset(
        alice,
        b"ACME".to_vec(),
        t,
        true,
        Default::default(),
        vec![Identifier::CUSIP(*b"68389X105")],
        None,
        0,
    )
    .unwrap();
    assert!(l.is_owner(&t, alice));
    assert_eq!(l.total_supply(&t), 0);

    // Identifier updates re-validate the checksums.
    assert_eq!(
        l.base_update_identifiers(alice, t, vec![Identifier::ISIN(*b"US0373831005")]),
        Err(Error::InvalidAssetIdentifier)
    );
    l.base_update_identifiers(alice, t, vec![Identifier::ISIN(*b"US0378331005")]).unwrap();
}

#[test]
fn freeze_unfreeze_cycle() {
    let mut l = new_ledger();
    let alice = did(10);
    let bob = did(20);
    l.register_identity(bob);
    let t = create_asset(&mut l, alice, b"ACME", 1_000);
    l.update_balance_of_scope_id(did(101), alice, t);
    l.update_balance_of_scope_id(did(102), bob, t);

    assert_eq!(l.freeze(bob, t), Err(Error::Unauthorized));
    assert_eq!(l.unfreeze(alice, t), Err(Error::NotFrozen));
    l.freeze(alice, t).unwrap();
    assert_eq!(l.freeze(alice, t), Err(Error::AlreadyFrozen));

    // The fail-fast check chain halts transfers of a frozen asset.
    assert_eq!(
        l.is_valid_transfer(
            &t,
            PortfolioId::default_portfolio(alice),
            PortfolioId::default_portfolio(bob),
            10,
            true,
        ),
        ERC1400_TRANSFERS_HALTED
    );

    l.unfreeze(alice, t).unwrap();
    assert_eq!(l.unfreeze(alice, t), Err(Error::NotFrozen));
}

#[test]
fn rename_divisibility_and_agent() {
    let mut l = new_ledger();
    let alice = did(10);
    let bob = did(20);
    l.register_identity(bob);
    let t = ticker(b"ACME");
    l.register_identity(alice);
    l.base_create_asset(alice, b"ACME".to_vec(), t, false, Default::default(), vec![], None, 0)
        .unwrap();

    assert_eq!(l.base_rename_asset(bob, t, b"OTHER".to_vec()), Err(Error::Unauthorized));
    l.base_rename_asset(alice, t, b"OTHER".to_vec()).unwrap();

    l.base_make_divisible(alice, t).unwrap();
    assert_eq!(l.base_make_divisible(alice, t), Err(Error::AssetAlreadyDivisible));

    // Issuance authority follows the agent assignment.
    assert_eq!(l.primary_issuance_agent_or_owner(&t), alice);
    l.accept_primary_issuance_agent_transfer(bob, t).unwrap();
    assert_eq!(l.primary_issuance_agent_or_owner(&t), bob);
    assert_eq!(l.base_redeem(alice, &t, 0), Err(Error::Unauthorized));
    l.base_remove_primary_issuance_agent(alice, t).unwrap();
    assert_eq!(l.primary_issuance_agent_or_owner(&t), alice);
}

#[test]
fn ownership_transfers() {
    let mut l = new_ledger();
    let alice = did(10);
    let bob = did(20);
    l.register_identity(bob);

    // A plain reservation moves as a ticker transfer.
    let r = ticker(b"RSV");
    l.register_identity(alice);
    l.register_ticker(alice, r, 0).unwrap();
    l.accept_ticker_transfer(bob, r).unwrap();
    assert!(!l.is_owner(&r, alice));
    assert!(l.is_owner(&r, bob));

    // A created asset refuses the plain ticker transfer but moves as
    // an asset ownership transfer.
    let t = create_asset(&mut l, alice, b"ACME", 0);
    assert_eq!(l.accept_ticker_transfer(bob, t), Err(Error::AssetAlreadyCreated));
    l.accept_asset_ownership_transfer(bob, t).unwrap();
    assert!(l.is_owner(&t, bob));
    assert!(!l.is_owner(&t, alice));
    assert_eq!(l.accept_asset_ownership_transfer(bob, ticker(b"NONE")), Err(Error::NoSuchAsset));
}

#[test]
fn mint_and_redeem_respect_limits() {
    let mut l = new_ledger();
    let alice = did(10);
    let t = create_asset(&mut l, alice, b"ACME", 1_000);

    assert_eq!(l.mint(&t, alice, 0), Ok(()));
    assert_eq!(l.mint(&ticker(b"NONE"), alice, 1_000_000), Err(Error::NoSuchAsset));
    assert_eq!(
        l.mint(&t, alice, compliance_core::MAX_SUPPLY),
        Err(Error::TotalSupplyAboveLimit)
    );

    assert_eq!(l.base_redeem(alice, &t, 2_000), Err(Error::InsufficientPortfolioBalance));
    l.base_redeem(alice, &t, 400).unwrap();
    assert_eq!(l.total_supply(&t), 600);
    assert_eq!(l.balance_of(&t, &alice), 600);
}

#[test]
fn transfer_pipeline_error_surface() {
    let mut l = new_ledger();
    let alice = did(10);
    let bob = did(20);
    l.register_identity(bob);
    let t = create_asset(&mut l, alice, b"ACME", 1_000);

    let ap = PortfolioId::default_portfolio(alice);
    let bp = PortfolioId::default_portfolio(bob);

    // Without scope claims the fail-fast chain demands them.
    assert_eq!(l.is_valid_transfer(&t, ap, bp, 10, true), SCOPE_CLAIM_MISSING);
    assert_eq!(l.base_transfer(ap, bp, &t, 10, true), Err(Error::InvalidTransfer));

    l.update_balance_of_scope_id(did(101), alice, t);
    l.update_balance_of_scope_id(did(102), bob, t);
    l.add_compliance_requirement(alice, t, vec![], vec![]).unwrap();

    // Direct ledger moves still validate their own arguments.
    assert_eq!(l.unsafe_transfer(ap, ap, &t, 10), Err(Error::SenderSameAsReceiver));
    assert_eq!(l.unsafe_transfer(ap, bp, &t, 2_000), Err(Error::InsufficientBalance));

    l.base_transfer(ap, bp, &t, 400, true).unwrap();
    assert_eq!(l.balance_of(&t, &alice), 600);
    assert_eq!(l.balance_of(&t, &bob), 400);
    assert_eq!(l.aggregate_balance_of(&t, &did(102)), 400);

    // An external statistics rejection stops the fail-fast chain.
    assert_ne!(l.is_valid_transfer(&t, ap, bp, 10, false), ERC1400_TRANSFER_SUCCESS);

    // The issuance agent may force funds back.
    l.base_controller_transfer(alice, &t, 100, bp).unwrap();
    assert_eq!(l.balance_of(&t, &bob), 300);
    assert_eq!(l.balance_of(&t, &alice), 700);
}

#[test]
fn diagnostic_report_reflects_every_check() {
    let mut l = new_ledger();
    let alice = did(10);
    let bob = did(20);
    l.register_identity(bob);
    let t = create_asset(&mut l, alice, b"ACME", 1_000);
    l.update_balance_of_scope_id(did(101), alice, t);
    l.add_compliance_requirement(alice, t, vec![], vec![]).unwrap();

    let ap = PortfolioId::default_portfolio(alice);
    let bp = PortfolioId::default_portfolio(bob);

    // Bob misses his scope claim; everything else passes.
    let report = l.unsafe_can_transfer_granular(None, ap, None, bp, &t, 10, vec![]);
    assert!(!report.result);
    assert!(report.missing_scope_claim);
    assert!(!report.invalid_granularity);
    assert!(!report.self_transfer);
    assert!(!report.invalid_sender_cdd);
    assert!(!report.invalid_receiver_cdd);
    assert!(!report.sender_custodian_error);
    assert!(!report.receiver_custodian_error);
    assert!(!report.sender_insufficient_balance);
    assert!(!report.asset_frozen);
    assert!(report.portfolio_validity_result.result);
    assert!(report.compliance_result.result);

    l.update_balance_of_scope_id(did(102), bob, t);
    let report = l.unsafe_can_transfer_granular(None, ap, None, bp, &t, 10, vec![]);
    assert!(report.result);

    // A wrong custodian shows up both in the report and in the
    // status-code chain.
    let code = l.unsafe_can_transfer(Some(bob), ap, None, bp, &t, 10, true);
    assert_eq!(code, CUSTODIAN_ERROR);
    let report = l.unsafe_can_transfer_granular(Some(bob), ap, None, bp, &t, 10, vec![]);
    assert!(report.sender_custodian_error);
    assert!(!report.result);

    // A granularity failure leads the status-code chain.
    let mut l2 = new_ledger();
    let carol = did(30);
    l2.register_identity(carol);
    let t2 = ticker(b"IND");
    l2.base_create_asset(carol, b"IND".to_vec(), t2, false, Default::default(), vec![], None, 0)
        .unwrap();
    let code = l2.unsafe_can_transfer(
        None,
        PortfolioId::default_portfolio(carol),
        None,
        PortfolioId::default_portfolio(did(40)),
        &t2,
        17,
        true,
    );
    assert_eq!(code, INVALID_GRANULARITY);
}

#[test]
fn portfolios_lifecycle_and_locks() {
    let mut l = new_ledger();
    let alice = did(10);
    let bob = did(20);
    l.register_identity(bob);
    let t = create_asset(&mut l, alice, b"ACME", 1_000);

    let num = l.create_portfolio(alice, b"savings".to_vec()).unwrap();
    assert_eq!(num, 1);
    assert_eq!(
        l.create_portfolio(alice, b"savings".to_vec()),
        Err(Error::PortfolioNameAlreadyInUse)
    );
    let num2 = l.create_portfolio(alice, b"trading".to_vec()).unwrap();
    assert_eq!(num2, 2);

    let default = PortfolioId::default_portfolio(alice);
    let savings = PortfolioId { did: alice, kind: PortfolioKind::User(num) };

    assert_eq!(
        l.move_portfolio_funds(alice, default, default, &t, 10),
        Err(Error::DestinationIsSamePortfolio)
    );
    assert_eq!(
        l.move_portfolio_funds(alice, default, PortfolioId::default_portfolio(bob), &t, 10),
        Err(Error::DifferentIdentityPortfolios)
    );
    assert_eq!(
        l.move_portfolio_funds(
            alice,
            default,
            PortfolioId { did: alice, kind: PortfolioKind::User(9) },
            &t,
            10,
        ),
        Err(Error::PortfolioDoesNotExist)
    );
    l.move_portfolio_funds(alice, default, savings, &t, 300).unwrap();
    assert_eq!(l.default_portfolio_balance(alice, &t), 700);
    assert_eq!(l.user_portfolio_balance(alice, num, &t), 300);

    // Locked funds cannot move.
    l.lock_tokens(&savings, &t, 250).unwrap();
    assert_eq!(
        l.move_portfolio_funds(alice, savings, default, &t, 100),
        Err(Error::InsufficientPortfolioBalance)
    );
    assert_eq!(l.unlock_tokens(&savings, &t, 300), Err(Error::InsufficientTokensLocked));
    l.unlock_tokens(&savings, &t, 250).unwrap();
    l.move_portfolio_funds(alice, savings, default, &t, 300).unwrap();

    // A non-empty portfolio cannot be deleted.
    l.move_portfolio_funds(alice, default, savings, &t, 5).unwrap();
    assert_eq!(l.delete_portfolio(alice, num), Err(Error::PortfolioNotEmpty));
    l.move_portfolio_funds(alice, savings, default, &t, 5).unwrap();
    l.delete_portfolio(alice, num).unwrap();
    assert_eq!(l.delete_portfolio(alice, num), Err(Error::PortfolioDoesNotExist));

    // Custody moves only with the current custodian's consent.
    assert_eq!(
        l.accept_portfolio_custody(bob, default, bob),
        Err(Error::UnauthorizedCustodian)
    );
    l.accept_portfolio_custody(alice, default, bob).unwrap();
    assert_eq!(l.ensure_portfolio_custody(default, bob), Ok(()));
    assert_eq!(l.ensure_portfolio_custody(default, alice), Err(Error::UnauthorizedCustodian));

    // Renaming checks existence and uniqueness.
    assert_eq!(
        l.rename_portfolio(alice, 9, b"new".to_vec()),
        Err(Error::PortfolioDoesNotExist)
    );
    assert_eq!(
        l.rename_portfolio(alice, num2, b"trading".to_vec()),
        Err(Error::PortfolioNameAlreadyInUse)
    );
    l.rename_portfolio(alice, num2, b"spending".to_vec()).unwrap();
}

#[test]
fn secondary_keys_need_asset_permission() {
    let mut l = new_ledger();
    let alice = did(10);
    let bob = did(20);
    l.register_identity(bob);
    let t = create_asset(&mut l, alice, b"ACME", 0);
    let other = ticker(b"ELSE");

    let key = AccountId::new(7, 7);
    let scoped = SigningKey::new(
        Signatory::Account(key),
        Permissions {
            asset: Subset::Elems(vec![t]),
            extrinsic: ExtrinsicPermissions::All,
            portfolio: Subset::All,
        },
    );
    assert_eq!(l.ensure_perms_owner_asset(alice, None, &t), Ok(()));
    assert_eq!(l.ensure_perms_owner_asset(alice, Some(&scoped), &t), Ok(()));
    assert_eq!(l.ensure_perms_owner_asset(bob, None, &t), Err(Error::Unauthorized));
    let narrow = SigningKey::new(
        Signatory::Account(key),
        Permissions {
            asset: Subset::Elems(vec![other]),
            extrinsic: ExtrinsicPermissions::All,
            portfolio: Subset::All,
        },
    );
    assert_eq!(
        l.ensure_perms_owner_asset(alice, Some(&narrow), &t),
        Err(Error::SecondaryKeyNotAuthorizedForAsset)
    );
}

#[test]
fn create_and_mint_is_all_or_nothing() {
    let mut l = new_ledger();
    let alice = did(10);
    l.register_identity(alice);
    let t = ticker(b"ACME");

    // An indivisible asset with a fractional initial supply is
    // rejected before the asset comes into being.
    assert_eq!(
        l.base_create_asset_and_mint(
            alice,
            b"ACME".to_vec(),
            t,
            500_000,
            false,
            Default::default(),
            vec![],
            None,
            0,
        ),
        Err(Error::InvalidGranularity)
    );
    assert_eq!(l.total_supply(&t), 0);
    assert!(!l.is_owner(&t, alice));

    l.base_create_asset_and_mint(
        alice,
        b"ACME".to_vec(),
        t,
        2_000_000,
        false,
        Default::default(),
        vec![],
        None,
        0,
    )
    .unwrap();
    assert_eq!(l.total_supply(&t), 2_000_000);
    assert_eq!(l.balance_of(&t, &alice), 2_000_000);
}

#[test]
fn funding_round_totals_follow_the_round() {
    let mut l = new_ledger();
    let alice = did(10);
    let t = create_asset(&mut l, alice, b"ACME", 100);

    l.base_set_funding_round(alice, t, b"seed".to_vec()).unwrap();
    l.mint(&t, alice, 40).unwrap();
    l.mint(&t, alice, 10).unwrap();
    assert_eq!(l.issued_in_funding_round(&t), 50);
    // Re-stating the same round keeps its total.
    l.base_set_funding_round(alice, t, b"seed".to_vec()).unwrap();
    assert_eq!(l.issued_in_funding_round(&t), 50);
    // A new round starts from zero.
    l.base_set_funding_round(alice, t, b"series-a".to_vec()).unwrap();
    assert_eq!(l.issued_in_funding_round(&t), 0);
    l.mint(&t, alice, 7).unwrap();
    assert_eq!(l.issued_in_funding_round(&t), 7);
    assert_eq!(l.total_supply(&t), 157);
    // The minted units land in the issuer's default portfolio.
    assert_eq!(l.default_portfolio_balance(alice, &t), 157);
    assert_eq!(
        l.base_set_funding_round(alice, t, b"far-longer-than-sixteen-bytes".to_vec()),
        Err(Error::FundingRoundNameMaxLengthExceeded)
    );
}
