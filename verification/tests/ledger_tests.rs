//! The ledger's bookkeeping through whole scenarios: conservation,
//! scope aggregates, requirement-id freshness, the complexity budget,
//! pausing, the rule semantics, granularity and the ticker lifecycle.
use compliance_core::state::Ledger;
use compliance_core::types::{
    Claim, Condition, ConditionType, Error, IdentityId, PortfolioId, Ticker,
    TickerRegistrationConfig, TickerRegistrationStatus,
};
use compliance_core::{ERC1400_TRANSFER_SUCCESS, ONE_UNIT};

fn did(n: u128) -> IdentityId {
    IdentityId::from_u128(n)
}

fn ticker(name: &[u8]) -> Ticker {
    Ticker::from_slice(name).unwrap()
}

fn new_ledger() -> Ledger {
    Ledger::new(
        TickerRegistrationConfig { max_ticker_length: 12, registration_length: Some(100) },
        128,
        128,
        50,
    )
}

fn create_divisible_asset(l: &mut Ledger, owner: IdentityId, name: &[u8], supply: u128) -> Ticker {
    l.register_identity(owner);
    let t = ticker(name);
    l.base_create_asset(owner, name.to_vec(), t, true, Default::default(), vec![], None, 0)
        .unwrap();
    if supply > 0 {
        l.mint(&t, owner, supply).unwrap();
    }
    t
}

/// Balance conservation held concretely over a whole history of
/// create, mint, transfer and redeem operations.
#[test]
fn balances_always_sum_to_total_supply() {
    let mut l = new_ledger();
    let alice = did(10);
    let bob = did(20);
    l.register_identity(bob);
    let t = create_divisible_asset(&mut l, alice, b"ACME", 1_000);
    l.update_balance_of_scope_id(did(101), alice, t);
    l.update_balance_of_scope_id(did(102), bob, t);

    let sum = |l: &Ledger| l.balance_of(&t, &alice) + l.balance_of(&t, &bob);
    assert_eq!(l.total_supply(&t), 1_000);
    assert_eq!(sum(&l), 1_000);

    l.unsafe_transfer(
        PortfolioId::default_portfolio(alice),
        PortfolioId::default_portfolio(bob),
        &t,
        400,
    )
    .unwrap();
    assert_eq!(l.balance_of(&t, &alice), 600);
    assert_eq!(l.balance_of(&t, &bob), 400);
    assert_eq!(sum(&l), l.total_supply(&t));

    l.mint(&t, bob, 250).unwrap();
    assert_eq!(l.total_supply(&t), 1_250);
    assert_eq!(sum(&l), 1_250);

    l.base_redeem(alice, &t, 100).unwrap();
    assert_eq!(l.total_supply(&t), 1_150);
    assert_eq!(sum(&l), 1_150);
}

/// Scope aggregates track the balances of the identities bound to
/// each scope, including two identities sharing one scope.
#[test]
fn scope_aggregates_follow_balances() {
    let mut l = new_ledger();
    let alice = did(10);
    let bob = did(20);
    let carol = did(30);
    l.register_identity(bob);
    l.register_identity(carol);
    let t = create_divisible_asset(&mut l, alice, b"ACME", 1_000);

    let investor_one = did(201);
    let investor_two = did(202);
    l.update_balance_of_scope_id(investor_one, alice, t);
    // Bob and Carol are two identities of the same investor.
    l.update_balance_of_scope_id(investor_two, bob, t);
    l.update_balance_of_scope_id(investor_two, carol, t);

    assert_eq!(l.aggregate_balance_of(&t, &investor_one), 1_000);
    assert_eq!(l.aggregate_balance_of(&t, &investor_two), 0);

    l.unsafe_transfer(
        PortfolioId::default_portfolio(alice),
        PortfolioId::default_portfolio(bob),
        &t,
        300,
    )
    .unwrap();
    l.unsafe_transfer(
        PortfolioId::default_portfolio(alice),
        PortfolioId::default_portfolio(carol),
        &t,
        200,
    )
    .unwrap();

    assert_eq!(l.aggregate_balance_of(&t, &investor_one), 500);
    assert_eq!(l.aggregate_balance_of(&t, &investor_two), 500);
    assert_eq!(
        l.aggregate_balance_of(&t, &investor_two),
        l.balance_of_at_scope(&investor_two, &bob) + l.balance_of_at_scope(&investor_two, &carol)
    );

    // Carol's investor rebinds to a fresh scope: the aggregates move.
    let investor_three = did(203);
    l.update_balance_of_scope_id(investor_three, carol, t);
    assert_eq!(l.aggregate_balance_of(&t, &investor_two), 300);
    assert_eq!(l.aggregate_balance_of(&t, &investor_three), 200);

    // A scope id serves a single ticker.
    let other = ticker(b"OTHER");
    assert!(l.scope_available_for(&investor_one, &t));
    assert!(!l.scope_available_for(&investor_one, &other));
    assert!(l.scope_available_for(&did(999), &other));
}

/// Requirement ids keep growing and are never reassigned, even after
/// removals.
#[test]
fn requirement_ids_are_never_reused() {
    let mut l = new_ledger();
    let owner = did(10);
    let t = create_divisible_asset(&mut l, owner, b"ACME", 0);

    let cond = |scope: u128| Condition {
        issuers: vec![owner],
        condition_type: ConditionType::IsPresent(Claim::Accredited(did(scope))),
    };
    l.add_compliance_requirement(owner, t, vec![cond(1)], vec![]).unwrap();
    l.add_compliance_requirement(owner, t, vec![cond(2)], vec![]).unwrap();
    assert_eq!(l.get_latest_requirement_id(&t), 2);

    l.remove_compliance_requirement(owner, t, 2).unwrap();
    assert_eq!(l.get_latest_requirement_id(&t), 1);

    // The freed id is not reassigned.
    l.add_compliance_requirement(owner, t, vec![cond(3)], vec![]).unwrap();
    assert_eq!(l.get_latest_requirement_id(&t), 3);

    // Removing everything still never resurrects an id.
    l.reset_asset_compliance(owner, t).unwrap();
    l.add_compliance_requirement(owner, t, vec![cond(4)], vec![]).unwrap();
    assert_eq!(l.get_latest_requirement_id(&t), 4);
}

/// A requirement pushing the rule set over the complexity budget is
/// rejected and the stored compliance is left untouched.
#[test]
fn complexity_budget_leaves_state_unchanged() {
    let mut l = new_ledger();
    let owner = did(10);
    let t = create_divisible_asset(&mut l, owner, b"ACME", 0);

    let small = Condition {
        issuers: vec![owner],
        condition_type: ConditionType::IsPresent(Claim::NoData),
    };
    l.add_compliance_requirement(owner, t, vec![small], vec![]).unwrap();
    let before = l.asset_compliance(&t);
    let trusted_before = l.trusted_claim_issuer(&t);

    let heavy: Vec<Condition> = std::iter::repeat(Condition {
        issuers: vec![owner],
        condition_type: ConditionType::IsPresent(Claim::NoData),
    })
    .take(60)
    .collect();
    assert_eq!(
        l.add_compliance_requirement(owner, t, heavy.clone(), heavy),
        Err(Error::ComplianceRequirementTooComplex)
    );

    assert_eq!(l.asset_compliance(&t), before);
    assert_eq!(l.trusted_claim_issuer(&t), trusted_before);
}

/// While paused, the compliance engine admits transfers whatever the
/// requirements say.
#[test]
fn paused_compliance_admits_everything() {
    let mut l = new_ledger();
    let owner = did(10);
    let stranger = did(20);
    l.register_identity(stranger);
    let t = create_divisible_asset(&mut l, owner, b"ACME", 0);

    // A requirement nobody can satisfy.
    let impossible = Condition {
        issuers: vec![owner],
        condition_type: ConditionType::IsIdentity(
            compliance_core::types::TargetIdentity::Specific(did(999)),
        ),
    };
    l.add_compliance_requirement(owner, t, vec![impossible.clone()], vec![impossible]).unwrap();

    assert_ne!(
        l.verify_restriction(&t, Some(owner), Some(stranger), None),
        ERC1400_TRANSFER_SUCCESS
    );
    l.pause_asset_compliance(owner, t).unwrap();
    assert_eq!(
        l.verify_restriction(&t, Some(owner), Some(stranger), None),
        ERC1400_TRANSFER_SUCCESS
    );
    assert_eq!(
        l.verify_restriction(&t, Some(stranger), Some(owner), None),
        ERC1400_TRANSFER_SUCCESS
    );
    assert_eq!(l.verify_restriction(&t, None, None, None), ERC1400_TRANSFER_SUCCESS);
}

/// The documented one-sided policy: a side whose identity is not
/// supplied counts as vacuously satisfied, so probing one side alone
/// succeeds exactly when that side's conditions hold.
#[test]
fn one_sided_check_treats_missing_side_as_satisfied() {
    let mut l = new_ledger();
    let owner = did(10);
    let sender = did(20);
    let receiver = did(30);
    let issuer = did(40);
    for d in [sender, receiver, issuer] {
        l.register_identity(d);
    }
    let t = create_divisible_asset(&mut l, owner, b"ACME", 0);
    let scope = did(999);

    l.add_compliance_requirement(
        owner,
        t,
        vec![Condition {
            issuers: vec![issuer],
            condition_type: ConditionType::IsPresent(Claim::Accredited(scope)),
        }],
        vec![Condition {
            issuers: vec![issuer],
            condition_type: ConditionType::IsPresent(Claim::KnowYourCustomer(scope)),
        }],
    )
    .unwrap();
    l.add_claim(sender, Claim::Accredited(scope), issuer);

    // Only the sender is supplied: the receiver side is vacuous, so
    // the satisfied sender conditions decide.
    assert_eq!(
        l.verify_restriction(&t, Some(sender), None, None),
        ERC1400_TRANSFER_SUCCESS
    );
    // An unsatisfied supplied side still fails on its own.
    assert_ne!(
        l.verify_restriction(&t, Some(receiver), None, None),
        ERC1400_TRANSFER_SUCCESS
    );
    assert_ne!(
        l.verify_restriction(&t, None, Some(receiver), None),
        ERC1400_TRANSFER_SUCCESS
    );
    l.add_claim(receiver, Claim::KnowYourCustomer(scope), issuer);
    assert_eq!(
        l.verify_restriction(&t, None, Some(receiver), None),
        ERC1400_TRANSFER_SUCCESS
    );
    // With no side supplied, a stored requirement is vacuously met.
    assert_eq!(l.verify_restriction(&t, None, None, None), ERC1400_TRANSFER_SUCCESS);
}

/// One requirement: the sender needs one claim, the receiver must hold
/// one claim and miss another; acquiring the forbidden claim breaks
/// the transfer.
#[test]
fn and_or_semantics_within_a_requirement() {
    let mut l = new_ledger();
    let owner = did(10);
    let sender = did(20);
    let receiver = did(30);
    let issuer = did(40);
    for d in [sender, receiver, issuer] {
        l.register_identity(d);
    }
    let t = create_divisible_asset(&mut l, owner, b"ACME", 1_000);
    let scope = did(999);

    let claim_a = Claim::Accredited(scope);
    let claim_b = Claim::Blocked(scope);
    let claim_c = Claim::KnowYourCustomer(scope);

    l.add_compliance_requirement(
        owner,
        t,
        vec![Condition {
            issuers: vec![issuer],
            condition_type: ConditionType::IsPresent(claim_a),
        }],
        vec![
            Condition {
                issuers: vec![issuer],
                condition_type: ConditionType::IsAbsent(claim_b),
            },
            Condition {
                issuers: vec![issuer],
                condition_type: ConditionType::IsPresent(claim_c),
            },
        ],
    )
    .unwrap();

    l.add_claim(sender, claim_a, issuer);
    l.add_claim(receiver, claim_c, issuer);
    assert_eq!(
        l.verify_restriction(&t, Some(sender), Some(receiver), None),
        ERC1400_TRANSFER_SUCCESS
    );

    // The receiver acquires the forbidden claim: every receiver
    // condition must hold, so the transfer now fails.
    l.add_claim(receiver, claim_b, issuer);
    assert_ne!(
        l.verify_restriction(&t, Some(sender), Some(receiver), None),
        ERC1400_TRANSFER_SUCCESS
    );
}

/// Two requirements are an OR: satisfying either one admits the
/// transfer.
#[test]
fn requirements_combine_as_or() {
    let mut l = new_ledger();
    let owner = did(10);
    let receiver = did(20);
    let issuer = did(30);
    l.register_identity(receiver);
    l.register_identity(issuer);
    let t = create_divisible_asset(&mut l, owner, b"ACME", 0);
    let scope = did(999);

    l.add_compliance_requirement(
        owner,
        t,
        vec![],
        vec![Condition {
            issuers: vec![issuer],
            condition_type: ConditionType::IsPresent(Claim::Accredited(scope)),
        }],
    )
    .unwrap();
    l.add_compliance_requirement(
        owner,
        t,
        vec![],
        vec![Condition {
            issuers: vec![issuer],
            condition_type: ConditionType::IsPresent(Claim::Exempted(scope)),
        }],
    )
    .unwrap();

    assert_ne!(
        l.verify_restriction(&t, Some(owner), Some(receiver), None),
        ERC1400_TRANSFER_SUCCESS
    );
    // The second requirement alone admits the receiver.
    l.add_claim(receiver, Claim::Exempted(scope), issuer);
    assert_eq!(
        l.verify_restriction(&t, Some(owner), Some(receiver), None),
        ERC1400_TRANSFER_SUCCESS
    );
}

/// Granularity: an indivisible asset moves only in whole units.
#[test]
fn indivisible_assets_move_in_whole_units() {
    let mut l = new_ledger();
    let owner = did(10);
    let bob = did(20);
    l.register_identity(owner);
    l.register_identity(bob);
    let t = ticker(b"ACME");
    l.base_create_asset(
        owner,
        b"ACME".to_vec(),
        t,
        false,
        Default::default(),
        vec![],
        None,
        0,
    )
    .unwrap();
    l.mint(&t, owner, 2 * ONE_UNIT).unwrap();

    assert_eq!(
        l.unsafe_transfer(
            PortfolioId::default_portfolio(owner),
            PortfolioId::default_portfolio(bob),
            &t,
            500_000,
        ),
        Err(Error::InvalidGranularity)
    );
    assert_eq!(
        l.unsafe_transfer(
            PortfolioId::default_portfolio(owner),
            PortfolioId::default_portfolio(bob),
            &t,
            1_000_000,
        ),
        Ok(())
    );
    assert_eq!(l.balance_of(&t, &bob), 1_000_000);

    // Minting is held to the same granularity.
    assert_eq!(l.mint(&t, owner, 1), Err(Error::InvalidGranularity));
}

/// Ticker lifecycle: a reservation expires, the symbol becomes
/// available, and re-registration clears the old owner's relation.
#[test]
fn expired_ticker_can_be_reregistered() {
    let mut l = new_ledger();
    let did1 = did(10);
    let did2 = did(20);
    l.register_identity(did1);
    l.register_identity(did2);
    let t = ticker(b"ABC");

    // Registered at time zero with a configured lifetime of 100.
    l.register_ticker(did1, t, 0).unwrap();
    assert_eq!(
        l.is_ticker_available_or_registered_to(&t, did2, 50),
        TickerRegistrationStatus::RegisteredByOther
    );
    assert_eq!(
        l.is_ticker_available_or_registered_to(&t, did1, 50),
        TickerRegistrationStatus::RegisteredByDid
    );
    // After expiry the symbol reads as available to anyone.
    assert_eq!(
        l.is_ticker_available_or_registered_to(&t, did2, 150),
        TickerRegistrationStatus::Available
    );

    l.register_ticker(did2, t, 150).unwrap();
    assert!(!l.is_owner(&t, did1));
    assert!(l.is_owner(&t, did2));
    assert_eq!(
        l.is_ticker_available_or_registered_to(&t, did2, 200),
        TickerRegistrationStatus::RegisteredByDid
    );
}

/// Replacing a rule set stores exactly the given requirements, and a
/// batch with duplicate ids is rejected before any write.
#[test]
fn replace_round_trips_and_rejects_duplicates() {
    let mut l = new_ledger();
    let owner = did(10);
    let t = create_divisible_asset(&mut l, owner, b"ACME", 0);

    l.add_compliance_requirement(owner, t, vec![], vec![]).unwrap();
    let before = l.asset_compliance(&t);

    let dup = vec![
        compliance_core::compliance::ComplianceRequirement {
            sender_conditions: vec![],
            receiver_conditions: vec![],
            id: 7,
        },
        compliance_core::compliance::ComplianceRequirement {
            sender_conditions: vec![],
            receiver_conditions: vec![],
            id: 7,
        },
    ];
    assert_eq!(
        l.replace_asset_compliance(owner, t, dup),
        Err(Error::DuplicateComplianceRequirements)
    );
    assert_eq!(l.asset_compliance(&t), before);

    let fresh = vec![
        compliance_core::compliance::ComplianceRequirement {
            sender_conditions: vec![],
            receiver_conditions: vec![],
            id: 3,
        },
        compliance_core::compliance::ComplianceRequirement {
            sender_conditions: vec![],
            receiver_conditions: vec![],
            id: 9,
        },
    ];
    l.replace_asset_compliance(owner, t, fresh.clone()).unwrap();
    assert_eq!(l.asset_compliance(&t).requirements, fresh);
}
