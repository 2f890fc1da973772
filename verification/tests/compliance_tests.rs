//! The compliance rule engine, exercised through the public ledger
//! operations: adding, removing, replacing and changing requirements,
//! pausing, trusted issuers, and the complexity budget.
use compliance_core::compliance::ComplianceRequirement;
use compliance_core::state::Ledger;
use compliance_core::types::{
    Claim, Condition, ConditionType, CountryCode, Error, IdentityId, PortfolioId,
    TargetIdentity, Ticker, TickerRegistrationConfig,
};
use compliance_core::{ERC1400_TRANSFER_FAILURE, ERC1400_TRANSFER_SUCCESS};

fn did(n: u128) -> IdentityId {
    IdentityId::from_u128(n)
}

fn ticker(name: &[u8]) -> Ticker {
    Ticker::from_slice(name).unwrap()
}

fn new_ledger() -> Ledger {
    Ledger::new(
        TickerRegistrationConfig { max_ticker_length: 12, registration_length: Some(10_000) },
        128,
        128,
        50,
    )
}

/// Registers `owner`, creates a divisible asset named `name` and
/// mints `supply` units to the owner.
fn create_asset(l: &mut Ledger, owner: IdentityId, name: &[u8], supply: u128) -> Ticker {
    l.register_identity(owner);
    let t = ticker(name);
    l.base_create_asset(
        owner,
        name.to_vec(),
        t,
        true,
        Default::default(),
        vec![],
        None,
        0,
    )
    .unwrap();
    if supply > 0 {
        l.mint(&t, owner, supply).unwrap();
    }
    t
}

/// Binds each identity to its own deduplication scope for `t`.
fn add_scope_claims(l: &mut Ledger, t: Ticker, dids: &[IdentityId]) {
    for d in dids {
        l.update_balance_of_scope_id(*d, *d, t);
    }
}

fn transfer_status(l: &Ledger, t: Ticker, from: IdentityId, to: IdentityId, amount: u128) -> u8 {
    l.is_valid_transfer(
        &t,
        PortfolioId::default_portfolio(from),
        PortfolioId::default_portfolio(to),
        amount,
        true,
    )
}

fn assert_valid_transfer(l: &Ledger, t: Ticker, from: IdentityId, to: IdentityId, amount: u128) {
    assert_eq!(transfer_status(l, t, from, to, amount), ERC1400_TRANSFER_SUCCESS);
}

fn assert_invalid_transfer(l: &Ledger, t: Ticker, from: IdentityId, to: IdentityId, amount: u128) {
    assert_ne!(transfer_status(l, t, from, to, amount), ERC1400_TRANSFER_SUCCESS);
}

#[test]
fn should_add_and_verify_compliance_requirement() {
    let mut l = new_ledger();
    let token_owner_did = did(10);
    let token_rec_did = did(20);
    let cdd_id = did(30);
    let claim_issuer_did = did(40);
    l.register_identity(token_rec_did);
    l.register_identity(cdd_id);
    l.register_identity(claim_issuer_did);
    let t = create_asset(&mut l, token_owner_did, b"T01", 1_000_000);
    add_scope_claims(&mut l, t, &[token_owner_did, token_rec_did]);

    l.add_claim(token_owner_did, Claim::NoData, claim_issuer_did);
    l.add_claim(token_rec_did, Claim::NoData, claim_issuer_did);

    let sender_condition = Condition {
        issuers: vec![claim_issuer_did],
        condition_type: ConditionType::IsPresent(Claim::NoData),
    };
    let receiver_condition1 = Condition {
        issuers: vec![cdd_id],
        condition_type: ConditionType::IsAbsent(Claim::make_cdd_wildcard()),
    };
    let receiver_condition2 = Condition {
        issuers: vec![claim_issuer_did],
        condition_type: ConditionType::IsPresent(Claim::Accredited(token_owner_did)),
    };
    l.add_compliance_requirement(
        token_owner_did,
        t,
        vec![sender_condition.clone()],
        vec![receiver_condition1.clone(), receiver_condition2.clone()],
    )
    .unwrap();

    l.add_claim(token_rec_did, Claim::Accredited(claim_issuer_did), claim_issuer_did);

    // Wrong accreditation scope: the transfer is rejected.
    assert_invalid_transfer(&l, t, token_owner_did, token_rec_did, 1_000_000);
    let result = l.granular_verify_restriction(&t, Some(token_owner_did), Some(token_rec_did), None);
    assert!(!result.result);
    assert!(!result.requirements[0].result);
    assert!(result.requirements[0].sender_conditions[0].result);
    assert!(result.requirements[0].receiver_conditions[0].result);
    assert!(!result.requirements[0].receiver_conditions[1].result);
    assert_eq!(result.requirements[0].sender_conditions[0].condition, sender_condition);
    assert_eq!(result.requirements[0].receiver_conditions[0].condition, receiver_condition1);
    assert_eq!(result.requirements[0].receiver_conditions[1].condition, receiver_condition2);

    l.add_claim(token_rec_did, Claim::Accredited(token_owner_did), claim_issuer_did);

    assert_valid_transfer(&l, t, token_owner_did, token_rec_did, 10);
    let result = l.granular_verify_restriction(&t, Some(token_owner_did), Some(token_rec_did), None);
    assert!(result.result);
    assert!(result.requirements[0].result);
    assert!(result.requirements[0].sender_conditions[0].result);
    assert!(result.requirements[0].receiver_conditions[0].result);
    assert!(result.requirements[0].receiver_conditions[1].result);
    assert_eq!(result.requirements[0].sender_conditions[0].condition, sender_condition);
    assert_eq!(result.requirements[0].receiver_conditions[0].condition, receiver_condition1);
    assert_eq!(result.requirements[0].receiver_conditions[1].condition, receiver_condition2);

    l.add_claim(token_rec_did, Claim::make_cdd_wildcard(), cdd_id);

    assert_invalid_transfer(&l, t, token_owner_did, token_rec_did, 10);
    let result = l.granular_verify_restriction(&t, Some(token_owner_did), Some(token_rec_did), None);
    assert!(!result.result);
    assert!(!result.requirements[0].result);
    assert!(result.requirements[0].sender_conditions[0].result);
    assert!(!result.requirements[0].receiver_conditions[0].result);
    assert!(result.requirements[0].receiver_conditions[1].result);
    assert_eq!(result.requirements[0].sender_conditions[0].condition, sender_condition);
    assert_eq!(result.requirements[0].receiver_conditions[0].condition, receiver_condition1);
    assert_eq!(result.requirements[0].receiver_conditions[1].condition, receiver_condition2);

    // Re-adding the same condition lists changes nothing.
    for _ in 0..2 {
        l.add_compliance_requirement(
            token_owner_did,
            t,
            vec![sender_condition.clone()],
            vec![receiver_condition1.clone(), receiver_condition2.clone()],
        )
        .unwrap();
    }
    assert_eq!(l.remove_compliance_requirement(token_owner_did, t, 1), Ok(()));
    assert_eq!(
        l.remove_compliance_requirement(token_owner_did, t, 1),
        Err(Error::InvalidComplianceRequirementId)
    );
    assert_eq!(
        l.remove_compliance_requirement(token_owner_did, t, 1),
        Err(Error::InvalidComplianceRequirementId)
    );
}

#[test]
fn should_replace_asset_compliance() {
    let mut l = new_ledger();
    let token_owner_did = did(10);
    let t = create_asset(&mut l, token_owner_did, b"T01", 1_000_000);

    l.add_compliance_requirement(token_owner_did, t, vec![], vec![]).unwrap();
    assert_eq!(l.asset_compliance(&t).requirements.len(), 1);

    let new_asset_compliance: Vec<ComplianceRequirement> = (0u32..3)
        .map(|rule_id| ComplianceRequirement {
            sender_conditions: vec![],
            receiver_conditions: vec![],
            id: rule_id,
        })
        .collect();
    l.replace_asset_compliance(token_owner_did, t, new_asset_compliance.clone()).unwrap();

    assert_eq!(l.asset_compliance(&t).requirements, new_asset_compliance);
}

#[test]
fn should_reset_asset_compliance() {
    let mut l = new_ledger();
    let token_owner_did = did(10);
    let t = create_asset(&mut l, token_owner_did, b"T01", 1_000_000);

    l.add_compliance_requirement(token_owner_did, t, vec![], vec![]).unwrap();
    assert_eq!(l.asset_compliance(&t).requirements.len(), 1);

    l.reset_asset_compliance(token_owner_did, t).unwrap();
    assert_eq!(l.asset_compliance(&t).requirements.len(), 0);
}

#[test]
fn pause_resume_asset_compliance() {
    let mut l = new_ledger();
    let token_owner_did = did(10);
    let receiver_did = did(20);
    l.register_identity(receiver_did);
    let t = create_asset(&mut l, token_owner_did, b"T01", 1_000_000);
    add_scope_claims(&mut l, t, &[token_owner_did, receiver_did]);

    l.add_claim(receiver_did, Claim::NoData, receiver_did);

    let receiver_conditions = vec![Condition {
        issuers: vec![receiver_did],
        condition_type: ConditionType::IsAbsent(Claim::NoData),
    }];
    l.add_compliance_requirement(token_owner_did, t, vec![], receiver_conditions).unwrap();

    assert_invalid_transfer(&l, t, token_owner_did, receiver_did, 10);

    l.pause_asset_compliance(token_owner_did, t).unwrap();
    assert_valid_transfer(&l, t, token_owner_did, receiver_did, 10);

    l.resume_asset_compliance(token_owner_did, t).unwrap();
    assert_invalid_transfer(&l, t, token_owner_did, receiver_did, 10);
}

#[test]
fn should_successfully_add_and_use_default_issuers() {
    let mut l = new_ledger();
    let token_owner_did = did(10);
    let trusted_issuer_did = did(20);
    let receiver_did = did(30);
    l.register_identity(trusted_issuer_did);
    l.register_identity(receiver_did);
    let t = create_asset(&mut l, token_owner_did, b"T01", 1_000_000);
    add_scope_claims(&mut l, t, &[token_owner_did, receiver_did]);

    l.base_remove_primary_issuance_agent(token_owner_did, t).unwrap();

    // An unregistered identity cannot become a trusted issuer.
    assert_eq!(
        l.add_default_trusted_claim_issuer(token_owner_did, t, did(1)),
        Err(Error::DidNotExist)
    );

    l.add_default_trusted_claim_issuer(token_owner_did, t, trusted_issuer_did).unwrap();
    assert_eq!(l.trusted_claim_issuer(&t).len(), 1);
    assert_eq!(l.trusted_claim_issuer(&t), vec![trusted_issuer_did]);

    l.add_claim(receiver_did, Claim::make_cdd_wildcard(), trusted_issuer_did);

    let sender_condition = Condition {
        issuers: vec![],
        condition_type: ConditionType::IsPresent(Claim::make_cdd_wildcard()),
    };
    let receiver_condition = Condition {
        issuers: vec![],
        condition_type: ConditionType::IsPresent(Claim::make_cdd_wildcard()),
    };
    l.add_compliance_requirement(token_owner_did, t, vec![sender_condition], vec![receiver_condition])
        .unwrap();

    // The owner lacks the claim, so the transfer is rejected.
    assert_invalid_transfer(&l, t, token_owner_did, receiver_did, 100);

    l.add_claim(token_owner_did, Claim::make_cdd_wildcard(), trusted_issuer_did);
    assert_valid_transfer(&l, t, token_owner_did, receiver_did, 100);
}

#[test]
fn should_modify_vector_of_trusted_issuer() {
    let mut l = new_ledger();
    let token_owner_did = did(10);
    let trusted_issuer_did_1 = did(20);
    let trusted_issuer_did_2 = did(30);
    let receiver_did = did(40);
    l.register_identity(trusted_issuer_did_1);
    l.register_identity(trusted_issuer_did_2);
    l.register_identity(receiver_did);
    let t = create_asset(&mut l, token_owner_did, b"T01", 1_000_000);
    add_scope_claims(&mut l, t, &[token_owner_did, receiver_did]);

    // Only the owner may manage trusted issuers.
    assert_eq!(
        l.batch_add_default_trusted_claim_issuer(
            receiver_did,
            vec![trusted_issuer_did_1, trusted_issuer_did_2],
            t,
        ),
        Err(Error::Unauthorized)
    );
    // Unregistered identities are rejected.
    assert_eq!(
        l.batch_add_default_trusted_claim_issuer(token_owner_did, vec![did(1), did(2)], t),
        Err(Error::DidNotExist)
    );
    // An empty batch is rejected.
    assert_eq!(
        l.batch_add_default_trusted_claim_issuer(token_owner_did, vec![], t),
        Err(Error::InvalidLength)
    );

    l.batch_add_default_trusted_claim_issuer(
        token_owner_did,
        vec![trusted_issuer_did_1, trusted_issuer_did_2],
        t,
    )
    .unwrap();
    assert_eq!(l.trusted_claim_issuer(&t).len(), 2);
    assert_eq!(l.trusted_claim_issuer(&t), vec![trusted_issuer_did_1, trusted_issuer_did_2]);

    l.add_claim(receiver_did, Claim::make_cdd_wildcard(), trusted_issuer_did_1);
    l.add_claim(receiver_did, Claim::NoData, trusted_issuer_did_1);
    l.add_claim(token_owner_did, Claim::make_cdd_wildcard(), trusted_issuer_did_2);

    let sender_condition = Condition {
        issuers: vec![],
        condition_type: ConditionType::IsPresent(Claim::make_cdd_wildcard()),
    };
    let receiver_condition_1 = Condition {
        issuers: vec![],
        condition_type: ConditionType::IsPresent(Claim::make_cdd_wildcard()),
    };
    let receiver_condition_2 = Condition {
        issuers: vec![],
        condition_type: ConditionType::IsPresent(Claim::NoData),
    };
    l.add_compliance_requirement(
        token_owner_did,
        t,
        vec![sender_condition.clone()],
        vec![receiver_condition_1, receiver_condition_2],
    )
    .unwrap();

    assert_valid_transfer(&l, t, token_owner_did, receiver_did, 10);

    l.batch_remove_default_trusted_claim_issuer(token_owner_did, vec![trusted_issuer_did_1], t)
        .unwrap();
    assert_eq!(l.trusted_claim_issuer(&t).len(), 1);
    assert_eq!(l.trusted_claim_issuer(&t), vec![trusted_issuer_did_2]);

    // The receiver's claims came from the removed issuer.
    assert_invalid_transfer(&l, t, token_owner_did, receiver_did, 500);

    let receiver_condition_1 = Condition {
        issuers: vec![trusted_issuer_did_1],
        condition_type: ConditionType::IsPresent(Claim::make_cdd_wildcard()),
    };
    let receiver_condition_2 = Condition {
        issuers: vec![trusted_issuer_did_1],
        condition_type: ConditionType::IsPresent(Claim::NoData),
    };
    let compliance_requirement = ComplianceRequirement {
        sender_conditions: vec![sender_condition.clone()],
        receiver_conditions: vec![receiver_condition_1.clone(), receiver_condition_2.clone()],
        id: 1,
    };

    assert_eq!(
        l.change_compliance_requirement(
            receiver_did,
            t,
            ComplianceRequirement {
                sender_conditions: vec![sender_condition.clone()],
                receiver_conditions: vec![
                    receiver_condition_1.clone(),
                    receiver_condition_2.clone(),
                ],
                id: 1,
            },
        ),
        Err(Error::Unauthorized)
    );
    assert_eq!(
        l.change_compliance_requirement(
            token_owner_did,
            t,
            ComplianceRequirement {
                sender_conditions: vec![sender_condition.clone()],
                receiver_conditions: vec![
                    receiver_condition_1.clone(),
                    receiver_condition_2.clone(),
                ],
                id: 5,
            },
        ),
        Err(Error::InvalidComplianceRequirementId)
    );

    l.change_compliance_requirement(token_owner_did, t, compliance_requirement).unwrap();
    assert_valid_transfer(&l, t, token_owner_did, receiver_did, 500);
}

#[test]
fn jurisdiction_asset_compliance() {
    let mut l = new_ledger();
    let token_owner_id = did(10);
    let cdd_id = did(20);
    let user_id = did(30);
    l.register_identity(cdd_id);
    l.register_identity(user_id);
    let t = create_asset(&mut l, token_owner_id, b"T01", 1_000_000);
    add_scope_claims(&mut l, t, &[token_owner_id, user_id]);

    let scope = did(0);
    let receiver_conditions = vec![
        Condition {
            condition_type: ConditionType::IsAnyOf(vec![
                Claim::Jurisdiction(CountryCode::CA, scope),
                Claim::Jurisdiction(CountryCode::ES, scope),
            ]),
            issuers: vec![cdd_id],
        },
        Condition {
            condition_type: ConditionType::IsAbsent(Claim::Blocked(scope)),
            issuers: vec![token_owner_id],
        },
    ];
    l.add_compliance_requirement(token_owner_id, t, vec![], receiver_conditions).unwrap();

    // No jurisdiction claim yet.
    assert_invalid_transfer(&l, t, token_owner_id, user_id, 10);
    l.add_claim(user_id, Claim::Jurisdiction(CountryCode::CA, scope), cdd_id);
    assert_valid_transfer(&l, t, token_owner_id, user_id, 10);
    l.add_claim(user_id, Claim::Blocked(scope), token_owner_id);
    assert_invalid_transfer(&l, t, token_owner_id, user_id, 10);
}

#[test]
fn scope_asset_compliance() {
    let mut l = new_ledger();
    let owner_did = did(10);
    let cdd_id = did(20);
    let user_id = did(30);
    l.register_identity(cdd_id);
    l.register_identity(user_id);
    let t = create_asset(&mut l, owner_did, b"T01", 1_000_000);
    add_scope_claims(&mut l, t, &[owner_did, user_id]);

    let scope = did(999);
    let receiver_conditions = vec![Condition {
        condition_type: ConditionType::IsPresent(Claim::Affiliate(scope)),
        issuers: vec![cdd_id],
    }];
    l.add_compliance_requirement(owner_did, t, vec![], receiver_conditions).unwrap();

    assert_invalid_transfer(&l, t, owner_did, user_id, 10);
    l.add_claim(user_id, Claim::Affiliate(scope), cdd_id);
    assert_valid_transfer(&l, t, owner_did, user_id, 10);
}

#[test]
fn cm_test_case_9() {
    let mut l = new_ledger();
    let owner_did = did(10);
    let issuer_id = did(20);
    l.register_identity(issuer_id);
    let t = create_asset(&mut l, owner_did, b"T01", 1_000_000);

    let scope = did(999);
    let receiver_conditions = vec![Condition {
        condition_type: ConditionType::IsAnyOf(vec![
            Claim::KnowYourCustomer(scope),
            Claim::Affiliate(scope),
            Claim::Accredited(scope),
            Claim::Exempted(scope),
        ]),
        issuers: vec![issuer_id],
    }];
    l.add_compliance_requirement(owner_did, t, vec![], receiver_conditions).unwrap();

    let charlie = did(30);
    let dave = did(40);
    let eve = did(50);
    let ferdie = did(60);
    for d in [charlie, dave, eve, ferdie] {
        l.register_identity(d);
    }
    add_scope_claims(&mut l, t, &[owner_did, charlie, dave, eve, ferdie]);

    l.add_claim(charlie, Claim::KnowYourCustomer(scope), issuer_id);
    assert_valid_transfer(&l, t, owner_did, charlie, 100);
    let result = l.granular_verify_restriction(&t, None, Some(charlie), None);
    assert!(result.result);
    assert!(result.requirements[0].result);
    assert!(result.requirements[0].receiver_conditions[0].result);

    l.add_claim(dave, Claim::Affiliate(scope), issuer_id);
    assert_valid_transfer(&l, t, owner_did, dave, 100);
    let result = l.granular_verify_restriction(&t, None, Some(dave), None);
    assert!(result.result);
    assert!(result.requirements[0].result);
    assert!(result.requirements[0].receiver_conditions[0].result);

    l.add_claim(eve, Claim::Exempted(scope), issuer_id);
    let result = l.granular_verify_restriction(&t, None, Some(eve), None);
    assert!(result.requirements[0].result);
    assert!(result.requirements[0].receiver_conditions[0].result);

    assert_invalid_transfer(&l, t, owner_did, ferdie, 100);
    let result = l.granular_verify_restriction(&t, None, Some(ferdie), None);
    assert!(!result.result);
    assert!(!result.requirements[0].result);
    assert!(!result.requirements[0].receiver_conditions[0].result);
}

#[test]
fn cm_test_case_11() {
    let mut l = new_ledger();
    let owner_did = did(10);
    let issuer_id = did(20);
    l.register_identity(issuer_id);
    let t = create_asset(&mut l, owner_did, b"T01", 1_000_000);

    let scope = did(999);
    let receiver_conditions = vec![
        Condition {
            condition_type: ConditionType::IsAnyOf(vec![
                Claim::KnowYourCustomer(scope),
                Claim::Affiliate(scope),
                Claim::Accredited(scope),
                Claim::Exempted(scope),
            ]),
            issuers: vec![issuer_id],
        },
        Condition {
            condition_type: ConditionType::IsNoneOf(vec![
                Claim::Jurisdiction(CountryCode::US, scope),
                Claim::Jurisdiction(CountryCode::KP, scope),
            ]),
            issuers: vec![issuer_id],
        },
    ];
    l.add_compliance_requirement(owner_did, t, vec![], receiver_conditions).unwrap();

    let charlie = did(30);
    let dave = did(40);
    let eve = did(50);
    for d in [charlie, dave, eve] {
        l.register_identity(d);
    }
    add_scope_claims(&mut l, t, &[owner_did, charlie, dave, eve]);

    l.add_claim(charlie, Claim::KnowYourCustomer(scope), issuer_id);
    assert_valid_transfer(&l, t, owner_did, charlie, 100);
    let result = l.granular_verify_restriction(&t, None, Some(charlie), None);
    assert!(result.result);
    assert!(result.requirements[0].result);
    assert!(result.requirements[0].receiver_conditions[0].result);
    assert!(result.requirements[0].receiver_conditions[1].result);

    l.add_claim(dave, Claim::Affiliate(scope), issuer_id);
    l.add_claim(dave, Claim::Jurisdiction(CountryCode::US, scope), issuer_id);
    assert_invalid_transfer(&l, t, owner_did, dave, 100);
    let result = l.granular_verify_restriction(&t, None, Some(dave), None);
    assert!(!result.result);
    assert!(!result.requirements[0].result);
    assert!(result.requirements[0].receiver_conditions[0].result);
    assert!(!result.requirements[0].receiver_conditions[1].result);

    l.add_claim(eve, Claim::Exempted(scope), issuer_id);
    l.add_claim(eve, Claim::Jurisdiction(CountryCode::GB, scope), issuer_id);
    assert_valid_transfer(&l, t, owner_did, eve, 100);
    let result = l.granular_verify_restriction(&t, None, Some(eve), None);
    assert!(result.result);
    assert!(result.requirements[0].result);
    assert!(result.requirements[0].receiver_conditions[0].result);
    assert!(result.requirements[0].receiver_conditions[1].result);
}

#[test]
fn cm_test_case_13() {
    let mut l = new_ledger();
    let owner_did = did(10);
    let issuer_id = did(20);
    l.register_identity(issuer_id);
    let t = create_asset(&mut l, owner_did, b"T01", 1_000_000);

    let scope = did(999);
    let receiver_conditions = vec![
        Condition {
            condition_type: ConditionType::IsPresent(Claim::KnowYourCustomer(scope)),
            issuers: vec![issuer_id],
        },
        Condition {
            condition_type: ConditionType::IsAnyOf(vec![
                Claim::Affiliate(scope),
                Claim::Accredited(scope),
                Claim::Exempted(scope),
            ]),
            issuers: vec![issuer_id],
        },
        Condition {
            condition_type: ConditionType::IsNoneOf(vec![
                Claim::Jurisdiction(CountryCode::US, scope),
                Claim::Jurisdiction(CountryCode::KP, scope),
            ]),
            issuers: vec![issuer_id],
        },
    ];
    l.add_compliance_requirement(owner_did, t, vec![], receiver_conditions).unwrap();

    let charlie = did(30);
    let dave = did(40);
    let eve = did(50);
    for d in [charlie, dave, eve] {
        l.register_identity(d);
    }
    add_scope_claims(&mut l, t, &[owner_did, charlie, dave, eve]);

    l.add_claim(charlie, Claim::KnowYourCustomer(scope), issuer_id);
    assert_invalid_transfer(&l, t, owner_did, charlie, 100);
    let result = l.granular_verify_restriction(&t, None, Some(charlie), None);
    assert!(!result.result);
    assert!(!result.requirements[0].result);
    assert!(result.requirements[0].receiver_conditions[0].result);
    assert!(!result.requirements[0].receiver_conditions[1].result);
    assert!(result.requirements[0].receiver_conditions[2].result);

    l.add_claim(dave, Claim::Exempted(scope), issuer_id);
    l.add_claim(dave, Claim::KnowYourCustomer(scope), issuer_id);
    l.add_claim(dave, Claim::Jurisdiction(CountryCode::US, scope), issuer_id);
    assert_invalid_transfer(&l, t, owner_did, dave, 100);
    let result = l.granular_verify_restriction(&t, None, Some(dave), None);
    assert!(!result.result);
    assert!(!result.requirements[0].result);
    assert!(result.requirements[0].receiver_conditions[0].result);
    assert!(result.requirements[0].receiver_conditions[1].result);
    assert!(!result.requirements[0].receiver_conditions[2].result);

    l.add_claim(eve, Claim::Exempted(scope), issuer_id);
    l.add_claim(eve, Claim::KnowYourCustomer(scope), issuer_id);
    l.add_claim(eve, Claim::Jurisdiction(CountryCode::GB, scope), issuer_id);
    assert_valid_transfer(&l, t, owner_did, eve, 100);
    let result = l.granular_verify_restriction(&t, None, Some(eve), None);
    assert!(result.result);
    assert!(result.requirements[0].result);
    assert!(result.requirements[0].receiver_conditions[0].result);
    assert!(result.requirements[0].receiver_conditions[1].result);
    assert!(result.requirements[0].receiver_conditions[2].result);
}

#[test]
fn can_verify_restriction_with_primary_issuance_agent() {
    let mut l = new_ledger();
    let owner_id = did(10);
    let issuer_id = did(20);
    let random_guy_id = did(30);
    l.register_identity(issuer_id);
    l.register_identity(random_guy_id);
    let t = create_asset(&mut l, owner_id, b"T01", 1_000_000);

    l.accept_primary_issuance_agent_transfer(issuer_id, t).unwrap();

    // No requirement is stored, so compliance fails.
    assert_eq!(
        l.verify_restriction(&t, None, Some(issuer_id), Some(issuer_id)),
        ERC1400_TRANSFER_FAILURE
    );

    l.add_compliance_requirement(
        owner_id,
        t,
        vec![Condition {
            condition_type: ConditionType::IsIdentity(TargetIdentity::PrimaryIssuanceAgent),
            issuers: vec![],
        }],
        vec![Condition {
            condition_type: ConditionType::IsIdentity(TargetIdentity::Specific(random_guy_id)),
            issuers: vec![],
        }],
    )
    .unwrap();

    assert_eq!(
        l.verify_restriction(&t, Some(issuer_id), Some(random_guy_id), Some(issuer_id)),
        ERC1400_TRANSFER_SUCCESS
    );
    assert_eq!(
        l.verify_restriction(&t, Some(issuer_id), Some(owner_id), Some(issuer_id)),
        ERC1400_TRANSFER_FAILURE
    );
    assert_eq!(
        l.verify_restriction(&t, Some(random_guy_id), Some(issuer_id), Some(issuer_id)),
        ERC1400_TRANSFER_FAILURE
    );
}

#[test]
fn changing_an_unknown_requirement_id_fails() {
    let mut l = new_ledger();
    let owner = did(10);
    let t = create_asset(&mut l, owner, b"T01", 0);

    let cond = Condition {
        issuers: vec![owner],
        condition_type: ConditionType::IsPresent(Claim::NoData),
    };
    l.add_compliance_requirement(owner, t, vec![cond.clone()], vec![]).unwrap();
    l.add_compliance_requirement(owner, t, vec![], vec![cond.clone()]).unwrap();
    l.remove_compliance_requirement(owner, t, 1).unwrap();
    let before = l.asset_compliance(&t);

    // Id one is at or below the latest but no longer stored.
    assert_eq!(
        l.change_compliance_requirement(
            owner,
            t,
            ComplianceRequirement {
                sender_conditions: vec![cond.clone()],
                receiver_conditions: vec![],
                id: 1,
            },
        ),
        Err(Error::InvalidComplianceRequirementId)
    );
    assert_eq!(l.asset_compliance(&t), before);

    // A batch naming the unknown id is rejected whole.
    assert_eq!(
        l.batch_change_compliance_requirement(
            owner,
            vec![
                ComplianceRequirement {
                    sender_conditions: vec![],
                    receiver_conditions: vec![cond.clone()],
                    id: 2,
                },
                ComplianceRequirement {
                    sender_conditions: vec![cond.clone()],
                    receiver_conditions: vec![],
                    id: 1,
                },
            ],
            t,
        ),
        Err(Error::InvalidComplianceRequirementId)
    );
    assert_eq!(l.asset_compliance(&t), before);

    // A batch of stored ids applies.
    l.batch_change_compliance_requirement(
        owner,
        vec![ComplianceRequirement {
            sender_conditions: vec![],
            receiver_conditions: vec![cond.clone()],
            id: 2,
        }],
        t,
    )
    .unwrap();
    let after = l.asset_compliance(&t);
    assert_eq!(after.requirements.len(), 1);
    assert_eq!(after.requirements[0].id, 2);
    assert_eq!(after.requirements[0].sender_conditions, Vec::<Condition>::new());
    assert_eq!(after.requirements[0].receiver_conditions, vec![cond]);
}

#[test]
fn should_limit_rules_complexity() {
    let mut l = new_ledger();
    let token_owner_did = did(10);
    let t = create_asset(&mut l, token_owner_did, b"T01", 1_000_000);

    let scope = did(999);
    let rules_with_issuer: Vec<Condition> = std::iter::repeat(Condition {
        condition_type: ConditionType::IsPresent(Claim::KnowYourCustomer(scope)),
        issuers: vec![token_owner_did],
    })
    .take(30)
    .collect();
    let rules_without_issuers: Vec<Condition> = std::iter::repeat(Condition {
        condition_type: ConditionType::IsPresent(Claim::KnowYourCustomer(scope)),
        issuers: vec![],
    })
    .take(15)
    .collect();

    // Thirty claims on each side, one issuer each: over the budget.
    assert_eq!(
        l.add_compliance_requirement(
            token_owner_did,
            t,
            rules_with_issuer.clone(),
            rules_with_issuer.clone(),
        ),
        Err(Error::ComplianceRequirementTooComplex)
    );

    l.add_compliance_requirement(token_owner_did, t, rules_with_issuer, rules_without_issuers)
        .unwrap();

    l.add_default_trusted_claim_issuer(token_owner_did, t, token_owner_did).unwrap();

    assert_eq!(
        l.add_default_trusted_claim_issuer(token_owner_did, t, token_owner_did),
        Err(Error::ComplianceRequirementTooComplex)
    );

    assert_eq!(l.asset_compliance(&t).requirements.len(), 1);
}
