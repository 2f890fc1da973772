//! Signing keys, signatories and permission subsets.
use compliance_core::signing_key::{
    AccountId, ExtrinsicPermissions, Permissions, Signatory, SigningKey, Subset,
};
use compliance_core::types::{IdentityId, Ticker};

fn did(n: u128) -> IdentityId {
    IdentityId::from_u128(n)
}

#[test]
fn build_test() {
    // An account key whose 32 raw bytes all spell the letter A.
    let key = AccountId::new(
        0x41414141414141414141414141414141,
        0x41414141414141414141414141414141,
    );
    let rk1 = SigningKey::new(Signatory::Account(key), Permissions::empty());
    let rk2 = SigningKey::from_account_id(key);
    assert_eq!(rk1, rk2);

    let rk3_permissions = Permissions {
        asset: Subset::Elems(vec![Ticker::from_slice(&[1]).unwrap()]),
        extrinsic: ExtrinsicPermissions::All,
        portfolio: Subset::Elems(vec![1]),
    };
    let rk3 = SigningKey::new(Signatory::Account(key), rk3_permissions.clone());
    assert_ne!(rk1, rk3);

    let mut rk4 = SigningKey::from_account_id(key);
    rk4.permissions = rk3_permissions;
    assert_eq!(rk3, rk4);

    let si1 = SigningKey::new(Signatory::Identity(did(1)), Permissions::empty());
    let si2 = SigningKey::new(Signatory::Identity(did(1)), Permissions::empty());
    assert_eq!(si1, si2);

    let si3 = SigningKey::new(Signatory::Identity(did(2)), Permissions::empty());
    assert_ne!(si1, si3);

    assert_ne!(si1, rk1);
}

#[test]
fn has_permission_test() {
    let key = AccountId::new(
        0x41414141414141414141414141414141,
        0x41414141414141414141414141414141,
    );
    let ticker1 = Ticker::from_slice(&[1]).unwrap();
    let ticker2 = Ticker::from_slice(&[2]).unwrap();
    let permissions = Permissions {
        asset: Subset::Elems(vec![ticker1]),
        extrinsic: ExtrinsicPermissions::All,
        portfolio: Subset::Elems(vec![1]),
    };
    let free_key = SigningKey::new(Signatory::Account(key), Permissions::default());
    let restricted_key = SigningKey::new(Signatory::Account(key), permissions.clone());
    assert!(free_key.has_asset_permission(ticker2));
    assert!(free_key.has_extrinsic_permission(vec![2]));
    assert!(free_key.has_portfolio_permission(2));
    assert!(!restricted_key.has_asset_permission(ticker2));
    assert!(restricted_key.has_extrinsic_permission(vec![2]));
    assert!(!restricted_key.has_portfolio_permission(2));
    assert!(free_key.has_permissions(&permissions));
    assert!(restricted_key.has_permissions(&permissions));
    let extended_permissions = Permissions {
        asset: Subset::Elems(vec![ticker1]),
        extrinsic: ExtrinsicPermissions::All,
        portfolio: Subset::Elems(vec![1, 2]),
    };
    assert!(free_key.has_permissions(&extended_permissions));
    assert!(!restricted_key.has_permissions(&extended_permissions));
}

#[test]
fn signer_build_and_eq_tests() {
    let key = AccountId::new(
        0x41414141414141414141414141414141,
        0x41414141414141414141414141414141,
    );
    let iden = IdentityId::from_did_bytes(
        "did:poly:f1d273950ddaf693db228084d63ef18282e00f91997ae9df4f173f09e86d0976".as_bytes(),
    )
    .unwrap();
    assert_eq!(
        iden,
        IdentityId {
            hi: 0xf1d273950ddaf693db228084d63ef182,
            lo: 0x82e00f91997ae9df4f173f09e86d0976,
        }
    );
    let iden_sig = Signatory::Identity(iden);
    assert_ne!(Signatory::Account(key), iden_sig);
    assert_eq!(iden_sig.as_identity(), Some(iden));
    assert_eq!(iden_sig.as_account(), None);
    assert!(iden_sig.eq_either(&iden, &key));
    assert!(!Signatory::Account(key).eq_either(&iden, &AccountId::new(0, 0)));
    assert_ne!(iden_sig, Signatory::Account(key));
}

#[test]
fn did_parsing_rejects_malformed_strings() {
    assert_eq!(IdentityId::from_did_bytes(b"did:poly:123"), None);
    assert_eq!(
        IdentityId::from_did_bytes(
            "did:meta:f1d273950ddaf693db228084d63ef18282e00f91997ae9df4f173f09e86d0976".as_bytes(),
        ),
        None
    );
    assert_eq!(
        IdentityId::from_did_bytes(
            "did:poly:g1d273950ddaf693db228084d63ef18282e00f91997ae9df4f173f09e86d0976".as_bytes(),
        ),
        None
    );
    assert_eq!(
        IdentityId::from_did_bytes(
            "did:poly:00000000000000000000000000000000000000000000000000000000000000fF".as_bytes(),
        ),
        Some(IdentityId { hi: 0, lo: 0xff })
    );
}
