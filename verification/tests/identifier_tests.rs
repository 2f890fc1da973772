//! Checksum validation of security identifiers.
use compliance_core::identifier::Identifier;

#[test]
fn cusip() {
    assert_eq!(
        Identifier::cusip(*b"037833100"),
        Some(Identifier::CUSIP(*b"037833100"))
    );
    assert_eq!(
        Identifier::cusip(*b"17275R102"),
        Some(Identifier::CUSIP(*b"17275R102"))
    );
    assert_eq!(
        Identifier::cusip(*b"38259P508"),
        Some(Identifier::CUSIP(*b"38259P508"))
    );
    assert_eq!(
        Identifier::cusip(*b"594918104"),
        Some(Identifier::CUSIP(*b"594918104"))
    );
    assert_eq!(Identifier::cusip(*b"68389X106"), None);
    assert_eq!(
        Identifier::cusip(*b"68389X105"),
        Some(Identifier::CUSIP(*b"68389X105"))
    );
}

#[test]
fn cins() {
    assert_eq!(
        Identifier::cins(*b"S08000AA9"),
        Some(Identifier::CINS(*b"S08000AA9"))
    );
    assert_eq!(Identifier::cins(*b"S08000AA4"), None);
}

#[test]
fn isin() {
    assert_eq!(
        Identifier::isin(*b"US0378331005"),
        Some(Identifier::ISIN(*b"US0378331005"))
    );
    assert_eq!(
        Identifier::isin(*b"US0004026250"),
        Some(Identifier::ISIN(*b"US0004026250"))
    );
    assert_eq!(
        Identifier::isin(*b"AU0000XVGZA3"),
        Some(Identifier::ISIN(*b"AU0000XVGZA3"))
    );
    assert_eq!(
        Identifier::isin(*b"AU0000VXGZA3"),
        Some(Identifier::ISIN(*b"AU0000VXGZA3"))
    );
    assert_eq!(
        Identifier::isin(*b"FR0000988040"),
        Some(Identifier::ISIN(*b"FR0000988040"))
    );
    assert_eq!(Identifier::isin(*b"US0373831005"), None);
}

#[test]
fn lei() {
    assert_eq!(
        Identifier::lei(*b"YZ83GD8L7GG84979J516"),
        Some(Identifier::LEI(*b"YZ83GD8L7GG84979J516"))
    );
    assert_eq!(
        Identifier::lei(*b"815600306702171A6844"),
        Some(Identifier::LEI(*b"815600306702171A6844"))
    );
    assert_eq!(
        Identifier::lei(*b"549300GFX6WN7JDUSN34"),
        Some(Identifier::LEI(*b"549300GFX6WN7JDUSN34"))
    );
    assert_eq!(Identifier::lei(*b"549300GFXDSN7JDUSN34"), None);
    assert!(compliance_core::identifier::lei_checksum(*b"ZZZZZZZZZZZZZZZZZZ").is_some());
}

#[test]
fn identifier_validity_matches_construction() {
    assert!(Identifier::CUSIP(*b"037833100").is_valid());
    assert!(!Identifier::CUSIP(*b"68389X106").is_valid());
    assert!(Identifier::ISIN(*b"US0378331005").is_valid());
    assert!(!Identifier::ISIN(*b"US0373831005").is_valid());
    assert!(Identifier::LEI(*b"549300GFX6WN7JDUSN34").is_valid());
    assert!(Identifier::EMPTY.is_valid());
    assert_eq!(Identifier::default(), Identifier::EMPTY);
}
