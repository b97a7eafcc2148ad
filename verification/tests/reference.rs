use tcli::ts::package_reference::{PackageReference, PackageReferenceParseError};
use tcli::ts::version::{Version, VersionParseError};

#[test]
fn version_parses_three_numbers() {
    assert_eq!(Version::from_str("5.4.2113"), Ok(Version::new(5, 4, 2113)));
    assert_eq!(Version::from_str("0.0.0"), Ok(Version::new(0, 0, 0)));
    assert_eq!(Version::from_str("4294967295.1.2"), Ok(Version::new(4294967295, 1, 2)));
}

#[test]
fn version_rejects_malformed_text() {
    assert_eq!(Version::from_str("1.2"), Err(VersionParseError::MissingSection));
    assert_eq!(Version::from_str(""), Err(VersionParseError::MissingSection));
    assert_eq!(Version::from_str("1..2"), Err(VersionParseError::InvalidNumber));
    assert_eq!(Version::from_str("1.2.x"), Err(VersionParseError::InvalidNumber));
    assert_eq!(Version::from_str("1.2.3.4"), Err(VersionParseError::InvalidNumber));
    assert_eq!(Version::from_str("4294967296.0.0"), Err(VersionParseError::InvalidNumber));
    assert_eq!(Version::from_str("+1.0.0"), Err(VersionParseError::InvalidNumber));
}

#[test]
fn version_text_round_trips() {
    let v = Version::new(10, 0, 907);
    assert_eq!(v.to_string(), "10.0.907");
    assert_eq!(Version::from_str(&v.to_string()), Ok(v));
}

#[test]
fn version_order_is_lexicographic() {
    let a = Version::new(1, 9, 9);
    let b = Version::new(2, 0, 0);
    let c = Version::new(2, 0, 1);
    assert!(a.is_less_than(&b));
    assert!(b.is_less_than(&c));
    assert!(a.is_less_than(&c));
    assert!(!b.is_less_than(&a));
    assert!(!a.is_less_than(&a));
    assert!(c.is_greater_than(&a));
    assert!(b.is_equal_to(&Version::new(2, 0, 0)));
    assert!(a < b && b < c);
}

#[test]
fn reference_parses_strict_identity() {
    let r = PackageReference::from_str("bbepis-BepInExPack-5.4.2113").unwrap();
    assert_eq!(r.namespace, "bbepis");
    assert_eq!(r.name, "BepInExPack");
    assert_eq!(r.version, Version::new(5, 4, 2113));
    assert_eq!(r.to_string(), "bbepis-BepInExPack-5.4.2113");
    assert_eq!(r.to_loose_ident_string(), "bbepis-BepInExPack");
}

#[test]
fn reference_rejects_malformed_text() {
    assert_eq!(
        PackageReference::from_str("bbepis-BepInExPack"),
        Err(PackageReferenceParseError::MissingSection)
    );
    assert_eq!(
        PackageReference::from_str("-BepInExPack-1.0.0"),
        Err(PackageReferenceParseError::EmptyField)
    );
    assert_eq!(
        PackageReference::from_str("bbepis--1.0.0"),
        Err(PackageReferenceParseError::EmptyField)
    );
    assert_eq!(
        PackageReference::from_str("a-b-c-1.0.0"),
        Err(PackageReferenceParseError::InvalidVersion(VersionParseError::InvalidNumber))
    );
    assert_eq!(
        PackageReference::from_str("a-b-1.0"),
        Err(PackageReferenceParseError::InvalidVersion(VersionParseError::MissingSection))
    );
}

#[test]
fn reference_new_checks_its_fields() {
    let v = Version::new(1, 2, 3);
    assert!(PackageReference::new("RiskofThunder", "BepInEx_GUI", v).is_ok());
    assert_eq!(PackageReference::new("", "x", v), Err(PackageReferenceParseError::EmptyField));
    assert_eq!(PackageReference::new("x", "", v), Err(PackageReferenceParseError::EmptyField));
    assert_eq!(PackageReference::new("a-b", "x", v), Err(PackageReferenceParseError::InvalidField));
    assert_eq!(PackageReference::new("a", "x-y", v), Err(PackageReferenceParseError::InvalidField));
}

#[test]
fn reference_identities() {
    let a = PackageReference::from_str("bbepis-BepInExPack-5.4.2113").unwrap();
    let b = PackageReference::from_str("bbepis-BepInExPack-5.4.2112").unwrap();
    let c = PackageReference::from_str("bbepis-Other-5.4.2113").unwrap();
    assert!(a.same_loose(&b));
    assert!(!a.same_strict(&b));
    assert!(!a.same_loose(&c));
    assert!(a.same_strict(&a.duplicate()));
    assert_eq!(a.duplicate(), a);
}

#[test]
fn reference_from_loose_identity() {
    let v = Version::new(3, 0, 1);
    let r = PackageReference::from_loose_ident("RiskofThunder-BepInEx_GUI", v).unwrap();
    assert_eq!(r.to_string(), "RiskofThunder-BepInEx_GUI-3.0.1");
    assert_eq!(
        PackageReference::from_loose_ident("RiskofThunder", v),
        Err(PackageReferenceParseError::MissingSection)
    );
    assert_eq!(
        PackageReference::from_loose_ident("-BepInEx_GUI", v),
        Err(PackageReferenceParseError::EmptyField)
    );
    assert_eq!(
        PackageReference::from_loose_ident("RiskofThunder-", v),
        Err(PackageReferenceParseError::EmptyField)
    );
    assert_eq!(
        PackageReference::from_loose_ident("a-b-c", v),
        Err(PackageReferenceParseError::InvalidField)
    );
}

#[test]
fn leading_zeros_are_read_as_numbers() {
    assert_eq!(Version::from_str("01.002.0003"), Ok(Version::new(1, 2, 3)));
    assert_eq!(Version::from_str("01.002.0003").unwrap().to_string(), "1.2.3");
}
