use razee::semver::{Identifier, Precedence, Version};

#[test]
fn parse_reads_the_three_numbers() {
    let v = Version::parse("1.2.34").unwrap();
    assert_eq!((v.major, v.minor, v.patch), (1, 2, 34));
    assert!(v.pre_release.is_empty());
    assert!(v.build.is_empty());
}

#[test]
fn parse_reads_the_tags() {
    let v = Version::parse("1.2.3-beta.4+build.5").unwrap();
    assert!(matches!(&v.pre_release[0], Identifier::AlphaNumeric(s) if s == "beta"));
    assert!(matches!(&v.pre_release[1], Identifier::Numeric(4)));
    assert!(matches!(&v.build[0], Identifier::AlphaNumeric(s) if s == "build"));
    assert!(matches!(&v.build[1], Identifier::Numeric(5)));
    assert!(v.is_prerelease());
}

#[test]
fn parse_refuses_what_is_no_version() {
    assert!(Version::parse("latest").is_none());
    assert!(Version::parse("2").is_none());
    assert!(Version::parse("1.2").is_none());
    assert!(Version::parse("").is_none());
}

#[test]
fn rank_goes_by_the_numbers_first() {
    let a = Version::parse("1.2.3").unwrap();
    let b = Version::parse("1.10.0").unwrap();
    assert_eq!(a.rank(&b), Precedence::Lower);
    assert_eq!(b.rank(&a), Precedence::Higher);
    assert_eq!(a.rank(&a), Precedence::Same);
}

#[test]
fn rank_puts_a_release_above_its_pre_releases() {
    let release = Version::parse("1.0.0").unwrap();
    let alpha = Version::parse("1.0.0-alpha").unwrap();
    let alpha1 = Version::parse("1.0.0-alpha.1").unwrap();
    let numeric = Version::parse("1.0.0-7").unwrap();
    assert_eq!(alpha.rank(&release), Precedence::Lower);
    assert_eq!(alpha.rank(&alpha1), Precedence::Lower);
    assert_eq!(numeric.rank(&alpha), Precedence::Lower);
    assert_eq!(release.rank(&alpha1), Precedence::Higher);
}

#[test]
fn rank_ignores_build_metadata() {
    let a = Version::parse("1.0.0+a").unwrap();
    let b = Version::parse("1.0.0+b").unwrap();
    assert_eq!(a.rank(&b), Precedence::Same);
}
