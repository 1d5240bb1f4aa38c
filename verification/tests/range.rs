use razee::range::{normalize, VersionRange};

fn floor_of(spec: &str) -> Option<String> {
    match normalize(spec).range {
        VersionRange::Floor(text) => Some(text),
        _ => None,
    }
}

#[test]
fn caret_tilde_and_plain_version_are_the_same_floor() {
    assert_eq!(floor_of("^1.2.3"), Some("1.2.3".to_string()));
    assert_eq!(floor_of("~1.2.3"), Some("1.2.3".to_string()));
    assert_eq!(floor_of("1.2.3"), Some("1.2.3".to_string()));
}

#[test]
fn star_is_any_version() {
    assert!(matches!(normalize("*").range, VersionRange::Any));
    assert!(matches!(normalize(" * ").range, VersionRange::Any));
    assert!(normalize("*").package.is_none());
}

#[test]
fn bare_numeral_is_completed() {
    assert_eq!(floor_of("2"), Some("2.0.0".to_string()));
    assert_eq!(floor_of("^10"), Some("10.0.0".to_string()));
    assert_eq!(floor_of("1.2"), Some("1.2".to_string()));
}

#[test]
fn alias_gives_the_package_and_the_range() {
    let n = normalize("npm:real-name@^2.0.0");
    assert_eq!(n.package, Some("real-name".to_string()));
    assert!(matches!(n.range, VersionRange::Floor(ref t) if t == "2.0.0"));
}

#[test]
fn alias_of_a_scoped_package_splits_at_the_last_at_sign() {
    let n = normalize("npm:@scope/pkg@~1.4.0");
    assert_eq!(n.package, Some("@scope/pkg".to_string()));
    assert!(matches!(n.range, VersionRange::Floor(ref t) if t == "1.4.0"));
}

#[test]
fn alias_without_a_range_has_no_package() {
    let n = normalize("npm:1.2.3");
    assert_eq!(n.package, None);
    assert!(matches!(n.range, VersionRange::Floor(ref t) if t == "1.2.3"));
    let scoped = normalize("npm:@scope/pkg");
    assert_eq!(scoped.package, None);
    assert!(matches!(scoped.range, VersionRange::Comparators(ref t) if t == "scope/pkg"));
}

#[test]
fn last_alternative_is_used() {
    assert_eq!(floor_of("^1.0.0 || ^2.0.0"), Some("2.0.0".to_string()));
    assert_eq!(floor_of("1||2||3"), Some("3.0.0".to_string()));
    assert!(matches!(normalize("^1.0.0 || *").range, VersionRange::Any));
}

#[test]
fn other_version_texts_stand_as_the_floor() {
    assert_eq!(floor_of("latest"), Some("latest".to_string()));
    assert_eq!(floor_of("1.x"), Some("1.x".to_string()));
    assert_eq!(floor_of(""), Some("".to_string()));
}

fn comparators_of(spec: &str) -> Option<String> {
    match normalize(spec).range {
        VersionRange::Comparators(text) => Some(text),
        _ => None,
    }
}

#[test]
fn comparators_are_kept_as_they_are_written() {
    assert_eq!(comparators_of("<2.0.0"), Some("<2.0.0".to_string()));
    assert_eq!(comparators_of(">=1.2.0 <2.0.0"), Some(">=1.2.0 <2.0.0".to_string()));
    assert_eq!(comparators_of("=1.2.3"), Some("=1.2.3".to_string()));
    assert_eq!(comparators_of("1.0.0 - 2.0.0"), Some("1.0.0 - 2.0.0".to_string()));
    assert_eq!(comparators_of("  >1.0.0 "), Some(">1.0.0".to_string()));
}

#[test]
fn comparators_keep_a_leading_marker() {
    assert_eq!(comparators_of("~1.2.3 <1.2.9"), Some("~1.2.3 <1.2.9".to_string()));
    assert_eq!(comparators_of("^1.2.3 <1.5.0"), Some("^1.2.3 <1.5.0".to_string()));
    assert_eq!(comparators_of("^1.2.3"), None);
}

#[test]
fn comparators_come_from_the_alias_and_the_last_alternative() {
    let n = normalize("npm:real-name@>=2.0.0 <3.0.0");
    assert_eq!(n.package, Some("real-name".to_string()));
    assert!(matches!(n.range, VersionRange::Comparators(ref t) if t == ">=2.0.0 <3.0.0"));
    assert_eq!(comparators_of("<1.0.0 || >=2.0.0 <3.0.0"), Some(">=2.0.0 <3.0.0".to_string()));
}
