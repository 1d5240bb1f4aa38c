use razee::error::InstallError;
use razee::model::PackageIndex;
use razee::resolver::{resolve, select_version, Candidate};
use razee::semver::Version;

fn index_of(keys: &[&str]) -> PackageIndex {
    PackageIndex {
        name: "pkg".to_string(),
        published_versions: keys.iter().map(|k| k.to_string()).collect(),
    }
}

fn candidate(major: u64, minor: u64, patch: u64, admitted: bool) -> Option<Candidate> {
    Some(Candidate {
        version: Version { major, minor, patch, pre_release: vec![], build: vec![] },
        admitted,
    })
}

#[test]
fn fallback_returns_the_only_version() {
    let index = index_of(&["1.0.0"]);
    assert_eq!(resolve(&index, "^2.0.0"), Ok("1.0.0".to_string()));
}

#[test]
fn fallback_returns_the_maximum() {
    let index = index_of(&["1.0.0", "1.2.0", "2.0.0"]);
    assert_eq!(resolve(&index, "^3.0.0"), Ok("2.0.0".to_string()));
    let shuffled = index_of(&["1.2.0", "2.0.0", "1.0.0"]);
    assert_eq!(resolve(&shuffled, "^3.0.0"), Ok("2.0.0".to_string()));
    assert_eq!(resolve(&shuffled, "not a range"), Ok("2.0.0".to_string()));
}

#[test]
fn first_admitted_version_in_listing_order_is_chosen() {
    let index = index_of(&["1.0.0", "1.3.0", "1.3.1"]);
    assert_eq!(resolve(&index, "^1.3.0"), Ok("1.3.0".to_string()));
    let newest_first = index_of(&["1.3.1", "1.3.0", "1.0.0"]);
    assert_eq!(resolve(&newest_first, "^1.3.0"), Ok("1.3.1".to_string()));
}

#[test]
fn a_floor_admits_higher_major_versions() {
    let index = index_of(&["0.9.0", "2.0.0", "1.2.3"]);
    assert_eq!(resolve(&index, "1.2.3"), Ok("2.0.0".to_string()));
}

#[test]
fn star_selects_the_latest_version() {
    let index = index_of(&["1.0.0", "3.1.0", "2.0.0"]);
    assert_eq!(resolve(&index, "*"), Ok("3.1.0".to_string()));
}

#[test]
fn keys_that_are_no_versions_are_left_out() {
    let index = index_of(&["created", "modified", "1.0.0", "2020-01-01T00:00:00.000Z", "latest"]);
    assert_eq!(resolve(&index, "^1.0.0"), Ok("1.0.0".to_string()));
    assert_eq!(resolve(&index, "*"), Ok("1.0.0".to_string()));
}

#[test]
fn no_version_at_all_is_a_resolution_error() {
    assert_eq!(resolve(&index_of(&["created", "modified"]), "^1.0.0"), Err(InstallError::Resolution));
    assert_eq!(resolve(&index_of(&[]), "*"), Err(InstallError::Resolution));
}

#[test]
fn a_pre_release_is_admitted_only_on_its_own_line() {
    let index = index_of(&["2.0.0-beta.1", "1.5.0"]);
    assert_eq!(resolve(&index, "^1.0.0"), Ok("1.5.0".to_string()));
    assert_eq!(resolve(&index, "2.0.0-beta.0"), Ok("2.0.0-beta.1".to_string()));
}

#[test]
fn resolve_is_the_same_on_every_call() {
    let index = index_of(&["1.0.0", "1.2.0", "2.0.0"]);
    let first = resolve(&index, "~1.1.0");
    for _ in 0..5 {
        assert_eq!(resolve(&index, "~1.1.0"), first);
    }
    assert_eq!(first, Ok("1.2.0".to_string()));
}

#[test]
fn select_prefers_the_first_admitted() {
    let entries = vec![candidate(3, 0, 0, false), None, candidate(1, 0, 0, true), candidate(2, 0, 0, true)];
    assert_eq!(select_version(&entries), Some(2));
}

#[test]
fn select_falls_back_to_the_last_of_the_latest() {
    let entries = vec![candidate(1, 0, 0, false), candidate(2, 0, 0, false), None, candidate(2, 0, 0, false), candidate(1, 5, 0, false)];
    assert_eq!(select_version(&entries), Some(3));
    assert_eq!(select_version(&vec![None, None]), None);
    assert_eq!(select_version(&vec![]), None);
}

#[test]
fn an_upper_bound_is_respected() {
    let index = index_of(&["1.0.0", "3.0.0"]);
    assert_eq!(resolve(&index, "<2.0.0"), Ok("1.0.0".to_string()));
    let newest_first = index_of(&["3.0.0", "1.0.0"]);
    assert_eq!(resolve(&newest_first, "<2.0.0"), Ok("1.0.0".to_string()));
}

#[test]
fn comparators_pick_the_first_version_that_satisfies_them() {
    let index = index_of(&["1.0.0", "2.5.0", "1.4.0", "1.2.0", "2.0.0"]);
    assert_eq!(resolve(&index, ">=1.2.0 <2.0.0"), Ok("1.4.0".to_string()));
    assert_eq!(resolve(&index, "=1.2.0"), Ok("1.2.0".to_string()));
    assert_eq!(resolve(&index, ">1.4.0"), Ok("2.5.0".to_string()));
    assert_eq!(resolve(&index, "<=1.2.0"), Ok("1.0.0".to_string()));
    assert_eq!(resolve(&index, "1.1.0 - 1.3.0"), Ok("1.2.0".to_string()));
    assert_eq!(resolve(&index, "~1.2.0 <1.2.5"), Ok("1.2.0".to_string()));
}

#[test]
fn comparators_that_nothing_satisfies_fall_back_to_the_latest() {
    let index = index_of(&["1.0.0", "2.5.0", "1.4.0"]);
    assert_eq!(resolve(&index, "<1.0.0"), Ok("2.5.0".to_string()));
    assert_eq!(resolve(&index, ">=3.0.0 <4.0.0"), Ok("2.5.0".to_string()));
    assert_eq!(resolve(&index_of(&["1.0.0"]), "<1.0.0"), Ok("1.0.0".to_string()));
}

#[test]
fn texts_that_the_range_parser_gives_up_on_fall_back() {
    let index = index_of(&["1.0.0", "2.5.0", "1.4.0"]);
    for text in ["=*", "= x", "=v*", ">=1.0.0 =*", "<9.0.0||=X", "~x <2", "~> *", "~1.x.3 <2", "<9.0.0 ~v 1.X.0"] {
        assert_eq!(resolve(&index, text), Ok("2.5.0".to_string()), "{}", text);
    }
}

#[test]
fn satisfies_reads_comparators() {
    let v = Version::parse("1.4.0").unwrap();
    assert!(v.satisfies("<2.0.0"));
    assert!(v.satisfies(">=1.2.0 <2.0.0"));
    assert!(v.satisfies("<1.0.0 || >1.3.0"));
    assert!(!v.satisfies("<1.4.0"));
    assert!(!v.satisfies("=1.4.1"));
    assert!(!v.satisfies("not a range"));
    assert!(!v.satisfies("=*"));
    assert!(v.meets_floor("1.4.0"));
    assert!(!v.meets_floor("1.4.1"));
    assert!(!v.meets_floor("<2.0.0"));
}
