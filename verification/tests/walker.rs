use razee::archive::{begin_install, plan_archive, InstallStep, InstalledState};
use razee::cache::Resource;
use razee::error::InstallError;
use razee::model::{ArchiveRef, DependencyRequest, PackageIndex, ResolvedPackage, RootManifest};
use razee::registry::{Fetch, HttpClient, Progress, Reply};
use razee::resolver::resolve;
use razee::walker::{GraphWalker, Visit, VisitEvent, VisitState, VisitedSet};

fn request(name: &str, range: &str) -> DependencyRequest {
    DependencyRequest::new(name, range)
}

fn package(name: &str, version: &str, deps: Vec<DependencyRequest>, dev: Vec<DependencyRequest>) -> ResolvedPackage {
    ResolvedPackage {
        name: name.to_string(),
        version: version.to_string(),
        dependencies: deps,
        dev_dependencies: dev,
        archive: ArchiveRef {
            integrity: "sha512-x".to_string(),
            url: format!("https://registry.example/{name}/-/{name}-{version}.tgz"),
            expected_file_count: Some(3),
        },
    }
}

fn root(deps: Vec<DependencyRequest>, dev: Vec<DependencyRequest>) -> RootManifest {
    RootManifest { name: "root".to_string(), dependencies: deps, dev_dependencies: dev }
}

fn names(requests: &[DependencyRequest]) -> Vec<(String, String)> {
    requests.iter().map(|r| (r.name.clone(), r.range_spec.clone())).collect()
}

fn tarball(paths: &[&str]) -> Vec<u8> {
    let encoder = flate2::write::GzEncoder::new(Vec::new(), flate2::Compression::default());
    let mut builder = tar::Builder::new(encoder);
    for path in paths {
        let data = b"x";
        let mut header = tar::Header::new_gnu();
        header.set_size(data.len() as u64);
        header.set_mode(0o644);
        header.set_cksum();
        builder.append_data(&mut header, path, &data[..]).unwrap();
    }
    builder.into_inner().unwrap().finish().unwrap()
}

#[test]
fn claim_is_check_and_insert() {
    let mut set = VisitedSet::new();
    assert!(!set.contains("a"));
    assert!(set.claim(request("a", "^1.0.0")));
    assert!(set.contains("a"));
    assert!(!set.claim(request("a", "~2.0.0")));
    assert!(set.claim(request("b", "*")));
    assert_eq!(set.len(), 2);
}

#[test]
fn first_visit_resolves_and_later_ones_are_satisfied() {
    let mut walker = GraphWalker::new();
    assert!(matches!(walker.begin(&request("x", "^1.0.0")), Visit::Resolve(name) if name == "x"));
    assert!(matches!(walker.begin(&request("x", "^1.0.0")), Visit::Satisfied));
    assert!(matches!(walker.begin(&request("x", "~3.0.0")), Visit::Satisfied));
    assert_eq!(walker.installed(), 1);
}

#[test]
fn alias_is_resolved_against_the_real_package() {
    let mut walker = GraphWalker::new();
    assert!(matches!(
        walker.begin(&request("alias", "npm:real-name@^2.0.0")),
        Visit::Resolve(name) if name == "real-name"
    ));
    assert!(walker.has_visited("alias"));
    assert!(!walker.has_visited("real-name"));
}

#[test]
fn seed_takes_runtime_then_development_dependencies() {
    let manifest = root(
        vec![request("a", "^1.0.0"), request("b", "*")],
        vec![request("c", "~2.0.0")],
    );
    let roots = GraphWalker::seed(Some(&manifest)).unwrap();
    assert_eq!(
        names(&roots),
        vec![
            ("a".to_string(), "^1.0.0".to_string()),
            ("b".to_string(), "*".to_string()),
            ("c".to_string(), "~2.0.0".to_string())
        ]
    );
    assert!(GraphWalker::seed(Some(&root(vec![], vec![]))).unwrap().is_empty());
}

#[test]
fn missing_manifest_is_a_manifest_error() {
    assert_eq!(GraphWalker::seed(None).err(), Some(InstallError::Manifest));
}

#[test]
fn visit_start_gives_the_event() {
    let mut walker = GraphWalker::new();
    assert_eq!(walker.begin(&request("a", "*")).event(), VisitEvent::Claimed);
    assert_eq!(walker.begin(&request("a", "*")).event(), VisitEvent::AlreadyVisited);
}

#[test]
fn expand_leaves_out_what_is_claimed() {
    let mut walker = GraphWalker::new();
    walker.begin(&request("a", "*"));
    walker.begin(&request("c", "*"));
    let resolved = package(
        "a",
        "1.0.0",
        vec![request("b", "^1.0.0"), request("c", "^1.0.0")],
        vec![request("d", "2"), request("a", "*")],
    );
    let children = walker.expand(&resolved);
    assert_eq!(
        names(&children),
        vec![("b".to_string(), "^1.0.0".to_string()), ("d".to_string(), "2".to_string())]
    );
    assert_eq!(walker.installed(), 2);
}

#[test]
fn concurrent_fan_out_scenario() {
    let mut walker = GraphWalker::new();
    let manifest = root(vec![request("A", "^1.0.0"), request("B", "^1.0.0")], vec![]);
    let roots = GraphWalker::seed(Some(&manifest)).unwrap();
    assert!(matches!(walker.begin(&roots[0]), Visit::Resolve(_)));
    assert!(matches!(walker.begin(&roots[1]), Visit::Resolve(_)));
    let a = package("A", "1.0.0", vec![request("C", "^1.0.0")], vec![]);
    let b = package("B", "1.0.0", vec![request("C", "~1.2.0")], vec![]);
    let from_a = walker.expand(&a);
    let from_b = walker.expand(&b);
    assert_eq!(names(&from_a), vec![("C".to_string(), "^1.0.0".to_string())]);
    assert_eq!(names(&from_b), vec![("C".to_string(), "~1.2.0".to_string())]);
    assert!(matches!(walker.begin(&from_b[0]), Visit::Resolve(name) if name == "C"));
    assert!(matches!(walker.begin(&from_a[0]), Visit::Satisfied));
    assert_eq!(walker.installed(), 3);

    let mut other = GraphWalker::new();
    other.begin(&roots[0]);
    other.begin(&roots[1]);
    assert!(matches!(other.begin(&from_a[0]), Visit::Resolve(_)));
    assert!(matches!(other.begin(&from_b[0]), Visit::Satisfied));
    assert_eq!(other.installed(), 3);
}

#[test]
fn visit_states_follow_the_events() {
    let s = VisitState::Pending;
    assert_eq!(s.advance(VisitEvent::AlreadyVisited), VisitState::Done);
    let s = s.advance(VisitEvent::Claimed);
    assert_eq!(s, VisitState::Resolving);
    let s = s.advance(VisitEvent::Resolved);
    assert_eq!(s, VisitState::Installing { children_joined: false });
    assert_eq!(s.advance(VisitEvent::Resolved), s);
    let s = s.advance(VisitEvent::Installed);
    assert_eq!(s, VisitState::Expanding);
    let s = s.advance(VisitEvent::ChildrenJoined);
    assert_eq!(s, VisitState::Done);
    assert_eq!(s.advance(VisitEvent::Failure), VisitState::Done);
}

#[test]
fn install_and_expansion_finish_in_either_order() {
    let both = VisitState::Installing { children_joined: false };
    let joined_first = both.advance(VisitEvent::ChildrenJoined);
    assert_eq!(joined_first, VisitState::Installing { children_joined: true });
    assert_eq!(joined_first.advance(VisitEvent::ChildrenJoined), joined_first);
    assert_eq!(joined_first.advance(VisitEvent::Installed), VisitState::Done);
    let installed_first = both.advance(VisitEvent::Installed);
    assert_eq!(installed_first, VisitState::Expanding);
    assert_eq!(installed_first.advance(VisitEvent::Installed), VisitState::Expanding);
    assert_eq!(installed_first.advance(VisitEvent::ChildrenJoined), VisitState::Done);
}

#[test]
fn failure_ends_any_running_visit() {
    for state in [
        VisitState::Pending,
        VisitState::Resolving,
        VisitState::Installing { children_joined: false },
        VisitState::Installing { children_joined: true },
        VisitState::Expanding,
    ] {
        assert_eq!(state.advance(VisitEvent::Failure), VisitState::Failed);
    }
    assert_eq!(VisitState::Failed.advance(VisitEvent::Claimed), VisitState::Failed);
    assert_eq!(VisitState::Failed.advance(VisitEvent::ChildrenJoined), VisitState::Failed);
}

#[test]
fn end_to_end_scenario() {
    let mut walker = GraphWalker::new();
    let mut client = HttpClient::new();
    let manifest = root(vec![request("left-pad", "^1.3.0")], vec![]);
    let roots = GraphWalker::seed(Some(&manifest)).unwrap();
    let mut state = VisitState::Pending;

    let index_name = match walker.begin(&roots[0]) {
        Visit::Resolve(name) => name,
        Visit::Satisfied => panic!("the name should be free"),
    };
    state = state.advance(VisitEvent::Claimed);
    assert_eq!(index_name, "left-pad");

    let wanted = match client.fetch_package(&index_name) {
        Fetch::Wanted(request) => request,
        Fetch::Cached(_) => panic!("nothing should be cached"),
    };
    assert!(client.reserve(&wanted));
    let listing = PackageIndex {
        name: "left-pad".to_string(),
        published_versions: vec![
            "created".to_string(),
            "1.0.0".to_string(),
            "1.3.1".to_string(),
            "1.3.0".to_string(),
        ],
    };
    assert!(matches!(
        client.settle(wanted, Reply::Document(Resource::Index(listing))),
        Progress::Stored
    ));
    let version = match client.fetch_package(&index_name) {
        Fetch::Cached(Resource::Index(index)) => resolve(index, &roots[0].range_spec).unwrap(),
        _ => panic!("the index should be cached"),
    };
    assert_eq!(version, "1.3.1");

    let wanted = match client.fetch_dependency(&index_name, &version) {
        Fetch::Wanted(request) => request,
        Fetch::Cached(_) => panic!("nothing should be cached"),
    };
    assert_eq!(wanted.url, "http://registry.npmjs.org/left-pad/1.3.1");
    assert!(client.reserve(&wanted));
    client.settle(
        wanted,
        Reply::Document(Resource::Manifest(package("left-pad", "1.3.1", vec![], vec![]))),
    );
    state = state.advance(VisitEvent::Resolved);

    let resolved = match client.fetch_dependency(&index_name, &version) {
        Fetch::Cached(Resource::Manifest(found)) => found,
        _ => panic!("the manifest should be cached"),
    };
    assert!(walker.expand(resolved).is_empty());

    let absent = InstalledState { exists: false, file_count: 0, has_marker: false };
    let url = match begin_install(&resolved.archive, &absent) {
        InstallStep::Fetch(url) => url,
        InstallStep::Skip => panic!("nothing is installed yet"),
    };
    assert_eq!(url, resolved.archive.url);
    let bytes = tarball(&["package/package.json", "package/index.js", "package/README.md"]);
    let plans = plan_archive("node_modules", &resolved.name, &bytes).unwrap();
    assert_eq!(plans.len(), 3);
    assert!(plans.iter().all(|p| p.target.starts_with("node_modules/left-pad/")));
    state = state.advance(VisitEvent::Installed);
    state = state.advance(VisitEvent::ChildrenJoined);
    assert_eq!(state, VisitState::Done);
    assert_eq!(walker.installed(), 1);

    let populated = InstalledState { exists: true, file_count: 3, has_marker: true };
    assert!(matches!(begin_install(&resolved.archive, &populated), InstallStep::Skip));
}
