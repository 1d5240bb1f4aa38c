use razee::archive::{
    begin_install, entry_action, marker_path, package_dir, plan_archive, plan_entries,
    EntryAction, InstallStep, InstalledState,
};
use razee::error::InstallError;
use razee::model::ArchiveRef;

fn archive_ref(expected: Option<u64>) -> ArchiveRef {
    ArchiveRef {
        integrity: "sha512-abc".to_string(),
        url: "https://registry.example/left-pad/-/left-pad-1.3.1.tgz".to_string(),
        expected_file_count: expected,
    }
}

fn tarball(paths: &[&str]) -> Vec<u8> {
    let encoder = flate2::write::GzEncoder::new(Vec::new(), flate2::Compression::default());
    let mut builder = tar::Builder::new(encoder);
    for path in paths {
        let data = b"module.exports = 1;\n";
        let mut header = tar::Header::new_gnu();
        header.set_size(data.len() as u64);
        header.set_mode(0o644);
        header.set_cksum();
        builder.append_data(&mut header, path, &data[..]).unwrap();
    }
    builder.into_inner().unwrap().finish().unwrap()
}

#[test]
fn populated_directory_with_matching_count_is_skipped() {
    let state = InstalledState { exists: true, file_count: 3, has_marker: true };
    assert!(matches!(begin_install(&archive_ref(Some(3)), &state), InstallStep::Skip));
}

#[test]
fn count_mismatch_or_missing_directory_is_fetched() {
    let partial = InstalledState { exists: true, file_count: 2, has_marker: true };
    assert!(matches!(
        begin_install(&archive_ref(Some(3)), &partial),
        InstallStep::Fetch(url) if url == "https://registry.example/left-pad/-/left-pad-1.3.1.tgz"
    ));
    let absent = InstalledState { exists: false, file_count: 3, has_marker: true };
    assert!(matches!(begin_install(&archive_ref(Some(3)), &absent), InstallStep::Fetch(_)));
}

#[test]
fn marker_decides_where_no_count_is_declared() {
    let with_marker = InstalledState { exists: true, file_count: 0, has_marker: true };
    assert!(matches!(begin_install(&archive_ref(None), &with_marker), InstallStep::Skip));
    let without = InstalledState { exists: true, file_count: 7, has_marker: false };
    assert!(matches!(begin_install(&archive_ref(None), &without), InstallStep::Fetch(_)));
}

#[test]
fn directories_and_marker_path() {
    assert_eq!(package_dir("node_modules", "@types/estree"), "node_modules/@types/estree");
    assert_eq!(marker_path("node_modules", "left-pad"), "node_modules/left-pad/package.json");
}

#[test]
fn existing_file_is_kept() {
    assert_eq!(entry_action(true), EntryAction::Keep);
    assert_eq!(entry_action(false), EntryAction::Write);
}

#[test]
fn plan_entries_maps_each_path() {
    let entries = vec!["package/package.json".to_string(), "package/lib/index.js".to_string()];
    let plans = plan_entries("node_modules", "left-pad", &entries);
    assert_eq!(plans.len(), 2);
    assert_eq!(plans[0].target, "node_modules/left-pad/package.json");
    assert_eq!(plans[0].parent, Some("node_modules/left-pad".to_string()));
    assert_eq!(plans[1].target, "node_modules/left-pad/lib/index.js");
    assert_eq!(plans[1].parent, Some("node_modules/left-pad/lib".to_string()));
}

#[test]
fn plan_archive_lists_the_entries_of_a_tarball() {
    let bytes = tarball(&["package/package.json", "package/index.js", "package/README.md"]);
    let plans = plan_archive("node_modules", "left-pad", &bytes).unwrap();
    let targets: Vec<&str> = plans.iter().map(|p| p.target.as_str()).collect();
    assert_eq!(
        targets,
        vec![
            "node_modules/left-pad/package.json",
            "node_modules/left-pad/index.js",
            "node_modules/left-pad/README.md"
        ]
    );
}

#[test]
fn plan_archive_of_a_scoped_layout_collapses_the_repeat() {
    let bytes = tarball(&["estree/index.d.ts"]);
    let plans = plan_archive("node_modules", "@types/estree", &bytes).unwrap();
    assert_eq!(plans[0].target, "node_modules/@types/estree/index.d.ts");
}

#[test]
fn corrupt_archive_is_an_extraction_error() {
    assert_eq!(
        plan_archive("node_modules", "left-pad", &vec![1, 2, 3, 4]).err(),
        Some(InstallError::Extraction)
    );
    let mut bytes = tarball(&["package/index.js"]);
    bytes.truncate(bytes.len() / 2);
    assert_eq!(
        plan_archive("node_modules", "left-pad", &bytes).err(),
        Some(InstallError::Extraction)
    );
}
