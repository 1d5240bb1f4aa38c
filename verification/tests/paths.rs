use razee::paths::{collapse, entry_target, parent_dir};

#[test]
fn wrapped_entry_goes_under_the_package_directory() {
    assert_eq!(
        entry_target("node_modules", "left-pad", "package/index.js"),
        "node_modules/left-pad/index.js"
    );
    assert_eq!(
        entry_target("node_modules", "left-pad", "package/lib/pad.js"),
        "node_modules/left-pad/lib/pad.js"
    );
}

#[test]
fn wrapper_directory_itself_maps_to_the_package_directory() {
    assert_eq!(entry_target("node_modules", "left-pad", "package"), "node_modules/left-pad");
}

#[test]
fn only_a_leading_wrapper_segment_is_rewritten() {
    assert_eq!(
        entry_target("node_modules", "a", "package/package/x.js"),
        "node_modules/a/package/x.js"
    );
    assert_eq!(
        entry_target("node_modules", "a", "packages/x.js"),
        "node_modules/a/packages/x.js"
    );
}

#[test]
fn unwrapped_entry_is_placed_and_collapsed() {
    assert_eq!(
        entry_target("node_modules", "@types/estree", "estree/readme"),
        "node_modules/@types/estree/readme"
    );
    assert_eq!(
        entry_target("installRoot", "foo", "foo/index.js"),
        "installRoot/foo/index.js"
    );
}

#[test]
fn path_collision_collapse_scenario() {
    assert_eq!(collapse("installRoot/foo/foo/index.js"), "installRoot/foo/index.js");
}

#[test]
fn collapse_reduces_a_whole_run() {
    assert_eq!(collapse("a/b/b/b/c"), "a/b/c");
    assert_eq!(collapse("a/a"), "a");
    assert_eq!(collapse("a/b/a/b"), "a/b/a/b");
    assert_eq!(collapse(""), "");
    assert_eq!(collapse("a///b"), "a//b");
}

#[test]
fn entry_below_the_install_root_stands_as_it_is() {
    assert_eq!(
        entry_target("node_modules", "a", "node_modules/b/b/x.js"),
        "node_modules/b/b/x.js"
    );
}

#[test]
fn wrapped_entry_keeps_its_repeated_segments() {
    assert_eq!(
        entry_target("node_modules", "a", "package/a/a/b.js"),
        "node_modules/a/a/a/b.js"
    );
}

#[test]
fn parent_is_all_but_the_last_segment() {
    assert_eq!(parent_dir("node_modules/a/lib/x.js"), Some("node_modules/a/lib".to_string()));
    assert_eq!(parent_dir("node_modules/x.js"), Some("node_modules".to_string()));
    assert_eq!(parent_dir("x.js"), None);
    assert_eq!(parent_dir("/x.js"), Some("".to_string()));
    assert_eq!(parent_dir("a/"), Some("a".to_string()));
}
