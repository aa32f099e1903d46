use safeshell::sandbox::worker::{child_path, is_single_safe_component, not_found_message};

#[test]
fn child_paths_and_safe_components() {
    assert_eq!(child_path("", "a"), "a");
    assert_eq!(child_path("project", "a"), "project/a");
    assert!(is_single_safe_component("a.txt"));
    assert!(!is_single_safe_component(""));
    assert!(!is_single_safe_component("a/b"));
    assert!(!is_single_safe_component(".."));
    assert!(!is_single_safe_component("."));
    assert!(!is_single_safe_component("a\0"));
    assert_eq!(not_found_message("x/y"), "x/y: not found in any layer");
}
