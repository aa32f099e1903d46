use safeshell::fs_abstraction::{HostManagedPath, SandboxPath, SandboxPathError};

#[test]
fn parses_simple_relative_path() {
    let p = SandboxPath::parse("project/build").unwrap();
    assert_eq!(p.as_str(), "project/build");
}

#[test]
fn treats_leading_slash_as_relative_to_sandbox_root() {
    let p = SandboxPath::parse("/project/build").unwrap();
    assert_eq!(p.as_str(), "project/build");
}

#[test]
fn rejects_parent_component() {
    let err = SandboxPath::parse("project/../etc").unwrap_err();
    assert_eq!(err, SandboxPathError::ParentComponent("project/../etc".into()));
}

#[test]
fn rejects_bare_parent_component() {
    assert!(SandboxPath::parse("..").is_err());
    assert!(SandboxPath::parse("../../etc/passwd").is_err());
}

#[test]
fn rejects_nul_byte() {
    assert!(SandboxPath::parse("foo\0bar").is_err());
}

#[test]
fn collapses_dot_and_repeated_slashes() {
    let p = SandboxPath::parse("./project//build/./").unwrap();
    assert_eq!(p.as_str(), "project/build");
}

#[test]
fn root_is_root() {
    assert!(SandboxPath::root().is_root());
    assert!(SandboxPath::parse("/").unwrap().is_root());
}

#[test]
fn join_rejects_parent_and_separators() {
    let base = SandboxPath::parse("project").unwrap();
    assert!(base.join("..").is_err());
    assert!(base.join("a/b").is_err());
    assert!(base.join("").is_err());
}

#[test]
fn join_and_parent_roundtrip() {
    let base = SandboxPath::root();
    let child = base.join("project").unwrap().join("build").unwrap();
    assert_eq!(child.as_str(), "project/build");
    assert_eq!(child.parent().unwrap().as_str(), "project");
    assert_eq!(child.file_name(), Some("build".to_string()));
}

#[test]
fn resolve_relative_handles_dotdot_by_popping() {
    let base = SandboxPath::parse("project/build").unwrap();
    let resolved = base.resolve_relative("..").unwrap();
    assert_eq!(resolved.as_str(), "project");
}

#[test]
fn resolve_relative_clamps_dotdot_at_root() {
    let base = SandboxPath::root();
    let resolved = base.resolve_relative("../../../etc").unwrap();
    assert_eq!(resolved.as_str(), "etc");
}

#[test]
fn resolve_relative_leading_slash_restarts_from_root() {
    let base = SandboxPath::parse("project/build").unwrap();
    let resolved = base.resolve_relative("/etc/passwd").unwrap();
    assert_eq!(resolved.as_str(), "etc/passwd");
}

#[test]
fn resolve_relative_relative_component_appends() {
    let base = SandboxPath::parse("project").unwrap();
    let resolved = base.resolve_relative("build/../src").unwrap();
    assert_eq!(resolved.as_str(), "project/src");
}

#[test]
fn parse_errors_name_the_offending_input() {
    assert_eq!(SandboxPath::parse("").unwrap_err(), SandboxPathError::Empty);
    assert_eq!(SandboxPath::parse("a\0").unwrap_err(), SandboxPathError::ContainsNul);
}

#[test]
fn display_is_rooted_and_parent_of_top_level_is_root() {
    let p = SandboxPath::parse("project/build").unwrap();
    assert_eq!(p.display(), "/project/build");
    assert_eq!(SandboxPath::root().display(), "/");
    let top = SandboxPath::parse("project").unwrap();
    assert!(top.parent().unwrap().is_root());
    assert!(SandboxPath::root().parent().is_none());
    assert_eq!(SandboxPath::root().file_name(), None);
}

#[test]
fn host_managed_path_keeps_the_configured_path() {
    let h = HostManagedPath::from_config(std::path::PathBuf::from("/var/lib/safeshell"));
    assert_eq!(h.as_path(), std::path::Path::new("/var/lib/safeshell"));
}
