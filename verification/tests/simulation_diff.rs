use safeshell::simulation::diff::{hex_sha256, to_hex_lower, whiteout_deleted_path, LowerEntry, SimulationDiff};

#[test]
fn files_affected_counts_created_and_modified() {
    let mut diff = SimulationDiff::default();
    diff.files_created.push("a".into());
    diff.files_modified.push("b".into());
    diff.files_modified.push("c".into());
    assert_eq!(diff.files_affected(), 3);
}

#[test]
fn hashes_are_lower_case_hex_sha256() {
    assert_eq!(to_hex_lower(&[0x0a, 0x14, 0x1e, 0xff]), "0a141eff");
    assert_eq!(
        hex_sha256(b"abc"),
        "ba7816bf8f01cfea414140de5dae2223b00361a396177a9cb410ff61f20015ad"
    );
    assert_eq!(
        hex_sha256(b""),
        "e3b0c44298fc1c149afbf4c8996fb92427ae41e4649b934ca495991b7852b855"
    );
}

#[test]
fn whiteout_markers_name_the_path_they_delete() {
    assert_eq!(whiteout_deleted_path(".wh.a.txt", ".wh.a.txt"), Some("a.txt".to_string()));
    assert_eq!(
        whiteout_deleted_path("project/.wh.file.txt", ".wh.file.txt"),
        Some("project/file.txt".to_string())
    );
    assert_eq!(whiteout_deleted_path("project/a.txt", "a.txt"), None);
}

#[test]
fn recording_entries_classifies_each_change() {
    let mut diff = SimulationDiff::default();
    diff.record_whiteout("a.txt".into(), Some(LowerEntry { is_directory: false, len: 12 }));
    diff.record_whiteout("project".into(), Some(LowerEntry { is_directory: true, len: 0 }));
    diff.record_whiteout("ghost".into(), None);
    diff.record_directory("new_dir".into(), false);
    diff.record_directory("old_dir".into(), true);
    diff.record_file("same.txt".into(), b"same content", Some(b"same content"));
    diff.record_file("changed.txt".into(), b"changed", Some(b"original"));
    diff.record_file("new.txt".into(), b"brand new", None);

    assert_eq!(diff.files_deleted, vec!["a.txt".to_string()]);
    assert_eq!(diff.directories_deleted, vec!["project".to_string()]);
    assert_eq!(diff.bytes_deleted, 12);
    assert_eq!(diff.directories_created, vec!["new_dir".to_string()]);
    assert_eq!(diff.files_modified, vec!["changed.txt".to_string()]);
    assert_eq!(diff.files_created, vec!["new.txt".to_string()]);
    assert_eq!(diff.bytes_affected, 12 + 7 + 9);
    assert_eq!(
        diff.content_hashes,
        vec![
            ("changed.txt".to_string(), hex_sha256(b"changed")),
            ("new.txt".to_string(), hex_sha256(b"brand new")),
        ]
    );
    assert_eq!(diff.files_affected(), 3);
}

use safeshell::simulation::diff::{entry_kind, EntryFacts, EntryKind};

#[test]
fn an_entry_is_a_whiteout_before_it_is_a_directory_or_a_file() {
    match entry_kind("dir/.wh.gone", ".wh.gone", true) {
        EntryKind::Whiteout(p) => assert_eq!(p, "dir/gone"),
        _ => panic!("a marker is a whiteout"),
    }
    assert!(matches!(entry_kind("dir/sub", "sub", true), EntryKind::Directory));
    assert!(matches!(entry_kind("dir/f.txt", "f.txt", false), EntryKind::File));
}

#[test]
fn recording_a_whiteout_of_a_lower_file_counts_its_bytes_as_deleted() {
    let mut diff = SimulationDiff::default();
    let r = diff.record_entry(
        ".wh.a.txt".into(),
        EntryFacts::Whiteout { deleted_rel: "a.txt".into(), lower: Some(LowerEntry { is_directory: false, len: 12 }) },
    );
    assert!(r.is_ok());
    assert_eq!(diff.files_deleted, vec!["a.txt".to_string()]);
    assert_eq!(diff.bytes_deleted, 12);
    assert_eq!(diff.files_affected(), 1);
    assert!(diff.files_created.is_empty());
    assert!(diff.files_modified.is_empty());
    assert!(diff.directories_deleted.is_empty());
}

#[test]
fn recording_entries_by_their_facts() {
    let mut diff = SimulationDiff::default();
    assert!(diff.record_entry("d".into(), EntryFacts::Directory { existed_before: false }).is_ok());
    assert!(diff
        .record_entry("same".into(), EntryFacts::File { contents: b"x".to_vec(), previous: Some(b"x".to_vec()) })
        .is_ok());
    assert!(diff
        .record_entry("new".into(), EntryFacts::File { contents: b"abc".to_vec(), previous: None })
        .is_ok());
    assert_eq!(diff.directories_created, vec!["d".to_string()]);
    assert_eq!(diff.files_created, vec!["new".to_string()]);
    assert!(diff.files_modified.is_empty());
    assert_eq!(diff.bytes_affected, 4);
    assert_eq!(
        diff.content_hashes,
        vec![("new".to_string(), "ba7816bf8f01cfea414140de5dae2223b00361a396177a9cb410ff61f20015ad".to_string())]
    );
}

#[test]
fn recording_an_entry_past_the_byte_limit_is_refused_and_changes_nothing() {
    let mut diff = SimulationDiff::default();
    diff.bytes_deleted = u64::MAX - 1;
    let before = diff.clone();
    let r = diff.record_entry(
        ".wh.big".into(),
        EntryFacts::Whiteout { deleted_rel: "big".into(), lower: Some(LowerEntry { is_directory: false, len: 2 }) },
    );
    match r {
        Err(e) => assert_eq!(e.message, "deleted byte total overflows"),
        Ok(()) => panic!("the total would overflow"),
    }
    assert_eq!(diff, before);
    diff.bytes_affected = u64::MAX;
    let r = diff.record_entry("f".into(), EntryFacts::File { contents: b"a".to_vec(), previous: None });
    match r {
        Err(e) => assert_eq!(e.message, "affected byte total overflows"),
        Ok(()) => panic!("the total would overflow"),
    }
}
