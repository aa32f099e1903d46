use std::cell::RefCell;
use std::collections::BTreeMap;
use std::rc::Rc;

use safeshell::sandbox::worker::{FileKind, StatInfo};
use safeshell::simulation::resolver::{FsError, LayerOps, LayeredResolver, LayeredView};

#[derive(Clone, PartialEq)]
enum Node {
    Dir,
    File(Vec<u8>),
}

/// One layer directory held in memory; clones share it, so a test can look
/// into a layer after handing it to the resolver.
#[derive(Clone)]
struct MemLayer {
    entries: Rc<RefCell<BTreeMap<String, Node>>>,
}

fn join(parent: &str, name: &str) -> String {
    if parent.is_empty() {
        name.to_string()
    } else {
        format!("{parent}/{name}")
    }
}

fn parent_of(path: &str) -> &str {
    path.rsplit_once('/').map(|(p, _)| p).unwrap_or("")
}

fn enoent() -> FsError {
    FsError { not_found: true, message: "No such file or directory (os error 2)".to_string() }
}

fn err(message: &str) -> FsError {
    FsError { not_found: false, message: message.to_string() }
}

impl MemLayer {
    fn new() -> Self {
        MemLayer { entries: Rc::new(RefCell::new(BTreeMap::new())) }
    }

    fn put(&self, path: &str, contents: &[u8]) -> &Self {
        let mut parent = String::new();
        for part in parent_of(path).split('/').filter(|p| !p.is_empty()) {
            parent = join(&parent, part);
            self.entries.borrow_mut().insert(parent.clone(), Node::Dir);
        }
        self.entries.borrow_mut().insert(path.to_string(), Node::File(contents.to_vec()));
        self
    }

    fn dir(&self, path: &str) -> &Self {
        let mut parent = String::new();
        for part in path.split('/') {
            parent = join(&parent, part);
            self.entries.borrow_mut().insert(parent.clone(), Node::Dir);
        }
        self
    }

    fn has(&self, path: &str) -> bool {
        self.entries.borrow().contains_key(path)
    }

    fn is_dir(&self, path: &str) -> bool {
        path.is_empty() || self.entries.borrow().get(path) == Some(&Node::Dir)
    }

    fn contents(&self, path: &str) -> Vec<u8> {
        match self.entries.borrow().get(path) {
            Some(Node::File(b)) => b.clone(),
            _ => panic!("{path} is no file"),
        }
    }
}

impl LayerOps for MemLayer {
    fn stat(&self, rel_path: &str) -> Result<StatInfo, FsError> {
        if rel_path.is_empty() {
            return Ok(StatInfo { kind: FileKind::Directory, len: 0 });
        }
        match self.entries.borrow().get(rel_path) {
            Some(Node::Dir) => Ok(StatInfo { kind: FileKind::Directory, len: 0 }),
            Some(Node::File(b)) => Ok(StatInfo { kind: FileKind::Regular, len: b.len() as u64 }),
            None => Err(enoent()),
        }
    }

    fn read_file(&self, rel_path: &str) -> Result<Vec<u8>, FsError> {
        match self.entries.borrow().get(rel_path) {
            Some(Node::File(b)) => Ok(b.clone()),
            Some(Node::Dir) => Err(err("Is a directory (os error 21)")),
            None => Err(enoent()),
        }
    }

    fn read_dir(&self, rel_path: &str) -> Result<Vec<String>, FsError> {
        if !self.is_dir(rel_path) {
            return Err(if self.has(rel_path) { err("Not a directory (os error 20)") } else { enoent() });
        }
        let mut names: Vec<String> = self
            .entries
            .borrow()
            .keys()
            .filter(|k| parent_of(k) == rel_path)
            .map(|k| k.rsplit('/').next().unwrap().to_string())
            .collect();
        names.sort();
        Ok(names)
    }

    fn touch(&self, rel_path: &str) -> Result<(), FsError> {
        if self.has(rel_path) {
            return Ok(());
        }
        self.write_new_file(rel_path, &[])
    }

    fn write_new_file(&self, rel_path: &str, contents: &[u8]) -> Result<(), FsError> {
        if !self.is_dir(parent_of(rel_path)) {
            return Err(enoent());
        }
        self.entries.borrow_mut().insert(rel_path.to_string(), Node::File(contents.to_vec()));
        Ok(())
    }

    fn mkdir(&self, parent_rel: &str, name: &str) -> Result<(), FsError> {
        if !self.is_dir(parent_rel) {
            return Err(enoent());
        }
        let path = join(parent_rel, name);
        if self.has(&path) {
            return Err(err("File exists (os error 17)"));
        }
        self.entries.borrow_mut().insert(path, Node::Dir);
        Ok(())
    }

    fn remove_file(&self, parent_rel: &str, name: &str) -> Result<(), FsError> {
        match self.entries.borrow_mut().remove(&join(parent_rel, name)) {
            Some(_) => Ok(()),
            None => Err(enoent()),
        }
    }

    fn remove_dir_recursive(&self, parent_rel: &str, name: &str) -> Result<(), FsError> {
        let path = join(parent_rel, name);
        if !self.has(&path) {
            return Err(enoent());
        }
        let prefix = format!("{path}/");
        self.entries.borrow_mut().retain(|k, _| *k != path && !k.starts_with(&prefix));
        Ok(())
    }

    fn create_whiteout(&self, parent_rel: &str, name: &str) -> Result<(), FsError> {
        self.touch(&join(parent_rel, &format!(".wh.{name}")))
    }

    fn has_whiteout(&self, parent_rel: &str, name: &str) -> bool {
        self.has(&join(parent_rel, &format!(".wh.{name}")))
    }

    fn set_mode(&self, parent_rel: &str, name: &str, _mode: u32) -> Result<(), FsError> {
        self.stat(&join(parent_rel, name)).map(|_| ())
    }

    fn set_owner(&self, parent_rel: &str, name: &str, _uid: Option<u32>, _gid: Option<u32>) -> Result<(), FsError> {
        self.stat(&join(parent_rel, name)).map(|_| ())
    }
}

fn stack(layers: &[&MemLayer]) -> LayeredResolver<MemLayer> {
    LayeredResolver::from_layers(layers.iter().map(|l| (*l).clone()).collect()).unwrap()
}

#[test]
fn a_stack_needs_at_least_one_layer() {
    let e = LayeredResolver::<MemLayer>::from_layers(vec![]).err().unwrap();
    assert_eq!(e.message, "a mounted view must have at least one layer");
    assert!(!e.not_found);
}

#[test]
fn reads_fall_through_to_a_lower_layer() {
    let (top, bottom) = (MemLayer::new(), MemLayer::new());
    bottom.put("a.txt", b"from bottom");
    assert_eq!(stack(&[&top, &bottom]).read_file("a.txt").unwrap(), b"from bottom");
}

#[test]
fn top_layer_shadows_a_lower_layer() {
    let (top, bottom) = (MemLayer::new(), MemLayer::new());
    top.put("a.txt", b"from top");
    bottom.put("a.txt", b"from bottom");
    assert_eq!(stack(&[&top, &bottom]).read_file("a.txt").unwrap(), b"from top");
}

#[test]
fn writes_always_land_in_the_top_layer_only() {
    let (top, bottom) = (MemLayer::new(), MemLayer::new());
    stack(&[&top, &bottom]).touch("new.txt").unwrap();
    assert!(top.has("new.txt"));
    assert!(!bottom.has("new.txt"));
}

#[test]
fn touch_copies_a_lower_layer_file_up_instead_of_shadowing_it_empty() {
    let (top, bottom) = (MemLayer::new(), MemLayer::new());
    bottom.put("a.txt", b"precious content");
    let resolver = stack(&[&top, &bottom]);
    resolver.touch("a.txt").unwrap();
    assert_eq!(top.contents("a.txt"), b"precious content");
    assert_eq!(resolver.read_file("a.txt").unwrap(), b"precious content");
}

#[test]
fn touch_on_a_file_already_in_the_top_layer_does_not_touch_lower_layers() {
    let (top, bottom) = (MemLayer::new(), MemLayer::new());
    top.put("a.txt", b"top content");
    stack(&[&top, &bottom]).touch("a.txt").unwrap();
    assert_eq!(top.contents("a.txt"), b"top content");
}

#[test]
fn mkdir_refuses_a_name_that_already_exists_in_a_lower_layer() {
    let (top, bottom) = (MemLayer::new(), MemLayer::new());
    bottom.dir("project");
    let e = stack(&[&top, &bottom]).mkdir("", "project").unwrap_err();
    assert_eq!(e.message, "project: already exists");
    assert!(!top.has("project"), "must not have created a shadow copy");
}

#[test]
fn mkdir_creates_a_directory_under_a_parent_that_only_exists_in_a_lower_layer() {
    let (top, bottom) = (MemLayer::new(), MemLayer::new());
    bottom.dir("tmp");
    let resolver = stack(&[&top, &bottom]);
    resolver.mkdir("tmp", "safeshell-test").unwrap();
    assert_eq!(resolver.stat("tmp/safeshell-test").unwrap().kind, FileKind::Directory);
    assert!(top.is_dir("tmp/safeshell-test"));
}

#[test]
fn touch_creates_a_file_under_a_directory_that_only_exists_in_a_lower_layer() {
    let (top, bottom) = (MemLayer::new(), MemLayer::new());
    bottom.dir("home/user");
    let resolver = stack(&[&top, &bottom]);
    resolver.touch("home/user/new.txt").unwrap();
    assert_eq!(resolver.read_file("home/user/new.txt").unwrap(), b"");
    assert!(top.has("home/user/new.txt"));
}

#[test]
fn rm_removes_a_file_whose_parent_directory_only_exists_in_a_lower_layer() {
    let (top, bottom) = (MemLayer::new(), MemLayer::new());
    bottom.put("home/user/test.txt", b"seeded");
    let resolver = stack(&[&top, &bottom]);
    resolver.remove("home/user", "test.txt", false).unwrap();
    assert!(resolver.stat("home/user/test.txt").unwrap_err().not_found);
    assert!(top.has("home/user/.wh.test.txt"));
}

#[test]
fn read_dir_merges_entries_from_every_layer() {
    let (top, bottom) = (MemLayer::new(), MemLayer::new());
    top.put("top_only.txt", b"");
    bottom.put("bottom_only.txt", b"");
    top.put("both.txt", b"top version");
    bottom.put("both.txt", b"bottom version");
    assert_eq!(
        stack(&[&top, &bottom]).read_dir("").unwrap(),
        vec!["both.txt".to_string(), "bottom_only.txt".to_string(), "top_only.txt".to_string()]
    );
}

#[test]
fn stat_reports_the_top_layers_version_when_shadowed() {
    let (top, bottom) = (MemLayer::new(), MemLayer::new());
    top.put("a.txt", b"12345");
    bottom.put("a.txt", b"1234567890");
    assert_eq!(stack(&[&top, &bottom]).stat("a.txt").unwrap().len, 5);
}

#[test]
fn missing_path_is_not_found_across_the_whole_stack() {
    let (top, bottom) = (MemLayer::new(), MemLayer::new());
    let e = stack(&[&top, &bottom]).read_file("nope.txt").unwrap_err();
    assert!(e.not_found);
    assert_eq!(e.message, "nope.txt: not found in any layer");
}

#[test]
fn single_layer_view_behaves_like_a_plain_root_resolver() {
    let only = MemLayer::new();
    only.put("a.txt", b"solo");
    assert_eq!(stack(&[&only]).read_file("a.txt").unwrap(), b"solo");
}

#[test]
fn remove_hides_a_lower_layer_file_from_stat_and_read_file() {
    let (top, bottom) = (MemLayer::new(), MemLayer::new());
    bottom.put("a.txt", b"from below");
    let resolver = stack(&[&top, &bottom]);
    resolver.remove("", "a.txt", false).unwrap();
    assert!(resolver.read_file("a.txt").unwrap_err().not_found);
    assert!(resolver.stat("a.txt").unwrap_err().not_found);
    assert!(bottom.has("a.txt"));
}

#[test]
fn remove_of_a_top_layer_only_file_leaves_no_whiteout_marker() {
    let (top, bottom) = (MemLayer::new(), MemLayer::new());
    top.put("a.txt", b"only up here");
    let resolver = stack(&[&top, &bottom]);
    resolver.remove("", "a.txt", false).unwrap();
    assert!(!top.has(".wh.a.txt"), "no whiteout is needed when nothing beneath it exists to hide");
    assert!(resolver.stat("a.txt").unwrap_err().not_found);
}

#[test]
fn remove_without_recursive_refuses_a_directory() {
    let top = MemLayer::new();
    top.dir("project");
    let e = stack(&[&top]).remove("", "project", false).unwrap_err();
    assert!(!e.not_found);
    assert_eq!(e.message, "project: is a directory");
}

#[test]
fn remove_recursive_hides_a_nested_subtree_from_a_lower_layer() {
    let (top, bottom) = (MemLayer::new(), MemLayer::new());
    bottom.put("project/file.txt", b"nested");
    let resolver = stack(&[&top, &bottom]);
    resolver.remove("", "project", true).unwrap();
    assert!(resolver.stat("project").unwrap_err().not_found);
    assert!(
        resolver.read_file("project/file.txt").unwrap_err().not_found,
        "a directory whiteout must hide everything beneath it, not just the directory entry itself"
    );
    assert!(bottom.has("project/file.txt"));
}

#[test]
fn remove_hides_a_lower_layer_entry_from_read_dir() {
    let (top, bottom) = (MemLayer::new(), MemLayer::new());
    bottom.put("a.txt", b"one");
    bottom.put("b.txt", b"two");
    let resolver = stack(&[&top, &bottom]);
    resolver.remove("", "a.txt", false).unwrap();
    let entries = resolver.read_dir("").unwrap();
    assert_eq!(entries, vec!["b.txt".to_string()]);
    assert!(!entries.iter().any(|e| e.starts_with(".wh.")));
}

#[test]
fn recreating_a_removed_name_through_the_layered_resolver_makes_it_visible_again() {
    let (top, bottom) = (MemLayer::new(), MemLayer::new());
    bottom.put("a.txt", b"original");
    let resolver = stack(&[&top, &bottom]);
    resolver.remove("", "a.txt", false).unwrap();
    assert!(resolver.stat("a.txt").is_err());
    resolver.touch("a.txt").unwrap();
    assert_eq!(resolver.read_file("a.txt").unwrap(), b"");
}

#[test]
fn removing_a_name_that_does_not_exist_anywhere_is_a_not_found_error() {
    let top = MemLayer::new();
    assert!(stack(&[&top]).remove("", "nope.txt", false).unwrap_err().not_found);
}

#[test]
fn a_whited_out_directory_hides_its_lower_listing() {
    let (top, bottom) = (MemLayer::new(), MemLayer::new());
    bottom.put("d/x", b"1");
    top.put(".wh.d", b"");
    let e = stack(&[&top, &bottom]).read_dir("d").unwrap_err();
    assert_eq!(e.message, "d: not found in any layer");
}

#[test]
fn chmod_copies_a_lower_file_up_first() {
    let (top, bottom) = (MemLayer::new(), MemLayer::new());
    bottom.put("etc/conf", b"k=v");
    stack(&[&top, &bottom]).chmod("etc/conf", 0o600).unwrap();
    assert_eq!(top.contents("etc/conf"), b"k=v");
}

// ---- the simulation diff and pass ----

use safeshell::handlers::info::SystemNames;
use safeshell::handlers::text_filters::FilterRunner;
use safeshell::handlers::{CommandResult, ShellHost};
use safeshell::parser::{Arg, ParsedCommand};
use safeshell::session::TerminalSession;
use safeshell::simulation::diff::{compute, hex_sha256, simulate, SimulationDiff};

struct NoHost;

impl FilterRunner for NoHost {
    fn run_filter(&self, name: &str, _flags: &[String], _stdin_bytes: &[u8]) -> (String, String, i32) {
        (String::new(), format!("{name}: sidecar binary not found\n"), 127)
    }
}

impl ShellHost for NoHost {
    fn user(&self) -> (Option<String>, u32) {
        (None, 0)
    }
    fn group(&self) -> (Option<String>, u32) {
        (None, 0)
    }
    fn system_names(&self) -> Result<SystemNames, String> {
        Err("unavailable".to_string())
    }
    fn sleep_for(&self, _interval: &str) -> CommandResult {
        CommandResult::ok("")
    }
}

fn diff_over(transient: &MemLayer, base: Option<&MemLayer>) -> SimulationDiff {
    let lower = base.map(|b| LayeredResolver::from_layers(vec![b.clone()]).unwrap());
    compute(transient, &lower).unwrap()
}

fn hash_of(diff: &SimulationDiff, path: &str) -> String {
    diff.content_hashes.iter().rev().find(|(p, _)| p == path).map(|(_, h)| h.clone()).unwrap()
}

#[test]
fn a_new_file_in_the_transient_layer_is_created() {
    let transient = MemLayer::new();
    transient.put("new.txt", b"hello");
    let diff = diff_over(&transient, Some(&MemLayer::new()));
    assert_eq!(diff.files_created, vec!["new.txt".to_string()]);
    assert!(diff.files_modified.is_empty());
    assert_eq!(diff.bytes_affected, 5);
}

#[test]
fn a_copied_up_but_unchanged_file_is_not_reported_as_a_change() {
    let (base, transient) = (MemLayer::new(), MemLayer::new());
    base.put("a.txt", b"same content");
    transient.put("a.txt", b"same content");
    let diff = diff_over(&transient, Some(&base));
    assert!(diff.files_created.is_empty());
    assert!(diff.files_modified.is_empty());
}

#[test]
fn a_copied_up_and_changed_file_is_modified() {
    let (base, transient) = (MemLayer::new(), MemLayer::new());
    base.put("a.txt", b"original");
    transient.put("a.txt", b"changed");
    let diff = diff_over(&transient, Some(&base));
    assert_eq!(diff.files_modified, vec!["a.txt".to_string()]);
    assert!(diff.files_created.is_empty());
}

#[test]
fn a_new_directory_is_reported_as_created() {
    let transient = MemLayer::new();
    transient.dir("project");
    let diff = diff_over(&transient, Some(&MemLayer::new()));
    assert_eq!(diff.directories_created, vec!["project".to_string()]);
}

#[test]
fn nested_entries_get_correct_relative_paths() {
    let transient = MemLayer::new();
    transient.put("project/file.txt", b"nested");
    let diff = diff_over(&transient, Some(&MemLayer::new()));
    assert_eq!(diff.directories_created, vec!["project".to_string()]);
    assert_eq!(diff.files_created, vec!["project/file.txt".to_string()]);
}

#[test]
fn empty_transient_layer_is_an_empty_diff() {
    let diff = diff_over(&MemLayer::new(), None);
    assert_eq!(diff, SimulationDiff::default());
}

#[test]
fn content_hash_is_recorded_for_created_and_modified_files() {
    let (base, transient) = (MemLayer::new(), MemLayer::new());
    base.put("a.txt", b"original");
    transient.put("a.txt", b"changed");
    transient.put("new.txt", b"brand new");
    let diff = diff_over(&transient, Some(&base));
    assert_eq!(diff.content_hashes.len(), 2);
    assert_eq!(hash_of(&diff, "a.txt"), hex_sha256(b"changed"));
    assert_eq!(hash_of(&diff, "new.txt"), hex_sha256(b"brand new"));
}

#[test]
fn a_whiteout_marker_for_a_lower_layer_file_is_reported_as_a_file_deletion() {
    let (base, transient) = (MemLayer::new(), MemLayer::new());
    base.put("a.txt", b"gone soon");
    transient.put(".wh.a.txt", b"");
    let diff = diff_over(&transient, Some(&base));
    assert_eq!(diff.files_deleted, vec!["a.txt".to_string()]);
    assert!(diff.directories_deleted.is_empty());
    assert!(diff.files_created.is_empty());
}

#[test]
fn a_whiteout_marker_for_a_lower_layer_directory_is_reported_as_a_directory_deletion() {
    let (base, transient) = (MemLayer::new(), MemLayer::new());
    base.dir("project");
    transient.put(".wh.project", b"");
    let diff = diff_over(&transient, Some(&base));
    assert_eq!(diff.directories_deleted, vec!["project".to_string()]);
    assert!(diff.files_deleted.is_empty());
}

#[test]
fn a_deleted_files_size_is_recorded_in_bytes_deleted_and_counted_as_affected() {
    let (base, transient) = (MemLayer::new(), MemLayer::new());
    base.put("a.txt", b"twelve bytes");
    transient.put(".wh.a.txt", b"");
    let diff = diff_over(&transient, Some(&base));
    assert_eq!(diff.bytes_deleted, 12);
    assert_eq!(diff.files_affected(), 1);
}

#[test]
fn a_nested_whiteout_marker_gets_the_correct_relative_deleted_path() {
    let (base, transient) = (MemLayer::new(), MemLayer::new());
    base.put("project/file.txt", b"data");
    transient.put("project/.wh.file.txt", b"");
    let diff = diff_over(&transient, Some(&base));
    assert_eq!(diff.files_deleted, vec!["project/file.txt".to_string()]);
}

#[test]
fn content_hash_is_not_recorded_for_an_unchanged_copy_up() {
    let (base, transient) = (MemLayer::new(), MemLayer::new());
    base.put("a.txt", b"same content");
    transient.put("a.txt", b"same content");
    assert!(diff_over(&transient, Some(&base)).content_hashes.is_empty());
}

fn command(name: &str, words: &[&str]) -> ParsedCommand {
    ParsedCommand {
        name: name.to_string(),
        args: words.iter().map(|w| Arg(w.to_string())).collect(),
        redirections: vec![],
        pipeline_next: None,
    }
}

#[test]
fn simulating_mkdir_never_touches_persistent_state() {
    let (transient, active, base) = (MemLayer::new(), MemLayer::new(), MemLayer::new());
    let mut session = TerminalSession::new();
    let outcome = simulate(transient.clone(), vec![active.clone(), base.clone()], &mut session, &command("mkdir", &["project"]), &NoHost)
        .unwrap();
    assert_eq!(outcome.command_result.exit_code, 0, "stderr: {}", outcome.command_result.stderr);
    assert_eq!(outcome.diff.directories_created, vec!["project".to_string()]);
    assert!(transient.has("project"));
    assert!(!active.has("project"));
    assert!(!base.has("project"));
}

#[test]
fn simulating_touch_on_an_existing_base_file_reports_no_change() {
    let (transient, base) = (MemLayer::new(), MemLayer::new());
    base.put("a.txt", b"seeded");
    let mut session = TerminalSession::new();
    let outcome = simulate(transient, vec![base], &mut session, &command("touch", &["a.txt"]), &NoHost).unwrap();
    assert_eq!(outcome.command_result.exit_code, 0);
    assert!(outcome.diff.files_created.is_empty());
    assert!(outcome.diff.files_modified.is_empty());
}

#[test]
fn simulating_a_command_that_reads_a_checkpoint_file_sees_it() {
    let (transient, checkpoint, base) = (MemLayer::new(), MemLayer::new(), MemLayer::new());
    checkpoint.put("a.txt", b"hello");
    let mut session = TerminalSession::new();
    let outcome =
        simulate(transient, vec![checkpoint, base], &mut session, &command("cat", &["a.txt"]), &NoHost).unwrap();
    assert_eq!(outcome.command_result.exit_code, 0);
    assert_eq!(outcome.command_result.stdout, "hello");
}

// ---- the worker's request dispatch ----

use safeshell::sandbox::worker::{dispatch, WorkerRequest, WorkerResponse};

#[test]
fn mkdir_request_creates_a_directory() {
    let layer = MemLayer::new();
    let response = dispatch(&layer, WorkerRequest::Mkdir { parent_rel: "".into(), name: "project".into() });
    assert_eq!(response, WorkerResponse::Done);
    assert!(layer.is_dir("project"));
}

#[test]
fn touch_request_creates_a_file() {
    let layer = MemLayer::new();
    let response = dispatch(&layer, WorkerRequest::Touch { rel_path: "a.txt".into() });
    assert_eq!(response, WorkerResponse::Done);
    assert!(layer.has("a.txt"));
}

#[test]
fn read_file_request_returns_contents() {
    let layer = MemLayer::new();
    layer.put("a.txt", b"hello");
    let response = dispatch(&layer, WorkerRequest::ReadFile { rel_path: "a.txt".into() });
    assert_eq!(response, WorkerResponse::FileContents(b"hello".to_vec()));
}

#[test]
fn read_dir_request_lists_entries() {
    let layer = MemLayer::new();
    layer.put("a.txt", b"");
    let response = dispatch(&layer, WorkerRequest::ReadDir { rel_path: "".into() });
    assert_eq!(response, WorkerResponse::DirEntries(vec!["a.txt".to_string()]));
}

#[test]
fn stat_request_reports_kind_and_len() {
    let layer = MemLayer::new();
    layer.put("a.txt", b"hello");
    let response = dispatch(&layer, WorkerRequest::Stat { rel_path: "a.txt".into() });
    assert_eq!(response, WorkerResponse::Stat(StatInfo { kind: FileKind::Regular, len: 5 }));
}

#[test]
fn a_failed_operation_becomes_an_error_response_not_a_panic() {
    let layer = MemLayer::new();
    let response = dispatch(&layer, WorkerRequest::ReadFile { rel_path: "does-not-exist".into() });
    assert_eq!(response, WorkerResponse::Error { message: "No such file or directory (os error 2)".to_string() });
}

#[test]
fn an_escape_attempt_becomes_an_error_response_not_a_panic() {
    let layer = MemLayer::new();
    let response = dispatch(&layer, WorkerRequest::ReadFile { rel_path: "../../../etc/passwd".into() });
    assert!(matches!(response, WorkerResponse::Error { .. }));
}

// ---- the executor ----

use safeshell::executor::{execute, ExecutionError};
use safeshell::rollback::CheckpointId;

#[test]
fn executing_writes_persist_to_the_active_write_layer() {
    let (active, sealed) = (MemLayer::new(), MemLayer::new());
    sealed.put("seed.txt", b"seed");
    let mut session = TerminalSession::new();
    let outcome = execute(
        active.clone(),
        vec![sealed],
        &[CheckpointId(7)],
        CheckpointId(7),
        &mut session,
        &command("mkdir", &["project"]),
        &NoHost,
    )
    .ok()
    .unwrap();
    assert_eq!(outcome.command_result.exit_code, 0);
    assert_eq!(outcome.diff.directories_created, vec!["project".to_string()]);
    assert!(active.is_dir("project"), "execution must leave its write in the persistent active write layer");
}

#[test]
fn a_token_naming_a_checkpoint_absent_from_this_stack_is_refused() {
    let active = MemLayer::new();
    let mut session = TerminalSession::new();
    let result = execute(
        active.clone(),
        vec![],
        &[CheckpointId(7)],
        CheckpointId(8),
        &mut session,
        &command("mkdir", &["project"]),
        &NoHost,
    );
    assert_eq!(result.err(), Some(ExecutionError::UnknownCheckpoint));
    assert!(!active.has("project"), "a refused approval must not have run the handler at all");
}

#[test]
fn execution_diff_reflects_what_actually_changed_relative_to_sealed_checkpoints() {
    let (active, sealed) = (MemLayer::new(), MemLayer::new());
    sealed.put("existing.txt", b"already here");
    let mut session = TerminalSession::new();
    let outcome = execute(
        active,
        vec![sealed],
        &[CheckpointId(1)],
        CheckpointId(1),
        &mut session,
        &command("touch", &["existing.txt"]),
        &NoHost,
    )
    .ok()
    .unwrap();
    assert_eq!(outcome.command_result.exit_code, 0);
    assert!(outcome.diff.files_created.is_empty() && outcome.diff.files_modified.is_empty());
}

// ---- the lookup decision over the layers' answers ----

use safeshell::simulation::resolver::{resolve_lookup, LayerAnswer};

#[test]
fn the_first_layer_with_an_answer_decides_a_lookup() {
    let found: Vec<LayerAnswer<u8>> = vec![LayerAnswer::Missing, LayerAnswer::Found(2), LayerAnswer::Found(3)];
    assert_eq!(resolve_lookup(found, "a.txt"), Ok(2));
    let top: Vec<LayerAnswer<u8>> = vec![LayerAnswer::Found(1), LayerAnswer::Found(2)];
    assert_eq!(resolve_lookup(top, "a.txt"), Ok(1));
    let hidden: Vec<LayerAnswer<u8>> = vec![LayerAnswer::Missing, LayerAnswer::Hidden, LayerAnswer::Found(3)];
    let e = resolve_lookup(hidden, "a.txt").unwrap_err();
    assert!(e.not_found);
    assert_eq!(e.message, "a.txt: not found in any layer");
    let failed: Vec<LayerAnswer<u8>> = vec![LayerAnswer::Failed(FsError { not_found: false, message: "EIO".into() })];
    assert_eq!(resolve_lookup(failed, "a.txt").unwrap_err().message, "EIO");
    let none: Vec<LayerAnswer<u8>> = vec![LayerAnswer::Missing, LayerAnswer::Missing];
    assert!(resolve_lookup(none, "a.txt").unwrap_err().not_found);
}


#[test]
fn a_new_directory_and_a_modified_file_below_it_are_both_reported() {
    let (transient, base) = (MemLayer::new(), MemLayer::new());
    base.put("old/f.txt", b"before");
    transient.put("old/f.txt", b"after");
    transient.dir("fresh");
    let d = compute(&transient, &Some(stack(&[&base]))).unwrap();
    assert_eq!(d.directories_created, vec!["fresh".to_string()]);
    assert_eq!(d.files_modified, vec!["old/f.txt".to_string()]);
    assert!(d.files_created.is_empty());
}
