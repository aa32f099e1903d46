use std::cell::RefCell;
use std::collections::BTreeMap;

use safeshell::handlers::info::SystemNames;
use safeshell::handlers::text_filters::FilterRunner;
use safeshell::handlers::{cmd_pwd, dispatch, CommandResult, ShellHost};
use safeshell::mock_packages::MockPackage;
use safeshell::parser::{Arg, Redirection, RedirectionKind};
use safeshell::sandbox::worker::{FileKind, StatInfo};
use safeshell::session::TerminalSession;
use safeshell::simulation::resolver::{FsError, LayeredView};

const OWN_UID: u32 = 1000;

#[derive(Clone)]
enum Node {
    Dir,
    File(Vec<u8>),
}

#[derive(Clone)]
struct Entry {
    node: Node,
    mode: u32,
}

/// One in-memory layer standing in for the host's layered view, which also
/// answers as the host.
struct MemFs {
    entries: RefCell<BTreeMap<String, Entry>>,
}

fn child(parent: &str, name: &str) -> String {
    if parent.is_empty() {
        name.to_string()
    } else {
        format!("{parent}/{name}")
    }
}

fn parent_of(path: &str) -> &str {
    match path.rsplit_once('/') {
        Some((p, _)) => p,
        None => "",
    }
}

fn not_found(path: &str) -> FsError {
    FsError { not_found: true, message: format!("{path}: not found in any layer") }
}

fn other(message: &str) -> FsError {
    FsError { not_found: false, message: message.to_string() }
}

impl MemFs {
    fn new() -> Self {
        MemFs { entries: RefCell::new(BTreeMap::new()) }
    }

    fn is_dir(&self, path: &str) -> bool {
        path.is_empty() || matches!(self.entries.borrow().get(path), Some(Entry { node: Node::Dir, .. }))
    }

    fn mode_of(&self, path: &str) -> u32 {
        self.entries.borrow().get(path).map(|e| e.mode).unwrap()
    }
}

impl LayeredView for MemFs {
    fn stat(&self, rel_path: &str) -> Result<StatInfo, FsError> {
        if rel_path.is_empty() {
            return Ok(StatInfo { kind: FileKind::Directory, len: 0 });
        }
        match self.entries.borrow().get(rel_path) {
            Some(Entry { node: Node::Dir, .. }) => Ok(StatInfo { kind: FileKind::Directory, len: 0 }),
            Some(Entry { node: Node::File(b), .. }) => Ok(StatInfo { kind: FileKind::Regular, len: b.len() as u64 }),
            None => Err(not_found(rel_path)),
        }
    }

    fn read_file(&self, rel_path: &str) -> Result<Vec<u8>, FsError> {
        match self.entries.borrow().get(rel_path) {
            Some(Entry { node: Node::File(b), .. }) => Ok(b.clone()),
            Some(_) => Err(other("Is a directory (os error 21)")),
            None if rel_path.is_empty() => Err(other("Is a directory (os error 21)")),
            None => Err(not_found(rel_path)),
        }
    }

    fn read_dir(&self, rel_path: &str) -> Result<Vec<String>, FsError> {
        if !self.is_dir(rel_path) {
            return Err(not_found(rel_path));
        }
        let mut names: Vec<String> = self
            .entries
            .borrow()
            .keys()
            .filter(|k| parent_of(k) == rel_path && !k.is_empty())
            .map(|k| k.rsplit('/').next().unwrap().to_string())
            .collect();
        names.sort();
        Ok(names)
    }

    fn write_file(&self, rel_path: &str, contents: &[u8]) -> Result<(), FsError> {
        if !self.is_dir(parent_of(rel_path)) {
            return Err(not_found(parent_of(rel_path)));
        }
        let mut entries = self.entries.borrow_mut();
        if let Some(Entry { node: Node::Dir, .. }) = entries.get(rel_path) {
            return Err(other("Is a directory (os error 21)"));
        }
        let mode = entries.get(rel_path).map(|e| e.mode).unwrap_or(0o644);
        entries.insert(rel_path.to_string(), Entry { node: Node::File(contents.to_vec()), mode });
        Ok(())
    }

    fn touch(&self, rel_path: &str) -> Result<(), FsError> {
        if self.entries.borrow().contains_key(rel_path) || rel_path.is_empty() {
            return Ok(());
        }
        self.write_file(rel_path, &[])
    }

    fn mkdir(&self, parent_rel: &str, name: &str) -> Result<(), FsError> {
        let path = child(parent_rel, name);
        if self.stat(&path).is_ok() {
            return Err(other(&format!("{path}: already exists")));
        }
        if !self.is_dir(parent_rel) {
            return Err(not_found(parent_rel));
        }
        self.entries.borrow_mut().insert(path, Entry { node: Node::Dir, mode: 0o755 });
        Ok(())
    }

    fn remove(&self, parent_rel: &str, name: &str, recursive: bool) -> Result<(), FsError> {
        let path = child(parent_rel, name);
        let info = self.stat(&path)?;
        if info.kind == FileKind::Directory && !recursive {
            return Err(other(&format!("{path}: is a directory")));
        }
        let prefix = format!("{path}/");
        self.entries.borrow_mut().retain(|k, _| *k != path && !k.starts_with(&prefix));
        Ok(())
    }

    fn chmod(&self, rel_path: &str, mode: u32) -> Result<(), FsError> {
        match self.entries.borrow_mut().get_mut(rel_path) {
            Some(e) => {
                e.mode = mode;
                Ok(())
            }
            None => Err(not_found(rel_path)),
        }
    }

    fn chown(&self, rel_path: &str, uid: Option<u32>, _gid: Option<u32>) -> Result<(), FsError> {
        self.stat(rel_path)?;
        match uid {
            Some(u) if u != OWN_UID => Err(other("Operation not permitted (os error 1)")),
            _ => Ok(()),
        }
    }
}

fn lines_of(input: &[u8]) -> Vec<String> {
    String::from_utf8_lossy(input).lines().map(|l| l.to_string()).collect()
}

fn joined(lines: &[String]) -> String {
    lines.iter().map(|l| format!("{l}\n")).collect()
}

fn count_flag(flags: &[String]) -> usize {
    flags.iter().skip_while(|f| *f != "-n").nth(1).and_then(|n| n.parse().ok()).unwrap_or(10)
}

impl FilterRunner for MemFs {
    fn run_filter(&self, name: &str, flags: &[String], stdin_bytes: &[u8]) -> (String, String, i32) {
        assert!(flags.iter().all(|f| f.starts_with('-') || f.chars().all(|c| c.is_ascii_digit())));
        let lines = lines_of(stdin_bytes);
        let out = match name {
            "wc" => format!("{}\n", stdin_bytes.iter().filter(|&&b| b == b'\n').count()),
            "sort" => {
                let mut l = lines.clone();
                l.sort();
                joined(&l)
            }
            "uniq" => {
                let mut l = lines.clone();
                l.dedup();
                joined(&l)
            }
            "cut" => {
                let delim = flags.iter().find_map(|f| f.strip_prefix("-d")).unwrap_or("\t");
                let field: usize = flags.iter().find_map(|f| f.strip_prefix("-f")).unwrap().parse().unwrap();
                let l: Vec<String> =
                    lines.iter().map(|x| x.split(delim).nth(field - 1).unwrap_or("").to_string()).collect();
                joined(&l)
            }
            "head" => joined(&lines[..count_flag(flags).min(lines.len())]),
            "tail" => joined(&lines[lines.len() - count_flag(flags).min(lines.len())..]),
            "date" => "Thu Jan  1 00:00:00 UTC 2026\n".to_string(),
            _ => return (String::new(), format!("{name}: sidecar binary not found\n"), 127),
        };
        (out, String::new(), 0)
    }
}

impl ShellHost for MemFs {
    fn user(&self) -> (Option<String>, u32) {
        (Some("user".to_string()), OWN_UID)
    }

    fn group(&self) -> (Option<String>, u32) {
        (Some("user".to_string()), OWN_UID)
    }

    fn system_names(&self) -> Result<SystemNames, String> {
        Ok(SystemNames {
            sysname: "Linux".to_string(),
            nodename: "sandbox".to_string(),
            release: "6.1.0".to_string(),
            machine: "x86_64".to_string(),
        })
    }

    fn sleep_for(&self, interval: &str) -> CommandResult {
        let invalid = || CommandResult::error(&format!("sleep: invalid time interval '{interval}'\n"), 1);
        let Ok(secs) = interval.parse::<f64>() else {
            return invalid();
        };
        if secs.is_sign_negative() || !secs.is_finite() {
            return invalid();
        }
        let start = std::time::Instant::now();
        while start.elapsed().as_secs_f64() < secs {}
        CommandResult::ok("")
    }
}

fn args(words: &[&str]) -> Vec<Arg> {
    words.iter().map(|w| Arg(w.to_string())).collect()
}

fn run(name: &str, a: &[&str], session: &mut TerminalSession, fs: &MemFs) -> CommandResult {
    dispatch(name, &args(a), &[], session, fs, fs)
}

fn write_to(session: &mut TerminalSession, fs: &MemFs, path: &str, content: &str) {
    let r = dispatch(
        "echo",
        &[Arg(content.to_string())],
        &[Redirection { kind: RedirectionKind::Truncate, target: path.to_string() }],
        session,
        fs,
        fs,
    );
    assert_eq!(r.exit_code, 0, "stderr: {}", r.stderr);
}

fn ok(stdout: &str) -> CommandResult {
    CommandResult::ok(stdout)
}

// ---- mkdir, cd, touch, cat, rm ----

#[test]
fn pwd_reports_root_initially() {
    let session = TerminalSession::new();
    assert_eq!(cmd_pwd(&session), ok("/\n"));
}

#[test]
fn mkdir_then_ls_then_cd_then_pwd() {
    let fs = MemFs::new();
    let mut session = TerminalSession::new();
    let r = run("mkdir", &["project"], &mut session, &fs);
    assert_eq!(r.exit_code, 0, "stderr: {}", r.stderr);
    assert_eq!(run("ls", &[], &mut session, &fs), ok("project\n"));
    let r = run("cd", &["project"], &mut session, &fs);
    assert_eq!(r.exit_code, 0, "stderr: {}", r.stderr);
    assert_eq!(cmd_pwd(&session), ok("/project\n"));
}

#[test]
fn cd_into_nonexistent_directory_fails_and_does_not_move_cwd() {
    let fs = MemFs::new();
    let mut session = TerminalSession::new();
    let r = run("cd", &["nowhere"], &mut session, &fs);
    assert_eq!(r.exit_code, 1);
    assert!(session.cwd().is_root());
}

#[test]
fn cd_dotdot_from_root_stays_at_root() {
    let fs = MemFs::new();
    let mut session = TerminalSession::new();
    let r = run("cd", &[".."], &mut session, &fs);
    assert_eq!(r.exit_code, 0, "stderr: {}", r.stderr);
    assert!(session.cwd().is_root());
}

#[test]
fn touch_creates_empty_file_then_cat_reads_it() {
    let fs = MemFs::new();
    let mut session = TerminalSession::new();
    let r = run("touch", &["a.txt"], &mut session, &fs);
    assert_eq!(r.exit_code, 0, "stderr: {}", r.stderr);
    assert_eq!(run("cat", &["a.txt"], &mut session, &fs), ok(""));
}

#[test]
fn cat_missing_file_reports_error_and_nonzero_exit() {
    let fs = MemFs::new();
    let mut session = TerminalSession::new();
    let r = run("cat", &["missing.txt"], &mut session, &fs);
    assert_eq!(r.exit_code, 1);
    assert!(r.stderr.contains("missing.txt"));
}

#[test]
fn unknown_command_returns_exit_127() {
    let fs = MemFs::new();
    let mut session = TerminalSession::new();
    assert_eq!(run("frobnicate", &[], &mut session, &fs).exit_code, 127);
}

#[test]
fn mkdir_missing_operand_is_an_error() {
    let fs = MemFs::new();
    let mut session = TerminalSession::new();
    assert_eq!(run("mkdir", &[], &mut session, &fs).exit_code, 1);
}

#[test]
fn mkdir_root_is_rejected_cleanly() {
    let fs = MemFs::new();
    let mut session = TerminalSession::new();
    assert_eq!(run("mkdir", &["/"], &mut session, &fs).exit_code, 1);
}

#[test]
fn rm_removes_a_file_created_earlier_in_the_same_layer() {
    let fs = MemFs::new();
    let mut session = TerminalSession::new();
    let r = run("touch", &["a.txt"], &mut session, &fs);
    assert_eq!(r.exit_code, 0, "stderr: {}", r.stderr);
    let r = run("rm", &["a.txt"], &mut session, &fs);
    assert_eq!(r.exit_code, 0, "stderr: {}", r.stderr);
    assert_eq!(run("cat", &["a.txt"], &mut session, &fs).exit_code, 1);
}

#[test]
fn rm_without_recursive_flag_refuses_a_directory() {
    let fs = MemFs::new();
    let mut session = TerminalSession::new();
    let r = run("mkdir", &["project"], &mut session, &fs);
    assert_eq!(r.exit_code, 0, "stderr: {}", r.stderr);
    let r = run("rm", &["project"], &mut session, &fs);
    assert_eq!(r.exit_code, 1);
    assert!(r.stderr.contains("project"));
}

#[test]
fn rm_recursive_removes_a_directory_and_its_contents() {
    let fs = MemFs::new();
    let mut session = TerminalSession::new();
    run("mkdir", &["project"], &mut session, &fs);
    run("touch", &["project/file.txt"], &mut session, &fs);
    let r = run("rm", &["-r", "project"], &mut session, &fs);
    assert_eq!(r.exit_code, 0, "stderr: {}", r.stderr);
    assert_eq!(run("ls", &[], &mut session, &fs), ok(""));
}

#[test]
fn rm_dash_rf_combined_flag_is_recognized() {
    let fs = MemFs::new();
    let mut session = TerminalSession::new();
    run("mkdir", &["project"], &mut session, &fs);
    let r = run("rm", &["-rf", "project"], &mut session, &fs);
    assert_eq!(r.exit_code, 0, "stderr: {}", r.stderr);
}

#[test]
fn rm_missing_target_is_an_error() {
    let fs = MemFs::new();
    let mut session = TerminalSession::new();
    let r = run("rm", &["missing.txt"], &mut session, &fs);
    assert_eq!(r.exit_code, 1);
    assert!(r.stderr.contains("missing.txt"));
}

#[test]
fn rm_force_on_a_missing_target_is_silent_and_succeeds() {
    let fs = MemFs::new();
    let mut session = TerminalSession::new();
    let r = run("rm", &["-f", "missing.txt"], &mut session, &fs);
    assert_eq!(r.exit_code, 0, "stderr: {}", r.stderr);
    assert!(r.stderr.is_empty());
}

#[test]
fn rm_missing_operand_without_force_is_an_error() {
    let fs = MemFs::new();
    let mut session = TerminalSession::new();
    assert_eq!(run("rm", &[], &mut session, &fs).exit_code, 1);
}

#[test]
fn rm_then_recreating_the_same_name_succeeds_and_is_visible() {
    let fs = MemFs::new();
    let mut session = TerminalSession::new();
    run("touch", &["a.txt"], &mut session, &fs);
    run("rm", &["a.txt"], &mut session, &fs);
    let r = run("touch", &["a.txt"], &mut session, &fs);
    assert_eq!(r.exit_code, 0, "stderr: {}", r.stderr);
    assert_eq!(run("cat", &["a.txt"], &mut session, &fs), ok(""));
}

#[test]
fn rm_star_glob_removes_every_matching_file_in_the_directory() {
    let fs = MemFs::new();
    let mut session = TerminalSession::new();
    run("mkdir", &["d"], &mut session, &fs);
    run("touch", &["d/a.txt"], &mut session, &fs);
    run("touch", &["d/b.txt"], &mut session, &fs);
    run("touch", &["d/keep.log"], &mut session, &fs);
    let r = run("rm", &["d/*.txt"], &mut session, &fs);
    assert_eq!(r.exit_code, 0, "stderr: {}", r.stderr);
    assert_eq!(run("ls", &["d"], &mut session, &fs), ok("keep.log\n"));
}

#[test]
fn rm_rf_star_removes_every_entry_including_directories() {
    let fs = MemFs::new();
    let mut session = TerminalSession::new();
    run("mkdir", &["d"], &mut session, &fs);
    run("mkdir", &["d/sub"], &mut session, &fs);
    run("touch", &["d/sub/f.txt"], &mut session, &fs);
    run("touch", &["d/a.txt"], &mut session, &fs);
    let r = run("rm", &["-rf", "d/*"], &mut session, &fs);
    assert_eq!(r.exit_code, 0, "stderr: {}", r.stderr);
    assert_eq!(run("ls", &["d"], &mut session, &fs), ok(""));
}

#[test]
fn rm_star_with_no_matches_and_force_is_a_silent_no_op() {
    let fs = MemFs::new();
    let mut session = TerminalSession::new();
    run("mkdir", &["d"], &mut session, &fs);
    let r = run("rm", &["-f", "d/*"], &mut session, &fs);
    assert_eq!(r.exit_code, 0, "stderr: {}", r.stderr);
    assert!(r.stderr.is_empty());
}

// ---- rmdir, cp, mv, chmod, chown, find, du, df, truncate, shred ----

#[test]
fn rmdir_removes_an_empty_directory() {
    let fs = MemFs::new();
    let mut session = TerminalSession::new();
    run("mkdir", &["d"], &mut session, &fs);
    let r = run("rmdir", &["d"], &mut session, &fs);
    assert_eq!(r.exit_code, 0, "stderr: {}", r.stderr);
    assert_eq!(run("ls", &[], &mut session, &fs), ok(""));
}

#[test]
fn rmdir_refuses_a_non_empty_directory() {
    let fs = MemFs::new();
    let mut session = TerminalSession::new();
    run("mkdir", &["d"], &mut session, &fs);
    run("touch", &["d/f.txt"], &mut session, &fs);
    let r = run("rmdir", &["d"], &mut session, &fs);
    assert_eq!(r.exit_code, 1);
    assert!(r.stderr.contains("not empty"));
}

#[test]
fn cp_copies_a_file_with_content() {
    let fs = MemFs::new();
    let mut session = TerminalSession::new();
    run("mkdir", &["d"], &mut session, &fs);
    write_to(&mut session, &fs, "d/a.txt", "hello");
    let r = run("cp", &["d/a.txt", "d/b.txt"], &mut session, &fs);
    assert_eq!(r.exit_code, 0, "stderr: {}", r.stderr);
    assert_eq!(run("cat", &["d/b.txt"], &mut session, &fs), ok("hello\n"));
    assert_eq!(run("cat", &["d/a.txt"], &mut session, &fs), ok("hello\n"));
}

#[test]
fn cp_recursive_copies_a_directory_tree() {
    let fs = MemFs::new();
    let mut session = TerminalSession::new();
    run("mkdir", &["src"], &mut session, &fs);
    run("mkdir", &["src/sub"], &mut session, &fs);
    run("touch", &["src/sub/f.txt"], &mut session, &fs);
    let r = run("cp", &["-r", "src", "dest"], &mut session, &fs);
    assert_eq!(r.exit_code, 0, "stderr: {}", r.stderr);
    assert_eq!(run("ls", &["dest/sub"], &mut session, &fs), ok("f.txt\n"));
}

#[test]
fn cp_without_recursive_refuses_a_directory() {
    let fs = MemFs::new();
    let mut session = TerminalSession::new();
    run("mkdir", &["src"], &mut session, &fs);
    assert_eq!(run("cp", &["src", "dest"], &mut session, &fs).exit_code, 1);
}

#[test]
fn mv_moves_a_file_and_removes_the_source() {
    let fs = MemFs::new();
    let mut session = TerminalSession::new();
    run("touch", &["a.txt"], &mut session, &fs);
    let r = run("mv", &["a.txt", "b.txt"], &mut session, &fs);
    assert_eq!(r.exit_code, 0, "stderr: {}", r.stderr);
    assert_eq!(run("cat", &["a.txt"], &mut session, &fs).exit_code, 1);
    assert_eq!(run("cat", &["b.txt"], &mut session, &fs), ok(""));
}

#[test]
fn mv_moves_a_directory_tree() {
    let fs = MemFs::new();
    let mut session = TerminalSession::new();
    run("mkdir", &["src"], &mut session, &fs);
    run("touch", &["src/f.txt"], &mut session, &fs);
    let r = run("mv", &["src", "dest"], &mut session, &fs);
    assert_eq!(r.exit_code, 0, "stderr: {}", r.stderr);
    assert_eq!(run("ls", &["dest"], &mut session, &fs), ok("f.txt\n"));
    assert_eq!(run("ls", &["src"], &mut session, &fs).exit_code, 1);
}

#[test]
fn chmod_changes_the_real_mode_bits() {
    let fs = MemFs::new();
    let mut session = TerminalSession::new();
    run("touch", &["a.txt"], &mut session, &fs);
    let r = run("chmod", &["600", "a.txt"], &mut session, &fs);
    assert_eq!(r.exit_code, 0, "stderr: {}", r.stderr);
    assert_eq!(fs.mode_of("a.txt") & 0o777, 0o600);
}

#[test]
fn chmod_recursive_applies_to_directory_contents() {
    let fs = MemFs::new();
    let mut session = TerminalSession::new();
    run("mkdir", &["d"], &mut session, &fs);
    run("touch", &["d/f.txt"], &mut session, &fs);
    let r = run("chmod", &["-R", "700", "d"], &mut session, &fs);
    assert_eq!(r.exit_code, 0, "stderr: {}", r.stderr);
    assert_eq!(fs.mode_of("d/f.txt") & 0o777, 0o700);
}

#[test]
fn chmod_rejects_a_non_octal_mode() {
    let fs = MemFs::new();
    let mut session = TerminalSession::new();
    run("touch", &["a.txt"], &mut session, &fs);
    assert_eq!(run("chmod", &["u+x", "a.txt"], &mut session, &fs).exit_code, 1);
}

#[test]
fn chown_to_the_current_uid_succeeds() {
    let fs = MemFs::new();
    let mut session = TerminalSession::new();
    run("touch", &["a.txt"], &mut session, &fs);
    let uid = OWN_UID.to_string();
    let r = run("chown", &[&uid, "a.txt"], &mut session, &fs);
    assert_eq!(r.exit_code, 0, "stderr: {}", r.stderr);
}

#[test]
fn chown_to_a_different_uid_fails_rootless_with_eperm() {
    let fs = MemFs::new();
    let mut session = TerminalSession::new();
    run("touch", &["a.txt"], &mut session, &fs);
    let other_uid = (OWN_UID + 1).to_string();
    let r = run("chown", &[&other_uid, "a.txt"], &mut session, &fs);
    assert_eq!(r.exit_code, 1);
}

#[test]
fn find_matches_by_name_pattern_recursively() {
    let fs = MemFs::new();
    let mut session = TerminalSession::new();
    run("mkdir", &["d"], &mut session, &fs);
    run("mkdir", &["d/sub"], &mut session, &fs);
    run("touch", &["d/a.txt"], &mut session, &fs);
    run("touch", &["d/sub/b.txt"], &mut session, &fs);
    run("touch", &["d/keep.log"], &mut session, &fs);
    let r = run("find", &["d", "-name", "*.txt"], &mut session, &fs);
    assert_eq!(r.exit_code, 0, "stderr: {}", r.stderr);
    assert!(r.stdout.contains("d/a.txt"));
    assert!(r.stdout.contains("d/sub/b.txt"));
    assert!(!r.stdout.contains("keep.log"));
}

#[test]
fn du_reports_the_recursive_byte_total() {
    let fs = MemFs::new();
    let mut session = TerminalSession::new();
    run("mkdir", &["d"], &mut session, &fs);
    write_to(&mut session, &fs, "d/a.txt", "hello");
    let r = run("du", &["d"], &mut session, &fs);
    assert_eq!(r.exit_code, 0, "stderr: {}", r.stderr);
    assert!(r.stdout.contains('6'));
}

#[test]
fn df_reports_a_synthetic_entry_without_fabricating_capacity() {
    let fs = MemFs::new();
    let mut session = TerminalSession::new();
    let r = run("df", &[], &mut session, &fs);
    assert_eq!(r.exit_code, 0, "stderr: {}", r.stderr);
    assert!(r.stdout.contains("safeshell-sim"));
}

#[test]
fn truncate_shrinks_a_file_to_the_requested_size() {
    let fs = MemFs::new();
    let mut session = TerminalSession::new();
    write_to(&mut session, &fs, "a.txt", "hello world");
    let r = run("truncate", &["-s", "5", "a.txt"], &mut session, &fs);
    assert_eq!(r.exit_code, 0, "stderr: {}", r.stderr);
    assert_eq!(run("cat", &["a.txt"], &mut session, &fs), ok("hello"));
}

#[test]
fn truncate_grows_a_file_with_zero_bytes() {
    let fs = MemFs::new();
    let mut session = TerminalSession::new();
    run("touch", &["a.txt"], &mut session, &fs);
    let r = run("truncate", &["-s", "4", "a.txt"], &mut session, &fs);
    assert_eq!(r.exit_code, 0, "stderr: {}", r.stderr);
    assert_eq!(fs.stat("a.txt").unwrap().len, 4);
}

#[test]
fn truncate_without_a_size_is_an_error() {
    let fs = MemFs::new();
    let mut session = TerminalSession::new();
    run("touch", &["a.txt"], &mut session, &fs);
    assert_eq!(run("truncate", &["a.txt"], &mut session, &fs).exit_code, 1);
}

#[test]
fn shred_overwrites_content_but_leaves_the_file_present_by_default() {
    let fs = MemFs::new();
    let mut session = TerminalSession::new();
    write_to(&mut session, &fs, "a.txt", "secret data");
    let r = run("shred", &["a.txt"], &mut session, &fs);
    assert_eq!(r.exit_code, 0, "stderr: {}", r.stderr);
    let contents = fs.read_file("a.txt").unwrap();
    assert!(contents.iter().all(|&b| b == 0));
    assert!(!contents.is_empty());
}

#[test]
fn shred_dash_u_removes_the_file_after_overwriting() {
    let fs = MemFs::new();
    let mut session = TerminalSession::new();
    run("touch", &["a.txt"], &mut session, &fs);
    let r = run("shred", &["-u", "a.txt"], &mut session, &fs);
    assert_eq!(r.exit_code, 0, "stderr: {}", r.stderr);
    assert_eq!(run("cat", &["a.txt"], &mut session, &fs).exit_code, 1);
}

#[test]
fn shred_missing_target_is_an_error() {
    let fs = MemFs::new();
    let mut session = TerminalSession::new();
    assert_eq!(run("shred", &["missing.txt"], &mut session, &fs).exit_code, 1);
}

// ---- env, printenv, whoami, id, uname, sleep ----

#[test]
fn env_lists_the_session_environment_sorted() {
    let fs = MemFs::new();
    let mut session = TerminalSession::new();
    let r = run("env", &[], &mut session, &fs);
    assert_eq!(r.exit_code, 0, "stderr: {}", r.stderr);
    assert!(r.stdout.contains("HOME="));
}

#[test]
fn printenv_with_a_name_prints_just_that_value() {
    let fs = MemFs::new();
    let mut session = TerminalSession::new();
    let home = session.get_env("HOME").unwrap_or_default();
    let r = run("printenv", &["HOME"], &mut session, &fs);
    assert_eq!(r, ok(&format!("{home}\n")));
}

#[test]
fn printenv_with_an_unset_name_fails() {
    let fs = MemFs::new();
    let mut session = TerminalSession::new();
    assert_eq!(run("printenv", &["SAFESHELL_DEFINITELY_UNSET_VAR"], &mut session, &fs).exit_code, 1);
}

#[test]
fn whoami_reports_a_nonempty_name() {
    let fs = MemFs::new();
    let mut session = TerminalSession::new();
    let r = run("whoami", &[], &mut session, &fs);
    assert_eq!(r.exit_code, 0, "stderr: {}", r.stderr);
    assert!(!r.stdout.trim().is_empty());
}

#[test]
fn id_reports_uid_and_gid() {
    let fs = MemFs::new();
    let mut session = TerminalSession::new();
    let r = run("id", &[], &mut session, &fs);
    assert_eq!(r.exit_code, 0, "stderr: {}", r.stderr);
    assert!(r.stdout.starts_with("uid="));
}

#[test]
fn uname_reports_a_kernel_name() {
    let fs = MemFs::new();
    let mut session = TerminalSession::new();
    let r = run("uname", &[], &mut session, &fs);
    assert_eq!(r.exit_code, 0, "stderr: {}", r.stderr);
    assert_eq!(r.stdout.trim(), "Linux");
}

#[test]
fn sleep_actually_waits_approximately_the_requested_duration() {
    let fs = MemFs::new();
    let mut session = TerminalSession::new();
    let start = std::time::Instant::now();
    let r = run("sleep", &["0.05"], &mut session, &fs);
    assert_eq!(r.exit_code, 0);
    assert!(start.elapsed() >= std::time::Duration::from_millis(40));
}

#[test]
fn sleep_rejects_a_negative_interval() {
    let fs = MemFs::new();
    let mut session = TerminalSession::new();
    assert_eq!(run("sleep", &["-1"], &mut session, &fs).exit_code, 1);
}

#[test]
fn sleep_without_an_operand_is_refused() {
    let fs = MemFs::new();
    let mut session = TerminalSession::new();
    let r = run("sleep", &[], &mut session, &fs);
    assert_eq!(r.exit_code, 1);
    assert_eq!(r.stderr, "sleep: missing operand\n");
    assert_eq!(r.stdout, "");
}

#[test]
fn sleep_rejects_a_word_that_is_no_interval() {
    let fs = MemFs::new();
    let mut session = TerminalSession::new();
    let r = run("sleep", &["soon"], &mut session, &fs);
    assert_eq!(r.exit_code, 1);
    assert_eq!(r.stderr, "sleep: invalid time interval 'soon'\n");
}

// ---- safeshell-pkg ----

fn pkg(name: &str, essential: bool) -> MockPackage {
    MockPackage { name: name.to_string(), version: "1.0".to_string(), essential }
}

fn session_with(packages: Vec<MockPackage>) -> TerminalSession {
    let mut s = TerminalSession::new();
    s.packages = packages;
    s
}

fn pkg_args(words: &[&str]) -> Vec<Arg> {
    args(words)
}

#[test]
fn list_reports_seeded_packages() {
    let fs = MemFs::new();
    let mut session = session_with(vec![pkg("curl", false), pkg("safeshell-toolchain", true)]);
    let r = dispatch("safeshell-pkg", &pkg_args(&["list"]), &[], &mut session, &fs, &fs);
    assert_eq!(r.exit_code, 0, "stderr: {}", r.stderr);
    assert!(r.stdout.contains("curl"));
    assert!(r.stdout.contains("safeshell-toolchain"));
    assert!(r.stdout.contains("[essential]"));
}

#[test]
fn remove_deletes_a_non_essential_package() {
    let fs = MemFs::new();
    let mut session = session_with(vec![pkg("curl", false)]);
    let r = dispatch("safeshell-pkg", &pkg_args(&["remove", "curl"]), &[], &mut session, &fs, &fs);
    assert_eq!(r.exit_code, 0, "stderr: {}", r.stderr);
    assert!(session.packages.is_empty());
}

#[test]
fn remove_still_succeeds_for_an_essential_package_and_says_so() {
    let fs = MemFs::new();
    let mut session = session_with(vec![pkg("safeshell-toolchain", true)]);
    let r = dispatch("safeshell-pkg", &pkg_args(&["remove", "safeshell-toolchain"]), &[], &mut session, &fs, &fs);
    assert_eq!(r.exit_code, 0, "stderr: {}", r.stderr);
    assert!(session.packages.is_empty());
    assert!(r.stdout.contains("essential"));
}

#[test]
fn remove_of_an_unknown_package_is_an_error() {
    let fs = MemFs::new();
    let mut session = session_with(vec![]);
    let r = dispatch("safeshell-pkg", &pkg_args(&["remove", "nope"]), &[], &mut session, &fs, &fs);
    assert_eq!(r.exit_code, 1);
}

#[test]
fn install_adds_a_new_package() {
    let fs = MemFs::new();
    let mut session = session_with(vec![]);
    let r = dispatch("safeshell-pkg", &pkg_args(&["install", "jq", "1.7"]), &[], &mut session, &fs, &fs);
    assert_eq!(r.exit_code, 0, "stderr: {}", r.stderr);
    assert_eq!(session.packages.len(), 1);
    assert_eq!(session.packages[0].name, "jq");
    assert_eq!(session.packages[0].version, "1.7");
    assert!(!session.packages[0].essential);
}

#[test]
fn install_of_an_already_installed_package_is_an_error() {
    let fs = MemFs::new();
    let mut session = session_with(vec![pkg("curl", false)]);
    let r = dispatch("safeshell-pkg", &pkg_args(&["install", "curl"]), &[], &mut session, &fs, &fs);
    assert_eq!(r.exit_code, 1);
}

// ---- text filters ----

#[test]
fn wc_counts_lines_words_bytes_of_a_real_file() {
    let fs = MemFs::new();
    let mut session = TerminalSession::new();
    write_to(&mut session, &fs, "a.txt", "one two\nthree\n");
    let r = run("wc", &["-l", "a.txt"], &mut session, &fs);
    assert_eq!(r.exit_code, 0, "stderr: {}", r.stderr);
    assert_eq!(r.stdout.trim(), "3");
}

#[test]
fn sort_orders_lines_via_the_real_uutils_binary() {
    let fs = MemFs::new();
    let mut session = TerminalSession::new();
    write_to(&mut session, &fs, "a.txt", "banana\napple\ncherry");
    let r = run("sort", &["a.txt"], &mut session, &fs);
    assert_eq!(r.exit_code, 0, "stderr: {}", r.stderr);
    assert_eq!(r.stdout, "apple\nbanana\ncherry\n");
}

#[test]
fn uniq_collapses_adjacent_duplicate_lines() {
    let fs = MemFs::new();
    let mut session = TerminalSession::new();
    write_to(&mut session, &fs, "a.txt", "a\na\nb\na");
    let r = run("uniq", &["a.txt"], &mut session, &fs);
    assert_eq!(r.exit_code, 0, "stderr: {}", r.stderr);
    assert_eq!(r.stdout, "a\nb\na\n");
}

#[test]
fn cut_extracts_the_requested_field() {
    let fs = MemFs::new();
    let mut session = TerminalSession::new();
    write_to(&mut session, &fs, "a.txt", "a,b,c\nd,e,f");
    let r = run("cut", &["-d,", "-f2", "a.txt"], &mut session, &fs);
    assert_eq!(r.exit_code, 0, "stderr: {}", r.stderr);
    assert_eq!(r.stdout, "b\ne\n");
}

#[test]
fn head_limits_output_to_the_requested_line_count() {
    let fs = MemFs::new();
    let mut session = TerminalSession::new();
    write_to(&mut session, &fs, "a.txt", "1\n2\n3\n4\n5");
    let r = run("head", &["-n", "2", "a.txt"], &mut session, &fs);
    assert_eq!(r.exit_code, 0, "stderr: {}", r.stderr);
    assert_eq!(r.stdout, "1\n2\n");
}

#[test]
fn tail_reports_the_last_lines() {
    let fs = MemFs::new();
    let mut session = TerminalSession::new();
    write_to(&mut session, &fs, "a.txt", "1\n2\n3\n4\n5");
    let r = run("tail", &["-n", "2", "a.txt"], &mut session, &fs);
    assert_eq!(r.exit_code, 0, "stderr: {}", r.stderr);
    assert_eq!(r.stdout, "4\n5\n");
}

#[test]
fn tail_follow_is_refused_up_front() {
    let fs = MemFs::new();
    let mut session = TerminalSession::new();
    write_to(&mut session, &fs, "a.txt", "1\n2");
    let r = run("tail", &["-f", "a.txt"], &mut session, &fs);
    assert_eq!(r.exit_code, 1);
    assert!(r.stderr.contains("follow"));
}

#[test]
fn date_prints_a_nonempty_line() {
    let fs = MemFs::new();
    let mut session = TerminalSession::new();
    let r = run("date", &[], &mut session, &fs);
    assert_eq!(r.exit_code, 0, "stderr: {}", r.stderr);
    assert!(!r.stdout.trim().is_empty());
}

#[test]
fn date_set_is_refused_up_front() {
    let fs = MemFs::new();
    let mut session = TerminalSession::new();
    assert_eq!(run("date", &["-s", "2020-01-01"], &mut session, &fs).exit_code, 1);
}

#[test]
fn grep_finds_matching_lines() {
    let fs = MemFs::new();
    let mut session = TerminalSession::new();
    write_to(&mut session, &fs, "a.txt", "apple\nbanana\navocado");
    let r = run("grep", &["^a", "a.txt"], &mut session, &fs);
    assert_eq!(r.exit_code, 0, "stderr: {}", r.stderr);
    assert_eq!(r.stdout, "apple\navocado\n");
}

#[test]
fn grep_case_insensitive_flag_matches_regardless_of_case() {
    let fs = MemFs::new();
    let mut session = TerminalSession::new();
    write_to(&mut session, &fs, "a.txt", "Apple\nbanana");
    let r = run("grep", &["-i", "apple", "a.txt"], &mut session, &fs);
    assert_eq!(r.exit_code, 0, "stderr: {}", r.stderr);
    assert_eq!(r.stdout, "Apple\n");
}

#[test]
fn grep_with_no_matches_exits_nonzero() {
    let fs = MemFs::new();
    let mut session = TerminalSession::new();
    write_to(&mut session, &fs, "a.txt", "banana");
    let r = run("grep", &["zzz", "a.txt"], &mut session, &fs);
    assert_eq!(r.exit_code, 1);
    assert_eq!(r.stdout, "");
}

#[test]
fn grep_invert_flag_prints_non_matching_lines() {
    let fs = MemFs::new();
    let mut session = TerminalSession::new();
    write_to(&mut session, &fs, "a.txt", "apple\nbanana\navocado");
    let r = run("grep", &["-v", "^a", "a.txt"], &mut session, &fs);
    assert_eq!(r.exit_code, 0, "stderr: {}", r.stderr);
    assert_eq!(r.stdout, "banana\n");
}

// ---- redirections and the exactness of a few failures ----

#[test]
fn append_redirection_keeps_the_existing_bytes() {
    let fs = MemFs::new();
    let mut session = TerminalSession::new();
    write_to(&mut session, &fs, "log.txt", "one");
    let r = dispatch(
        "echo",
        &args(&["two"]),
        &[Redirection { kind: RedirectionKind::Append, target: "log.txt".to_string() }],
        &mut session,
        &fs,
        &fs,
    );
    assert_eq!(r, ok(""));
    assert_eq!(run("cat", &["log.txt"], &mut session, &fs), ok("one\ntwo\n"));
}

#[test]
fn redirection_into_a_missing_directory_reports_the_write_error() {
    let fs = MemFs::new();
    let mut session = TerminalSession::new();
    let r = dispatch(
        "echo",
        &args(&["x"]),
        &[Redirection { kind: RedirectionKind::Truncate, target: "nodir/a.txt".to_string() }],
        &mut session,
        &fs,
        &fs,
    );
    assert_eq!(r.stdout, "");
    assert_eq!(r.exit_code, 1);
    assert_eq!(r.stderr, "nodir/a.txt: nodir: not found in any layer\n");
}

#[test]
fn failure_messages_name_the_operand_and_the_error() {
    let fs = MemFs::new();
    let mut session = TerminalSession::new();
    run("mkdir", &["d"], &mut session, &fs);
    assert_eq!(
        run("mkdir", &["d"], &mut session, &fs).stderr,
        "mkdir: cannot create directory 'd': d: already exists\n"
    );
    assert_eq!(run("cat", &["nope"], &mut session, &fs).stderr, "cat: nope: nope: not found in any layer\n");
    assert_eq!(
        run("cd", &["nope"], &mut session, &fs).stderr,
        "cd: nope: nope: not found in any layer\n"
    );
    assert_eq!(
        run("ls", &["nope"], &mut session, &fs).stderr,
        "ls: cannot access '/nope': nope: not found in any layer\n"
    );
    assert_eq!(run("cp", &["only"], &mut session, &fs).stderr, "cp: missing file operand\n");
    run("touch", &["a"], &mut session, &fs);
    run("touch", &["b"], &mut session, &fs);
    assert_eq!(
        run("mv", &["a", "b", "c"], &mut session, &fs).stderr,
        "mv: target 'c' is not a directory\n"
    );
    assert_eq!(run("wc", &["nope"], &mut session, &fs).stderr, "wc: nope: nope: not found in any layer\n");
    assert_eq!(run("grep", &["x", "nope"], &mut session, &fs).exit_code, 2);
}

// ---- each operand's own line, in order ----

#[test]
fn mkdir_reports_each_refused_operand_in_order() {
    let fs = MemFs::new();
    let mut session = TerminalSession::new();
    assert_eq!(run("mkdir", &["d"], &mut session, &fs).exit_code, 0);
    let r = run("mkdir", &["e", "/", "x\0y"], &mut session, &fs);
    assert_eq!(r.exit_code, 1);
    assert_eq!(r.stdout, "");
    let lines: Vec<&str> = r.stderr.lines().collect();
    assert_eq!(lines.len(), 2, "{}", r.stderr);
    assert_eq!(lines[0], "mkdir: cannot create the sandbox root");
    assert!(lines[1].starts_with("mkdir: x\0y: path contains a NUL byte"), "{}", r.stderr);
}

#[test]
fn touch_reports_an_unresolvable_operand_and_touches_the_rest() {
    let fs = MemFs::new();
    let mut session = TerminalSession::new();
    let r = run("touch", &["x\0y", "f"], &mut session, &fs);
    assert_eq!(r.exit_code, 1);
    assert!(r.stderr.starts_with("touch: x\0y: path contains a NUL byte"));
    assert_eq!(r.stderr.lines().count(), 1);
    assert_eq!(run("cat", &["f"], &mut session, &fs).exit_code, 0);
}

#[test]
fn cat_prints_what_it_can_read_and_reports_the_rest() {
    let fs = MemFs::new();
    let mut session = TerminalSession::new();
    write_to(&mut session, &fs, "f", "hi");
    let r = run("cat", &["f", "missing", "f"], &mut session, &fs);
    assert_eq!(r.exit_code, 1);
    assert_eq!(r.stdout, "hi\nhi\n");
    assert!(r.stderr.starts_with("cat: missing: "));
    assert_eq!(r.stderr.lines().count(), 1);
}

#[test]
fn rmdir_reports_the_root_and_a_file_in_order() {
    let fs = MemFs::new();
    let mut session = TerminalSession::new();
    write_to(&mut session, &fs, "x", "data");
    let r = run("rmdir", &["/", "x"], &mut session, &fs);
    assert_eq!(r.exit_code, 1);
    assert_eq!(r.stderr, "rmdir: cannot remove the sandbox root\nrmdir: failed to remove 'x': Not a directory\n");
}

#[test]
fn cp_of_several_sources_onto_a_file_is_refused_as_a_whole() {
    let fs = MemFs::new();
    let mut session = TerminalSession::new();
    write_to(&mut session, &fs, "a", "1");
    write_to(&mut session, &fs, "b", "2");
    write_to(&mut session, &fs, "c", "3");
    let r = run("cp", &["a", "b", "c"], &mut session, &fs);
    assert_eq!(r.exit_code, 1);
    assert!(r.stderr.starts_with("cp: target '"));
    assert!(r.stderr.ends_with("' is not a directory\n"));
}

#[test]
fn du_prints_a_line_per_measured_target_and_reports_the_rest() {
    let fs = MemFs::new();
    let mut session = TerminalSession::new();
    write_to(&mut session, &fs, "f", "hi");
    let r = run("du", &["missing", "f"], &mut session, &fs);
    assert_eq!(r.exit_code, 1);
    assert_eq!(r.stdout, "3\tf\n");
    assert!(r.stderr.starts_with("du: cannot access 'missing': "));
}

#[test]
fn chmod_truncate_and_shred_report_an_unresolvable_operand() {
    let fs = MemFs::new();
    let mut session = TerminalSession::new();
    write_to(&mut session, &fs, "f", "hi");
    let r = run("chmod", &["755", "x\0y", "f"], &mut session, &fs);
    assert_eq!(r.exit_code, 1);
    assert!(r.stderr.starts_with("chmod: x\0y: path contains a NUL byte"), "{}", r.stderr);
    let r = run("truncate", &["-s", "1", "x\0y"], &mut session, &fs);
    assert_eq!(r.exit_code, 1);
    assert!(r.stderr.starts_with("truncate: x\0y: path contains a NUL byte"), "{}", r.stderr);
    let r = run("shred", &["x\0y"], &mut session, &fs);
    assert_eq!(r.exit_code, 1);
    assert!(r.stderr.starts_with("shred: x\0y: path contains a NUL byte"), "{}", r.stderr);
}

#[test]
fn find_and_ls_report_a_start_they_cannot_read() {
    let fs = MemFs::new();
    let mut session = TerminalSession::new();
    let r = run("find", &["missing"], &mut session, &fs);
    assert_eq!(r.exit_code, 1);
    assert!(r.stderr.starts_with("find: 'missing': "));
    let r = run("ls", &["missing"], &mut session, &fs);
    assert_eq!(r.exit_code, 1);
    assert!(r.stderr.starts_with("ls: cannot access '/missing': "));
}
