use safeshell::handlers::fs_ext::short_flags;
use safeshell::text::decimal_text;
use safeshell::handlers::text_filters::{
    date_request, tail_request, filter_request, grep_request, grep_text, split_flags_and_single_file,
};
use safeshell::handlers::{cmd_echo, glob_match, CommandResult};
use safeshell::parser::Arg;

fn args(words: &[&str]) -> Vec<Arg> {
    words.iter().map(|w| Arg(w.to_string())).collect()
}

#[test]
fn glob_match_supports_leading_trailing_and_multiple_wildcards() {
    assert!(glob_match("*.txt", "a.txt"));
    assert!(!glob_match("*.txt", "a.log"));
    assert!(glob_match("a*", "a.txt"));
    assert!(glob_match("*", "anything"));
    assert!(glob_match("a*c", "abc"));
    assert!(glob_match("a*c", "ac"));
    assert!(!glob_match("a*c", "abd"));
    assert!(glob_match("file.txt", "file.txt"));
    assert!(!glob_match("file.txt", "other.txt"));
}

#[test]
fn glob_match_middle_runs_and_repeated_stars() {
    assert!(glob_match("a*b*c", "axxbyyc"));
    assert!(glob_match("a*b*c", "abbc"));
    assert!(!glob_match("a*b*c", "acb"));
    assert!(glob_match("a**c", "abc"));
    assert!(glob_match("*a*", "banana"));
    assert!(!glob_match("a*a", "a"));
    assert!(glob_match("", ""));
    assert!(!glob_match("", "x"));
    assert!(glob_match("*", ""));
}

#[test]
fn echo_joins_args_with_spaces() {
    assert_eq!(cmd_echo(&args(&["hello", "world"])), CommandResult::ok("hello world\n"));
    assert_eq!(cmd_echo(&args(&[])), CommandResult::ok("\n"));
}

#[test]
fn short_flags_split_clusters_from_operands() {
    let (flags, operands) = short_flags(&args(&["-rf", "a", "--force", "-", "-v"]));
    assert_eq!(flags, vec!['r', 'f', 'v']);
    assert_eq!(operands, vec!["a".to_string(), "--force".to_string(), "-".to_string()]);
}

#[test]
fn a_filter_takes_its_file_operand_last() {
    let (flags, file) = split_flags_and_single_file(&args(&["-n", "5", "notes.txt"])).unwrap();
    assert_eq!(flags, vec!["-n".to_string(), "5".to_string()]);
    assert_eq!(file, "notes.txt");
    assert_eq!(
        split_flags_and_single_file(&args(&[])).unwrap_err(),
        "missing file operand (reading stdin is not supported)"
    );
    assert!(split_flags_and_single_file(&args(&["-l"])).is_err());
    let err = filter_request("wc", &args(&["-l"])).unwrap_err();
    assert_eq!(err, CommandResult::error("wc: missing file operand (reading stdin is not supported)\n", 1));
}

#[test]
fn two_or_more_file_operands_fail_closed() {
    assert_eq!(
        split_flags_and_single_file(&args(&["a.txt", "b.txt"])).unwrap_err(),
        "only a single file operand is supported"
    );
    assert!(split_flags_and_single_file(&args(&["-n", "5", "a.txt", "b.txt"])).is_err());
    assert!(split_flags_and_single_file(&args(&["-d,", "-f2", "a.txt"])).is_ok());
    let err = filter_request("head", &args(&["a.txt", "b.txt"])).unwrap_err();
    assert_eq!(err, CommandResult::error("head: only a single file operand is supported\n", 1));
}

#[test]
fn tail_follow_and_date_set_are_refused() {
    let err = tail_request(&args(&["-f", "log.txt"])).unwrap_err();
    assert_eq!(err, CommandResult::error("tail: -f/-F (follow) is not supported\n", 1));
    assert!(tail_request(&args(&["-n", "3", "log.txt"])).is_ok());
    let err = date_request(&args(&["--set=2020-01-01"])).unwrap_err();
    assert_eq!(err, CommandResult::error("date: setting the system clock is not supported\n", 1));
    assert!(date_request(&args(&["-s", "x"])).is_err());
    assert_eq!(date_request(&args(&["+%Y"])).unwrap(), vec!["+%Y".to_string()]);
}

#[test]
fn grep_refuses_bad_operands_and_patterns() {
    assert_eq!(grep_request(&args(&[])).err().unwrap(), CommandResult::error("grep: missing pattern\n", 2));
    assert_eq!(
        grep_request(&args(&["foo"])).err().unwrap(),
        CommandResult::error("grep: missing file operand (reading stdin is not supported)\n", 2)
    );
    assert_eq!(
        grep_request(&args(&["foo", "a", "b"])).err().unwrap(),
        CommandResult::error("grep: only a single file target is supported\n", 2)
    );
    let err = grep_request(&args(&["(", "f.txt"])).err().unwrap();
    assert!(err.stderr.starts_with("grep: invalid pattern: "));
    assert_eq!(err.exit_code, 2);
}

#[test]
fn grep_selects_numbers_and_inverts_lines() {
    let req = grep_request(&args(&["-n", "fo+", "f.txt"])).ok().unwrap();
    assert_eq!(req.file, "f.txt");
    let r = grep_text(&req, "foo\nbar\r\nfoo bar\n");
    assert_eq!(r, CommandResult::ok("1:foo\n3:foo bar\n"));

    let req = grep_request(&args(&["-vi", "FOO", "f.txt"])).ok().unwrap();
    let r = grep_text(&req, "foo\nbar\r\nFoO");
    assert_eq!(r, CommandResult::ok("bar\n"));

    let req = grep_request(&args(&["zzz", "f.txt"])).ok().unwrap();
    let r = grep_text(&req, "foo\n");
    assert_eq!(r, CommandResult { stdout: String::new(), stderr: String::new(), exit_code: 1 });
}

#[test]
fn decimal_digits() {
    assert_eq!(decimal_text(0), vec!['0']);
    assert_eq!(decimal_text(1207), vec!['1', '2', '0', '7']);
}

use safeshell::handlers::{plan_rm_names, rm_failure_line};
use safeshell::simulation::resolver::FsError;

#[test]
fn rm_plans_a_plain_name_as_itself_and_a_glob_as_its_sorted_matches() {
    assert_eq!(plan_rm_names("a.txt", Err(FsError { not_found: true, message: "gone".into() })), vec!["a.txt".to_string()]);
    let listing = vec!["b.log".to_string(), "a.log".to_string(), "c.txt".to_string()];
    assert_eq!(plan_rm_names("*.log", Ok(listing)), vec!["a.log".to_string(), "b.log".to_string()]);
    assert!(plan_rm_names("*.log", Err(FsError { not_found: false, message: "denied".into() })).is_empty());
}

#[test]
fn rm_failure_lines_name_the_operand_unless_forced_past_a_missing_target() {
    let missing = FsError { not_found: true, message: "No such file or directory".into() };
    let denied = FsError { not_found: false, message: "Permission denied".into() };
    let line: String = rm_failure_line("x", &missing, false).unwrap().into_iter().collect();
    assert_eq!(line, "rm: cannot remove 'x': No such file or directory");
    assert!(rm_failure_line("x", &missing, true).is_none());
    let line: String = rm_failure_line("x", &denied, true).unwrap().into_iter().collect();
    assert_eq!(line, "rm: cannot remove 'x': Permission denied");
}

use safeshell::handlers::fs_ext::truncated_contents;

#[test]
fn truncation_cuts_or_pads_with_zero_bytes() {
    assert_eq!(truncated_contents(b"hello".to_vec(), 2), b"he".to_vec());
    assert_eq!(truncated_contents(b"ab".to_vec(), 4), vec![b'a', b'b', 0, 0]);
    assert_eq!(truncated_contents(Vec::new(), 3), vec![0u8, 0, 0]);
    assert_eq!(truncated_contents(b"same".to_vec(), 4), b"same".to_vec());
}
