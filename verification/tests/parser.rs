use safeshell::parser::{parse_line, Arg, Connector, Env, ParseError, Redirection, RedirectionKind};

fn env(pairs: &[(&str, &str)]) -> Env {
    let mut e = Env::new();
    for (k, v) in pairs {
        e.set(k.to_string(), v.to_string());
    }
    e
}

#[test]
fn parses_simple_command_with_args() {
    let line = parse_line("ls -la /project", &env(&[])).unwrap();
    assert_eq!(line.segments.len(), 1);
    let (cmd, connector) = &line.segments[0];
    assert_eq!(cmd.name, "ls");
    assert_eq!(cmd.args, vec![Arg("-la".into()), Arg("/project".into())]);
    assert!(connector.is_none());
    assert!(cmd.pipeline_next.is_none());
}

#[test]
fn single_quotes_suppress_expansion() {
    let line = parse_line("echo '$HOME'", &env(&[("HOME", "/home/u")])).unwrap();
    let (cmd, _) = &line.segments[0];
    assert_eq!(cmd.args, vec![Arg("$HOME".into())]);
}

#[test]
fn double_quotes_allow_expansion() {
    let line = parse_line("echo \"home is $HOME\"", &env(&[("HOME", "/home/u")])).unwrap();
    let (cmd, _) = &line.segments[0];
    assert_eq!(cmd.args, vec![Arg("home is /home/u".into())]);
}

#[test]
fn unquoted_expansion_with_braces() {
    let line = parse_line("echo ${HOME}/x", &env(&[("HOME", "/home/u")])).unwrap();
    let (cmd, _) = &line.segments[0];
    assert_eq!(cmd.args, vec![Arg("/home/u/x".into())]);
}

#[test]
fn unset_variable_expands_to_empty_string() {
    let line = parse_line("echo [$UNSET]", &env(&[])).unwrap();
    let (cmd, _) = &line.segments[0];
    assert_eq!(cmd.args, vec![Arg("[]".into())]);
}

#[test]
fn parses_pipeline() {
    let line = parse_line("cat file.txt | grep foo | wc -l", &env(&[])).unwrap();
    let (cmd, _) = &line.segments[0];
    assert_eq!(cmd.name, "cat");
    let stage2 = cmd.pipeline_next.as_ref().unwrap();
    assert_eq!(stage2.name, "grep");
    let stage3 = stage2.pipeline_next.as_ref().unwrap();
    assert_eq!(stage3.name, "wc");
    assert!(stage3.pipeline_next.is_none());
}

#[test]
fn parses_redirection() {
    let line = parse_line("echo hi > out.txt", &env(&[])).unwrap();
    let (cmd, _) = &line.segments[0];
    assert_eq!(
        cmd.redirections,
        vec![Redirection { kind: RedirectionKind::Truncate, target: "out.txt".into() }]
    );
}

#[test]
fn parses_append_and_input_redirection() {
    let line = parse_line("cmd >> a.log < in.txt", &env(&[])).unwrap();
    let (cmd, _) = &line.segments[0];
    assert_eq!(
        cmd.redirections,
        vec![
            Redirection { kind: RedirectionKind::Append, target: "a.log".into() },
            Redirection { kind: RedirectionKind::Input, target: "in.txt".into() },
        ]
    );
}

#[test]
fn parses_sequencing() {
    let line = parse_line("mkdir a; cd a && touch f", &env(&[])).unwrap();
    assert_eq!(line.segments.len(), 3);
    assert_eq!(line.segments[0].0.name, "mkdir");
    assert_eq!(line.segments[0].1, Some(Connector::Sequence));
    assert_eq!(line.segments[1].0.name, "cd");
    assert_eq!(line.segments[1].1, Some(Connector::And));
    assert_eq!(line.segments[2].0.name, "touch");
    assert_eq!(line.segments[2].1, None);
}

#[test]
fn rejects_command_substitution_dollar_paren() {
    let err = parse_line("echo $(whoami)", &env(&[])).unwrap_err();
    assert!(matches!(
        err,
        ParseError::UnsupportedConstruct { construct: "$(...) command substitution", .. }
    ));
}

#[test]
fn rejects_backtick_substitution() {
    let err = parse_line("echo `whoami`", &env(&[])).unwrap_err();
    assert!(matches!(
        err,
        ParseError::UnsupportedConstruct { construct: "backtick command substitution", .. }
    ));
}

#[test]
fn rejects_background_job() {
    let err = parse_line("sleep 5 &", &env(&[])).unwrap_err();
    assert!(matches!(err, ParseError::UnsupportedConstruct { construct: "background job (&)", .. }));
}

#[test]
fn rejects_heredoc() {
    let err = parse_line("cat << EOF", &env(&[])).unwrap_err();
    assert!(matches!(err, ParseError::UnsupportedConstruct { construct: "here-document (<<)", .. }));
}

#[test]
fn rejects_process_substitution() {
    let err = parse_line("diff <(ls a) <(ls b)", &env(&[])).unwrap_err();
    assert!(matches!(err, ParseError::UnsupportedConstruct { construct: "process substitution", .. }));
}

#[test]
fn rejects_unterminated_single_quote() {
    let err = parse_line("echo 'unterminated", &env(&[])).unwrap_err();
    assert_eq!(err, ParseError::UnterminatedQuote("single"));
}

#[test]
fn rejects_unterminated_double_quote() {
    let err = parse_line("echo \"unterminated", &env(&[])).unwrap_err();
    assert_eq!(err, ParseError::UnterminatedQuote("double"));
}

#[test]
fn rejects_empty_input() {
    assert_eq!(parse_line("", &env(&[])).unwrap_err(), ParseError::EmptyInput);
    assert_eq!(parse_line("   ", &env(&[])).unwrap_err(), ParseError::EmptyInput);
}

#[test]
fn rejects_dangling_pipe() {
    let err = parse_line("ls |", &env(&[])).unwrap_err();
    assert!(matches!(err, ParseError::ExpectedCommandBefore(_)));
}

#[test]
fn rejects_dangling_connector() {
    let err = parse_line("ls &&", &env(&[])).unwrap_err();
    assert_eq!(err, ParseError::ExpectedCommandAfter { connector: "&&" });
}

#[test]
fn rejects_redirection_missing_target() {
    let err = parse_line("ls >", &env(&[])).unwrap_err();
    assert_eq!(err, ParseError::RedirectionMissingTarget { operator: ">" });
}

#[test]
fn backslash_escapes_a_space_in_unquoted_word() {
    let line = parse_line("touch foo\\ bar", &env(&[])).unwrap();
    let (cmd, _) = &line.segments[0];
    assert_eq!(cmd.args, vec![Arg("foo bar".into())]);
}

#[test]
fn env_set_then_get_reads_back_the_value() {
    let mut e = Env::new();
    assert_eq!(e.get("HOME"), None);
    e.set("HOME".to_string(), "/home/u".to_string());
    e.set("HOME".to_string(), "/root".to_string());
    assert_eq!(e.get("HOME"), Some("/root".to_string()));
}
