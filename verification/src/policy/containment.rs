//! Containment-boundary rules, the only source of a Deny: paths into the
//! kernel's pseudo-filesystems, and commands whose required sandbox
//! capabilities are unavailable.

use vstd::prelude::*;
use crate::parser::{ParsedCommand, Stage};
use crate::policy::types::ReasonCode;
use crate::sandbox::backend::{status_text, CapabilityReport};
use crate::text::{chars_eq, chars_of, has_prefix, push_str, starts_with, string_from_chars};

verus! {

/// The number of leading `/` characters of `s` from position `i` on.
pub open spec fn slash_run(s: Seq<char>, i: int) -> int
    decreases s.len() - i,
{
    if i < 0 || i >= s.len() || s[i] != '/' {
        i
    } else {
        slash_run(s, i + 1)
    }
}

/// `s` without its leading slashes.
pub open spec fn trim_leading_slashes(s: Seq<char>) -> Seq<char> {
    s.subrange(slash_run(s, 0), s.len() as int)
}

/// Whether `s` is `prefix` or lies beneath it.
pub open spec fn at_or_under(s: Seq<char>, prefix: Seq<char>) -> bool {
    s == prefix || has_prefix(s, prefix + seq!['/'])
}

/// Whether a path names a kernel pseudo-filesystem location SafeShell
/// does not simulate: `/proc/sys`, `/proc/sysrq-trigger`, `/sys`, or
/// anything beneath them.
pub open spec fn sensitive_pseudo_path(raw: Seq<char>) -> bool {
    let t = trim_leading_slashes(raw);
    at_or_under(t, "proc/sys"@) || at_or_under(t, "proc/sysrq-trigger"@) || at_or_under(t, "sys"@)
}

fn is_at_or_under(t: &[char], prefix: &str) -> (b: bool)
    ensures
        b == at_or_under(t@, prefix@),
{
    let p = chars_of(prefix);
    if chars_eq(t, p.as_slice()) {
        return true;
    }
    let mut q = p;
    q.push('/');
    assert(q@ =~= prefix@ + seq!['/']);
    starts_with(t, q.as_slice())
}

fn looks_like_sensitive_pseudo_path(raw: &str) -> (b: bool)
    ensures
        b == sensitive_pseudo_path(raw@),
{
    let cs = chars_of(raw);
    let mut i: usize = 0;
    while i < cs.len() && cs[i] == '/'
        invariant
            i <= cs@.len(),
            slash_run(cs@, 0) == slash_run(cs@, i as int),
        decreases cs.len() - i,
    {
        i = i + 1;
    }
    let trimmed = &cs.as_slice()[i..cs.len()];
    assert(trimmed@ =~= trim_leading_slashes(raw@));
    is_at_or_under(trimmed, "proc/sys") || is_at_or_under(trimmed, "proc/sysrq-trigger")
        || is_at_or_under(trimmed, "sys")
}

/// The paths a stage names: its arguments, then its redirection targets.
pub open spec fn stage_paths(st: Stage) -> Seq<Seq<char>> {
    st.args + st.redirections.map_values(|r: (crate::parser::RedirectionKind, Seq<char>)| r.1)
}

/// The first sensitive path among the stages `stages[i..]`, in order.
pub open spec fn first_sensitive(stages: Seq<Stage>, i: int) -> Option<Seq<char>>
    decreases stages.len() - i,
{
    if i < 0 || i >= stages.len() {
        None
    } else {
        match first_sensitive_in(stage_paths(stages[i]), 0) {
            Some(p) => Some(p),
            None => first_sensitive(stages, i + 1),
        }
    }
}

/// The first sensitive path of `paths[k..]`.
pub open spec fn first_sensitive_in(paths: Seq<Seq<char>>, k: int) -> Option<Seq<char>>
    decreases paths.len() - k,
{
    if k < 0 || k >= paths.len() {
        None
    } else if sensitive_pseudo_path(paths[k]) {
        Some(paths[k])
    } else {
        first_sensitive_in(paths, k + 1)
    }
}

/// The reason given for a sensitive path.
pub open spec fn sensitive_reason(p: Seq<char>) -> Seq<char> {
    p + ": refers to a kernel pseudo-filesystem path SafeShell does not simulate effects for"@
}

/// The verdict of the pseudo-path rule over a pipeline's stages.
pub open spec fn sensitive_check(stages: Seq<Stage>) -> Option<(ReasonCode, Seq<char>)> {
    match first_sensitive(stages, 0) {
        Some(p) => Some((ReasonCode::DenyUnsimulatable, sensitive_reason(p))),
        None => None,
    }
}

fn sensitive_reason_text(p: &str) -> (s: String)
    ensures
        s@ == sensitive_reason(p@),
{
    let mut out = chars_of(p);
    push_str(&mut out, ": refers to a kernel pseudo-filesystem path SafeShell does not simulate effects for");
    string_from_chars(out.as_slice())
}

fn check_stage(current: &ParsedCommand) -> (r: Option<(ReasonCode, String)>)
    ensures
        match (r, first_sensitive_in(stage_paths(current.stage()), 0)) {
            (Some((code, reason)), Some(p)) => code == ReasonCode::DenyUnsimulatable && reason@
                == sensitive_reason(p),
            (None, None) => true,
            _ => false,
        },
{
    let ghost paths = stage_paths(current.stage());
    let n = current.args.len();
    let mut i: usize = 0;
    while i < n
        invariant
            paths == stage_paths(current.stage()),
            n == current.args@.len(),
            i <= n,
            first_sensitive_in(paths, 0) == first_sensitive_in(paths, i as int),
        decreases n - i,
    {
        assert(paths[i as int] == current.args@[i as int].0@);
        if looks_like_sensitive_pseudo_path(current.args[i].as_str()) {
            return Some((ReasonCode::DenyUnsimulatable, sensitive_reason_text(current.args[i].as_str())));
        }
        i = i + 1;
    }
    let mut j: usize = 0;
    while j < current.redirections.len()
        invariant
            paths == stage_paths(current.stage()),
            n == current.args@.len(),
            j <= current.redirections@.len(),
            first_sensitive_in(paths, 0) == first_sensitive_in(paths, n + j),
        decreases current.redirections.len() - j,
    {
        assert(paths[n + j] == current.redirections@[j as int].target@);
        if looks_like_sensitive_pseudo_path(current.redirections[j].target.as_str()) {
            return Some(
                (ReasonCode::DenyUnsimulatable, sensitive_reason_text(current.redirections[j].target.as_str())),
            );
        }
        j = j + 1;
    }
    None
}

/// A pipeline's stage count is at least one, and its tail has one fewer.
pub proof fn lemma_stages_shape(c: ParsedCommand)
    ensures
        c.stages().len() >= 1,
        c.stages()[0] == c.stage(),
        match c.pipeline_next {
            Some(n) => c.stages().subrange(1, c.stages().len() as int) == n.stages(),
            None => c.stages().len() == 1,
        },
    decreases c,
{
    match c.pipeline_next {
        Some(n) => {
            lemma_stages_shape(*n);
            assert(c.stages().subrange(1, c.stages().len() as int) =~= n.stages());
        },
        None => {},
    }
}

/// Checks every argument and redirection target of every pipeline stage
/// for a kernel pseudo-filesystem path; the first one found denies.
pub fn check_sensitive_pseudo_paths(cmd: &ParsedCommand) -> (r: Option<(ReasonCode, String)>)
    ensures
        match (r, sensitive_check(cmd.stages())) {
            (Some((code, reason)), Some((c, sr))) => code == c && reason@ == sr,
            (None, None) => true,
            _ => false,
        },
{
    let ghost all = cmd.stages();
    let mut current = cmd;
    let ghost mut offset: int = 0;
    proof {
        lemma_stages_shape(*cmd);
        assert(all.subrange(0, all.len() as int) =~= all);
    }
    loop
        invariant
            all == cmd.stages(),
            0 <= offset < all.len(),
            current.stages() == all.subrange(offset, all.len() as int),
            first_sensitive(all, 0) == first_sensitive(all, offset),
        decreases all.len() - offset,
    {
        proof {
            lemma_stages_shape(*current);
            assert(all[offset] == current.stage());
        }
        let hit = check_stage(current);
        match hit {
            Some(found) => {
                assert(first_sensitive(all, offset) == first_sensitive_in(stage_paths(all[offset]), 0));
                return Some(found);
            },
            None => {},
        }
        match &current.pipeline_next {
            Some(next) => {
                proof {
                    assert(next.stages() =~= all.subrange(offset + 1, all.len() as int));
                    offset = offset + 1;
                }
                current = next;
            },
            None => {
                assert(offset + 1 == all.len());
                assert(first_sensitive(all, offset + 1) is None);
                assert(first_sensitive(all, offset) is None);
                return None;
            },
        }
    }
}

/// The verdict of the capability gate.
pub open spec fn capability_check(report: CapabilityReport, process_commands: bool) -> Option<
    (ReasonCode, Seq<char>),
> {
    let available = if process_commands {
        report.can_run_process_commands()
    } else {
        report.can_execute()
    };
    if available {
        None
    } else if process_commands && report.can_execute() {
        Some(
            (
                ReasonCode::DenyCapabilityUnavailable,
                "process-representation commands require a working PID namespace: "@ + status_text(
                    report.pid_namespaces,
                ),
            ),
        )
    } else {
        Some(
            (
                ReasonCode::DenyCapabilityUnavailable,
                "required sandbox capabilities are unavailable in this session — see the capability report"@,
            ),
        )
    }
}

/// Denies when the sandbox capabilities the command needs are missing:
/// every command needs execution; `ps`/`kill` also need PID namespaces.
pub fn check_capability_gate(report: &CapabilityReport, process_commands: bool) -> (r: Option<
    (ReasonCode, String),
>)
    ensures
        match (r, capability_check(*report, process_commands)) {
            (Some((code, reason)), Some((c, sr))) => code == c && reason@ == sr,
            (None, None) => true,
            _ => false,
        },
{
    let available = if process_commands {
        report.process_commands_available()
    } else {
        report.execution_available()
    };
    if available {
        return None;
    }
    let reason = if process_commands && report.execution_available() {
        let mut out = chars_of("process-representation commands require a working PID namespace: ");
        let text = report.pid_namespaces.describe();
        push_str(&mut out, text.as_str());
        string_from_chars(out.as_slice())
    } else {
        "required sandbox capabilities are unavailable in this session — see the capability report".to_owned()
    };
    Some((ReasonCode::DenyCapabilityUnavailable, reason))
}

} // verus!
