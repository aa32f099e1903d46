//! Risk classification: assigns a risk level and a reason to a parsed
//! command (never a Deny), and escalates risk when a simulation shows a
//! large blast radius.

use vstd::prelude::*;
use crate::fs_abstraction::{parse_path, split_on, split_chars, SandboxPath};
use crate::parser::{Arg, ParsedCommand, RedirectionKind, Stage};
use crate::text::occurs_at;
use crate::policy::types::RiskLevel;
use crate::text::{
    chars_eq, chars_of, contains_char, contains_chars, has_infix, join, join_strings, push_all,
    push_str, string_from_chars, str_eq,
};

verus! {

/// The top-level directories of the simulated root.
pub open spec fn top_level_dir(s: Seq<char>) -> bool {
    s == "etc"@ || s == "home"@ || s == "var"@ || s == "tmp"@ || s == "opt"@ || s == "usr"@
}

/// Directories whose contents the environment itself depends on.
pub open spec fn environment_critical_dir(s: Seq<char>) -> bool {
    s == "etc"@
}

/// Packages the simulated toolchain depends on.
pub open spec fn toolchain_critical_package(s: Seq<char>) -> bool {
    s == "core-utils"@ || s == "bash-compat"@ || s == "safeshell-toolchain"@
}

fn is_top_level_dir(s: &str) -> (b: bool)
    ensures
        b == top_level_dir(s@),
{
    str_eq(s, "etc") || str_eq(s, "home") || str_eq(s, "var") || str_eq(s, "tmp") || str_eq(
        s,
        "opt",
    ) || str_eq(s, "usr")
}

fn is_environment_critical_dir(s: &str) -> (b: bool)
    ensures
        b == environment_critical_dir(s@),
{
    str_eq(s, "etc")
}

fn is_toolchain_critical_package(s: &str) -> (b: bool)
    ensures
        b == toolchain_critical_package(s@),
{
    str_eq(s, "core-utils") || str_eq(s, "bash-compat") || str_eq(s, "safeshell-toolchain")
}

/// Where a target path points: `(root or top-level directory,
/// environment-critical)`, or nothing when it is not a valid sandbox path.
pub open spec fn target_scope(raw: Seq<char>) -> Option<(bool, bool)> {
    match parse_path(raw) {
        Err(_) => None,
        Ok(p) => if p.len() == 0 {
            Some((true, false))
        } else {
            let first = split_on(p, '/')[0];
            Some((p == first && top_level_dir(first), environment_critical_dir(first)))
        },
    }
}

/// Whether a target names the simulated root or a top-level directory.
pub open spec fn critical_target(raw: Seq<char>) -> bool {
    target_scope(raw) matches Some((top, _)) && top
}

/// Whether any of the targets is critical.
pub open spec fn any_critical(ts: Seq<Seq<char>>) -> bool {
    exists|k: int| 0 <= k < ts.len() && critical_target(#[trigger] ts[k])
}

struct TargetScope {
    is_root_or_top_level: bool,
    is_environment_critical: bool,
}

fn classify_target(raw: &str) -> (r: Option<TargetScope>)
    ensures
        match (r, target_scope(raw@)) {
            (Some(t), Some((top, env))) => t.is_root_or_top_level == top
                && t.is_environment_critical == env,
            (None, None) => true,
            _ => false,
        },
{
    let path = match SandboxPath::parse(raw) {
        Ok(p) => p,
        Err(_) => return None,
    };
    if path.is_root() {
        return Some(TargetScope { is_root_or_top_level: true, is_environment_critical: false });
    }
    let cs = chars_of(path.as_str());
    let parts = split_chars(cs.as_slice(), '/');
    proof {
        reveal_with_fuel(crate::fs_abstraction::split_from, 1);
    }
    assert(parts@.len() > 0);
    let first = string_from_chars(parts[0].as_slice());
    assert(first@ == split_on(path@, '/')[0]);
    let is_top_level = chars_eq(cs.as_slice(), parts[0].as_slice()) && is_top_level_dir(
        first.as_str(),
    );
    let is_env_critical = is_environment_critical_dir(first.as_str());
    Some(TargetScope { is_root_or_top_level: is_top_level, is_environment_critical: is_env_critical })
}

/// Whether an argument is a cluster of short flags: `-x...` but not `--...`.
pub open spec fn short_flag_word(s: Seq<char>) -> bool {
    s.len() > 1 && s[0] == '-' && s[1] != '-'
}

/// Whether some argument is a short-flag cluster holding `f`.
pub open spec fn has_short_flag_spec(args: Seq<Seq<char>>, f: char) -> bool {
    exists|k: int|
        0 <= k < args.len() && short_flag_word(#[trigger] args[k]) && args[k].subrange(
            1,
            args[k].len() as int,
        ).contains(f)
}

/// The arguments that do not start with `-`, in order.
pub open spec fn non_flags(args: Seq<Seq<char>>) -> Seq<Seq<char>>
    decreases args.len(),
{
    if args.len() == 0 {
        Seq::empty()
    } else if args.last().len() > 0 && args.last()[0] == '-' {
        non_flags(args.drop_last())
    } else {
        non_flags(args.drop_last()).push(args.last())
    }
}

/// The targets of `chmod` and `chown`: the non-flag arguments after the
/// mode or owner.
pub open spec fn mode_targets(args: Seq<Seq<char>>) -> Seq<Seq<char>> {
    if non_flags(args).len() == 0 {
        Seq::empty()
    } else {
        non_flags(args).drop_first()
    }
}

/// The argument views of a command.
pub open spec fn arg_views(args: Seq<Arg>) -> Seq<Seq<char>> {
    args.map_values(|a: Arg| a.0@)
}

fn has_short_flag(args: &[Arg], flag_char: char) -> (b: bool)
    ensures
        b == has_short_flag_spec(arg_views(args@), flag_char),
{
    let ghost av = arg_views(args@);
    let mut i: usize = 0;
    while i < args.len()
        invariant
            av == arg_views(args@),
            i <= args@.len(),
            forall|k: int|
                0 <= k < i ==> !(short_flag_word(#[trigger] av[k]) && av[k].subrange(
                    1,
                    av[k].len() as int,
                ).contains(flag_char)),
        decreases args.len() - i,
    {
        let s = chars_of(args[i].as_str());
        assert(s@ == av[i as int]);
        if s.len() > 1 && s[0] == '-' && s[1] != '-' {
            let rest = &s.as_slice()[1..s.len()];
            assert(rest@ =~= s@.subrange(1, s@.len() as int));
            if contains_char(rest, flag_char) {
                return true;
            }
        }
        i = i + 1;
    }
    false
}

fn non_flag_args(args: &[Arg]) -> (r: Vec<Vec<char>>)
    ensures
        r@.map_values(|v: Vec<char>| v@) == non_flags(arg_views(args@)),
{
    let ghost av = arg_views(args@);
    let mut out: Vec<Vec<char>> = Vec::new();
    let mut i: usize = 0;
    assert(out@.map_values(|v: Vec<char>| v@) =~= non_flags(av.take(0)));
    while i < args.len()
        invariant
            av == arg_views(args@),
            i <= args@.len(),
            out@.map_values(|v: Vec<char>| v@) == non_flags(av.take(i as int)),
        decreases args.len() - i,
    {
        let s = chars_of(args[i].as_str());
        assert(av.take(i + 1).drop_last() =~= av.take(i as int));
        assert(av.take(i + 1).last() == s@);
        if !(s.len() > 0 && s[0] == '-') {
            let ghost before = out@.map_values(|v: Vec<char>| v@);
            let ghost sv = s@;
            out.push(s);
            assert(out@.map_values(|v: Vec<char>| v@) =~= before.push(sv));
        }
        i = i + 1;
    }
    assert(av.take(args@.len() as int) =~= av);
    out
}

fn first_non_flag_arg(args: &[Arg]) -> (r: Option<Vec<char>>)
    ensures
        match r {
            Some(v) => non_flags(arg_views(args@)).len() > 0 && v@ == non_flags(arg_views(args@))[0],
            None => non_flags(arg_views(args@)).len() == 0,
        },
{
    let mut all = non_flag_args(args);
    if all.len() == 0 {
        None
    } else {
        let ghost v = all@.map_values(|v: Vec<char>| v@);
        let first = all.remove(0);
        assert(first@ == v[0]);
        Some(first)
    }
}

fn mode_or_owner_command_targets(args: &[Arg]) -> (r: Vec<Vec<char>>)
    ensures
        r@.map_values(|v: Vec<char>| v@) == mode_targets(arg_views(args@)),
{
    let mut all = non_flag_args(args);
    if all.len() == 0 {
        return all;
    }
    let ghost v = all@.map_values(|v: Vec<char>| v@);
    all.remove(0);
    assert(all@.map_values(|v: Vec<char>| v@) =~= v.drop_first());
    all
}

/// Whether a `chmod` mode grants write permission to others: an octal mode
/// whose last digit has the write bit, or a symbolic mode adding `w` for
/// others.
pub open spec fn world_writable_mode(mode: Seq<char>) -> bool {
    if mode.len() > 0 && (forall|k: int| 0 <= k < mode.len() ==> '0' <= #[trigger] mode[k] <= '9') {
        let d = mode.last();
        '0' <= d <= '7' && ((d as int - '0' as int) / 2) % 2 == 1
    } else {
        has_infix(mode, "o+w"@) || has_infix(mode, "a+w"@) || has_infix(mode, "ugo+w"@)
            || has_infix(mode, "+w"@)
    }
}

fn chmod_mode_is_world_writable(mode: &[char]) -> (b: bool)
    ensures
        b == world_writable_mode(mode@),
{
    let mut all_digits = mode.len() > 0;
    let mut i: usize = 0;
    while i < mode.len()
        invariant
            i <= mode@.len(),
            all_digits == (mode@.len() > 0 && forall|k: int| 0 <= k < i ==> '0' <= #[trigger] mode@[k] <= '9'),
        decreases mode.len() - i,
    {
        if !('0' <= mode[i] && mode[i] <= '9') {
            all_digits = false;
        }
        i = i + 1;
    }
    if all_digits {
        let d = mode[mode.len() - 1];
        return match d {
            '2' | '3' | '6' | '7' => true,
            _ => false,
        };
    }
    let p1 = chars_of("o+w");
    let p2 = chars_of("a+w");
    let p3 = chars_of("ugo+w");
    let p4 = chars_of("+w");
    contains_chars(mode, p1.as_slice()) || contains_chars(mode, p2.as_slice()) || contains_chars(
        mode,
        p3.as_slice(),
    ) || contains_chars(mode, p4.as_slice())
}

/// A finding: a level and the reason shown for it.
pub struct RiskFinding {
    pub level: RiskLevel,
    pub reason: String,
}

/// The text added when a target is the root or a top-level directory.
pub open spec fn critical_suffix(critical: bool) -> Seq<char> {
    if critical {
        " — targets the simulated root or a top-level directory"@
    } else {
        Seq::empty()
    }
}

/// The findings particular to the command's name.
pub open spec fn command_findings(st: Stage) -> Seq<(RiskLevel, Seq<char>)> {
    let name = st.name;
    let args = st.args;
    if name == "rm"@ && has_short_flag_spec(args, 'r') {
        if non_flags(args).len() > 0 {
            let t = non_flags(args)[0];
            let c = critical_target(t);
            seq![
                (
                    if c { RiskLevel::Critical } else { RiskLevel::High },
                    "recursive deletion of "@ + t + critical_suffix(c),
                ),
            ]
        } else {
            Seq::empty()
        }
    } else if name == "chmod"@ && has_short_flag_spec(args, 'R') {
        let ts = mode_targets(args);
        if ts.len() > 0 {
            let c = any_critical(ts);
            seq![
                (
                    if c { RiskLevel::Critical } else { RiskLevel::High },
                    "recursive permission change on "@ + join(ts, ", "@) + critical_suffix(c),
                ),
            ]
        } else {
            Seq::empty()
        }
    } else if name == "chmod"@ {
        let ts = mode_targets(args);
        if ts.len() > 0 && world_writable_mode(non_flags(args)[0]) {
            let c = any_critical(ts);
            seq![
                (
                    if c { RiskLevel::High } else { RiskLevel::Medium },
                    "makes "@ + join(ts, ", "@) + " world-writable ("@ + non_flags(args)[0] + ")"@
                        + critical_suffix(c),
                ),
            ]
        } else {
            Seq::empty()
        }
    } else if name == "chown"@ && has_short_flag_spec(args, 'R') {
        let ts = mode_targets(args);
        if ts.len() > 0 {
            let c = any_critical(ts);
            seq![
                (
                    if c { RiskLevel::Critical } else { RiskLevel::High },
                    "recursive ownership change on "@ + join(ts, ", "@) + critical_suffix(c),
                ),
            ]
        } else {
            Seq::empty()
        }
    } else if name == "truncate"@ {
        let ts = non_flags(args);
        if ts.len() > 0 {
            seq![
                (
                    RiskLevel::Medium,
                    "truncates "@ + join(ts, ", "@) + " — may discard file content"@,
                ),
            ]
        } else {
            Seq::empty()
        }
    } else if name == "shred"@ {
        let ts = non_flags(args);
        if ts.len() > 0 {
            let c = any_critical(ts);
            seq![
                (
                    if c { RiskLevel::Critical } else { RiskLevel::High },
                    "irrecoverably destroys the content of "@ + join(ts, ", "@) + critical_suffix(c),
                ),
            ]
        } else {
            Seq::empty()
        }
    } else if name == "mv"@ {
        seq![(RiskLevel::Medium, "mv may overwrite an existing path at the destination"@)]
    } else if name == "kill"@ {
        seq![(RiskLevel::Medium, "signals a sandbox-local process"@)]
    } else if name == "safeshell-pkg"@ && args.len() > 0 && args[0] == "remove"@ {
        let tc = args.len() > 1 && toolchain_critical_package(args[1]);
        seq![
            (
                if tc { RiskLevel::High } else { RiskLevel::Medium },
                "removes package "@ + (if args.len() > 1 { args[1] } else { "<unspecified>"@ }) + (
                if tc {
                    " — a dependency of the simulated toolchain"@
                } else {
                    Seq::empty()
                }),
            ),
        ]
    } else {
        Seq::empty()
    }
}

/// The first argument that names an environment-critical path, from `i`.
pub open spec fn first_env_critical(args: Seq<Seq<char>>, i: int) -> Option<Seq<char>>
    decreases args.len() - i,
{
    if i < 0 || i >= args.len() {
        None
    } else if target_scope(args[i]) matches Some((_, env)) && env {
        Some(args[i])
    } else {
        first_env_critical(args, i + 1)
    }
}

/// Every finding for a command, in the order they are raised.
pub open spec fn all_findings(st: Stage, divergence: Option<Seq<char>>) -> Seq<(RiskLevel, Seq<char>)> {
    command_findings(st) + (if exists|k: int|
        0 <= k < st.redirections.len() && (#[trigger] st.redirections[k]).0
            == RedirectionKind::Truncate {
        seq![(RiskLevel::Medium, "truncates or overwrites a file via `>` redirection"@)]
    } else {
        Seq::empty()
    }) + (match first_env_critical(st.args, 0) {
        Some(a) => seq![(RiskLevel::High, "targets an environment-critical path: "@ + a)],
        None => Seq::empty(),
    }) + (match divergence {
        Some(t) => seq![(RiskLevel::Medium, "partially supported: "@ + t)],
        None => Seq::empty(),
    })
}

/// The highest-ranked finding of `fs[i..]`, given the best so far; on ties
/// the later finding wins.
pub open spec fn strongest_from(
    fs: Seq<(RiskLevel, Seq<char>)>,
    i: int,
    best: (RiskLevel, Seq<char>),
) -> (RiskLevel, Seq<char>)
    decreases fs.len() - i,
{
    if i < 0 || i >= fs.len() {
        best
    } else if fs[i].0.rank() >= best.0.rank() {
        strongest_from(fs, i + 1, fs[i])
    } else {
        strongest_from(fs, i + 1, best)
    }
}

/// The strongest finding, or nothing when there are none.
pub open spec fn strongest(fs: Seq<(RiskLevel, Seq<char>)>) -> Option<(RiskLevel, Seq<char>)> {
    if fs.len() == 0 {
        None
    } else {
        Some(strongest_from(fs, 1, fs[0]))
    }
}

/// The finding for a command: the strongest of all its findings.
pub open spec fn classification(st: Stage, divergence: Option<Seq<char>>) -> Option<
    (RiskLevel, Seq<char>),
> {
    strongest(all_findings(st, divergence))
}

proof fn lemma_strongest_from_push(
    fs: Seq<(RiskLevel, Seq<char>)>,
    x: (RiskLevel, Seq<char>),
    i: int,
    best: (RiskLevel, Seq<char>),
)
    requires
        0 <= i <= fs.len(),
    ensures
        strongest_from(fs.push(x), i, best) == (if x.0.rank() >= strongest_from(fs, i, best).0.rank() {
            x
        } else {
            strongest_from(fs, i, best)
        }),
    decreases fs.len() - i,
{
    if i < fs.len() {
        assert(fs.push(x)[i] == fs[i]);
        if fs[i].0.rank() >= best.0.rank() {
            lemma_strongest_from_push(fs, x, i + 1, fs[i]);
        } else {
            lemma_strongest_from_push(fs, x, i + 1, best);
        }
    } else {
        let ys = fs.push(x);
        assert(ys[i] == x);
        assert(strongest_from(ys, i + 1, x) == x);
        assert(strongest_from(ys, i + 1, best) == best);
        assert(strongest_from(fs, i, best) == best);
    }
}

/// A documented divergence adds exactly one Medium finding: with it, a
/// command is classified at Medium or at its level without it, whichever
/// is higher.
pub proof fn lemma_divergence_adds_one_medium(st: Stage, d: Seq<char>)
    ensures
        classification(st, Some(d)) matches Some((level, _)) && level == (match classification(st, None) {
            Some((l, _)) => if l.rank() > RiskLevel::Medium.rank() {
                l
            } else {
                RiskLevel::Medium
            },
            None => RiskLevel::Medium,
        }),
{
    let m = (RiskLevel::Medium, "partially supported: "@ + d);
    let a = all_findings(st, None);
    let b = all_findings(st, Some(d));
    let pre = command_findings(st) + (if exists|k: int|
        0 <= k < st.redirections.len() && (#[trigger] st.redirections[k]).0 == RedirectionKind::Truncate {
        seq![(RiskLevel::Medium, "truncates or overwrites a file via `>` redirection"@)]
    } else {
        Seq::empty()
    }) + (match first_env_critical(st.args, 0) {
        Some(x) => seq![(RiskLevel::High, "targets an environment-critical path: "@ + x)],
        None => Seq::empty(),
    });
    assert(a =~= pre);
    assert(b =~= pre.push(m));
    if pre.len() == 0 {
        assert(b =~= seq![m]);
    } else {
        lemma_strongest_from_push(pre, m, 1, pre[0]);
        assert(b[0] == pre[0]);
    }
}

spec fn findings_view(v: Seq<RiskFinding>) -> Seq<(RiskLevel, Seq<char>)> {
    v.map_values(|f: RiskFinding| (f.level, f.reason@))
}

fn push_finding(findings: &mut Vec<RiskFinding>, level: RiskLevel, reason: &Vec<char>)
    ensures
        findings_view(final(findings)@) == findings_view(old(findings)@).push((level, reason@)),
{
    let ghost before = findings_view(findings@);
    findings.push(RiskFinding { level, reason: string_from_chars(reason.as_slice()) });
    assert(findings_view(findings@) =~= before.push((level, reason@)));
}

fn any_critical_target(ts: &Vec<Vec<char>>) -> (b: bool)
    ensures
        b == any_critical(ts@.map_values(|v: Vec<char>| v@)),
{
    let ghost tv = ts@.map_values(|v: Vec<char>| v@);
    let mut i: usize = 0;
    while i < ts.len()
        invariant
            tv == ts@.map_values(|v: Vec<char>| v@),
            i <= ts@.len(),
            forall|k: int| 0 <= k < i ==> !critical_target(#[trigger] tv[k]),
        decreases ts.len() - i,
    {
        let s = string_from_chars(ts[i].as_slice());
        assert(s@ == tv[i as int]);
        match classify_target(s.as_str()) {
            Some(scope) => {
                if scope.is_root_or_top_level {
                    return true;
                }
            },
            None => {},
        }
        i = i + 1;
    }
    false
}

fn push_critical_suffix(out: &mut Vec<char>, critical: bool)
    ensures
        final(out)@ == old(out)@ + critical_suffix(critical),
{
    if critical {
        push_str(out, " — targets the simulated root or a top-level directory");
    } else {
        assert(old(out)@ + Seq::<char>::empty() =~= old(out)@);
    }
}

fn name_findings(cmd: &ParsedCommand, findings: &mut Vec<RiskFinding>)
    requires
        old(findings)@.len() == 0,
    ensures
        findings_view(final(findings)@) == command_findings(cmd.stage()),
{
    let ghost st = cmd.stage();
    let ghost args = st.args;
    assert(args == arg_views(cmd.args@));
    assert(findings_view(findings@) =~= Seq::<(RiskLevel, Seq<char>)>::empty());
    let name = cmd.name.as_str();
    let a = cmd.args.as_slice();
    if str_eq(name, "rm") && has_short_flag(a, 'r') {
        match first_non_flag_arg(a) {
            Some(target) => {
                let t = string_from_chars(target.as_slice());
                let critical = match classify_target(t.as_str()) {
                    Some(s) => s.is_root_or_top_level,
                    None => false,
                };
                let mut reason: Vec<char> = Vec::new();
                push_str(&mut reason, "recursive deletion of ");
                push_all(&mut reason, target.as_slice());
                push_critical_suffix(&mut reason, critical);
                let level = if critical { RiskLevel::Critical } else { RiskLevel::High };
                push_finding(findings, level, &reason);
            },
            None => {},
        }
    } else if str_eq(name, "chmod") && has_short_flag(a, 'R') {
        let targets = mode_or_owner_command_targets(a);
        if targets.len() > 0 {
            let critical = any_critical_target(&targets);
            let mut reason: Vec<char> = Vec::new();
            push_str(&mut reason, "recursive permission change on ");
            let joined = join_strings(&targets, ", ");
            push_all(&mut reason, joined.as_slice());
            push_critical_suffix(&mut reason, critical);
            let level = if critical { RiskLevel::Critical } else { RiskLevel::High };
            push_finding(findings, level, &reason);
        }
    } else if str_eq(name, "chmod") {
        let targets = mode_or_owner_command_targets(a);
        let modes = non_flag_args(a);
        if targets.len() > 0 && modes.len() > 0 {
            let ghost mv = modes@.map_values(|v: Vec<char>| v@);
            assert(modes[0]@ == mv[0]);
            if chmod_mode_is_world_writable(modes[0].as_slice()) {
                let critical = any_critical_target(&targets);
                let mut reason: Vec<char> = Vec::new();
                push_str(&mut reason, "makes ");
                let joined = join_strings(&targets, ", ");
                push_all(&mut reason, joined.as_slice());
                push_str(&mut reason, " world-writable (");
                push_all(&mut reason, modes[0].as_slice());
                push_str(&mut reason, ")");
                push_critical_suffix(&mut reason, critical);
                let level = if critical { RiskLevel::High } else { RiskLevel::Medium };
                push_finding(findings, level, &reason);
            }
        }
    } else if str_eq(name, "chown") && has_short_flag(a, 'R') {
        let targets = mode_or_owner_command_targets(a);
        if targets.len() > 0 {
            let critical = any_critical_target(&targets);
            let mut reason: Vec<char> = Vec::new();
            push_str(&mut reason, "recursive ownership change on ");
            let joined = join_strings(&targets, ", ");
            push_all(&mut reason, joined.as_slice());
            push_critical_suffix(&mut reason, critical);
            let level = if critical { RiskLevel::Critical } else { RiskLevel::High };
            push_finding(findings, level, &reason);
        }
    } else if str_eq(name, "truncate") {
        let targets = non_flag_args(a);
        if targets.len() > 0 {
            let mut reason: Vec<char> = Vec::new();
            push_str(&mut reason, "truncates ");
            let joined = join_strings(&targets, ", ");
            push_all(&mut reason, joined.as_slice());
            push_str(&mut reason, " — may discard file content");
            push_finding(findings, RiskLevel::Medium, &reason);
        }
    } else if str_eq(name, "shred") {
        let targets = non_flag_args(a);
        if targets.len() > 0 {
            let critical = any_critical_target(&targets);
            let mut reason: Vec<char> = Vec::new();
            push_str(&mut reason, "irrecoverably destroys the content of ");
            let joined = join_strings(&targets, ", ");
            push_all(&mut reason, joined.as_slice());
            push_critical_suffix(&mut reason, critical);
            let level = if critical { RiskLevel::Critical } else { RiskLevel::High };
            push_finding(findings, level, &reason);
        }
    } else if str_eq(name, "mv") {
        let reason = chars_of("mv may overwrite an existing path at the destination");
        push_finding(findings, RiskLevel::Medium, &reason);
    } else if str_eq(name, "kill") {
        let reason = chars_of("signals a sandbox-local process");
        push_finding(findings, RiskLevel::Medium, &reason);
    } else if str_eq(name, "safeshell-pkg") && a.len() > 0 && str_eq(a[0].as_str(), "remove") {
        let toolchain_critical = a.len() > 1 && is_toolchain_critical_package(a[1].as_str());
        let mut reason: Vec<char> = Vec::new();
        push_str(&mut reason, "removes package ");
        if a.len() > 1 {
            push_str(&mut reason, a[1].as_str());
        } else {
            push_str(&mut reason, "<unspecified>");
        }
        if toolchain_critical {
            push_str(&mut reason, " — a dependency of the simulated toolchain");
        } else {
            assert(reason@ + Seq::<char>::empty() =~= reason@);
        }
        let level = if toolchain_critical { RiskLevel::High } else { RiskLevel::Medium };
        push_finding(findings, level, &reason);
    }
}

/// Classifies a command: the strongest of its findings, or `None` when
/// nothing about it raises its risk above low.
#[verifier::rlimit(30)]
pub fn classify(cmd: &ParsedCommand, divergence: Option<&str>) -> (r: Option<RiskFinding>)
    ensures
        match (r, classification(cmd.stage(), match divergence { Some(d) => Some(d@), None => None })) {
            (Some(f), Some((level, reason))) => f.level == level && f.reason@ == reason,
            (None, None) => true,
            _ => false,
        },
{
    let ghost st = cmd.stage();
    let ghost dv = match divergence {
        Some(d) => Some(d@),
        None => None,
    };
    let mut findings: Vec<RiskFinding> = Vec::new();
    name_findings(cmd, &mut findings);
    let ghost after_name = findings_view(findings@);
    let mut truncating = false;
    let mut i: usize = 0;
    while i < cmd.redirections.len()
        invariant
            st == cmd.stage(),
            i <= cmd.redirections@.len(),
            truncating == exists|k: int| 0 <= k < i && (#[trigger] st.redirections[k]).0 == RedirectionKind::Truncate,
        decreases cmd.redirections.len() - i,
    {
        assert(st.redirections[i as int].0 == cmd.redirections@[i as int].kind);
        if cmd.redirections[i].kind == RedirectionKind::Truncate {
            truncating = true;
        }
        i = i + 1;
    }
    if truncating {
        let reason = chars_of("truncates or overwrites a file via `>` redirection");
        push_finding(&mut findings, RiskLevel::Medium, &reason);
    }
    let ghost after_redir = findings_view(findings@);
    assert(after_redir =~= after_name + (if exists|k: int|
        0 <= k < st.redirections.len() && (#[trigger] st.redirections[k]).0
            == RedirectionKind::Truncate {
        seq![(RiskLevel::Medium, "truncates or overwrites a file via `>` redirection"@)]
    } else {
        Seq::empty()
    }));
    let mut j: usize = 0;
    let mut env_arg: Option<usize> = None;
    while j < cmd.args.len()
        invariant_except_break
            env_arg is None,
            first_env_critical(st.args, 0) == first_env_critical(st.args, j as int),
        invariant
            st == cmd.stage(),
            j <= cmd.args@.len(),
        ensures
            match env_arg {
                Some(k) => k < cmd.args@.len() && first_env_critical(st.args, 0) == Some(st.args[k as int]),
                None => first_env_critical(st.args, 0) is None,
            },
        decreases cmd.args.len() - j,
    {
        assert(st.args[j as int] == cmd.args@[j as int].0@);
        match classify_target(cmd.args[j].as_str()) {
            Some(scope) => {
                if scope.is_environment_critical {
                    env_arg = Some(j);
                    break;
                }
            },
            None => {},
        }
        j = j + 1;
    }
    match env_arg {
        Some(k) => {
            let mut reason: Vec<char> = Vec::new();
            push_str(&mut reason, "targets an environment-critical path: ");
            push_str(&mut reason, cmd.args[k].as_str());
            push_finding(&mut findings, RiskLevel::High, &reason);
        },
        None => {},
    }
    let ghost after_env = findings_view(findings@);
    assert(after_env =~= after_redir + (match first_env_critical(st.args, 0) {
        Some(a) => seq![(RiskLevel::High, "targets an environment-critical path: "@ + a)],
        None => Seq::empty(),
    }));
    match divergence {
        Some(text) => {
            let mut reason: Vec<char> = Vec::new();
            push_str(&mut reason, "partially supported: ");
            push_str(&mut reason, text);
            push_finding(&mut findings, RiskLevel::Medium, &reason);
        },
        None => {},
    }
    let ghost fs = findings_view(findings@);
    assert(fs =~= after_env + (match dv {
        Some(t) => seq![(RiskLevel::Medium, "partially supported: "@ + t)],
        None => Seq::empty(),
    }));
    assert(fs =~= all_findings(st, dv));
    if findings.len() == 0 {
        return None;
    }
    let mut best: usize = 0;
    let mut k: usize = 1;
    while k < findings.len()
        invariant
            fs == findings_view(findings@),
            fs.len() > 0,
            best < k <= fs.len(),
            strongest_from(fs, 1, fs[0]) == strongest_from(fs, k as int, fs[best as int]),
        decreases findings.len() - k,
    {
        if findings[k].level.level_rank() >= findings[best].level.level_rank() {
            best = k;
        }
        k = k + 1;
    }
    let chosen = findings.remove(best);
    assert((chosen.level, chosen.reason@) == fs[best as int]);
    Some(chosen)
}

/// The size of a simulated change.
#[derive(Debug, Clone, Copy, Default)]
pub struct SimulationDiffStats {
    pub files_affected: u64,
    pub directories_affected: u64,
    pub bytes_deleted: u64,
    pub permission_changes: u64,
}

/// Whether a simulated change is large enough to raise the risk: more
/// than 100 files, 25 directories, 50 MiB deleted, or 100 permission
/// changes.
pub open spec fn exceeds_scope(stats: SimulationDiffStats) -> bool {
    stats.files_affected > 100 || stats.directories_affected > 25 || stats.bytes_deleted > 50
        * 1024 * 1024 || stats.permission_changes > 100
}

/// Raises the risk one level when the simulated change is large.
pub fn escalate_for_scope(current: RiskLevel, stats: &SimulationDiffStats) -> (r: RiskLevel)
    ensures
        r == (if exceeds_scope(*stats) {
            current.one_up()
        } else {
            current
        }),
        r.rank() >= current.rank(),
{
    let exceeds_threshold = stats.files_affected > 100 || stats.directories_affected > 25
        || stats.bytes_deleted > 50 * 1024 * 1024 || stats.permission_changes > 100;
    if exceeds_threshold {
        current.escalate_one_level()
    } else {
        current
    }
}


/// Arguments none of which starts with `-` are all non-flags.
proof fn lemma_non_flags_plain(args: Seq<Seq<char>>)
    requires
        forall|k: int| 0 <= k < args.len() ==> (#[trigger] args[k]).len() > 0 && args[k][0] != '-',
    ensures
        non_flags(args) == args,
    decreases args.len(),
{
    if args.len() > 0 {
        lemma_non_flags_plain(args.drop_last());
        assert(args.drop_last().push(args.last()) =~= args);
    }
}

/// `chmod` with an all-digit mode raises the world-writable finding exactly
/// when the mode's last digit gives others the write bit (2, 3, 6 or 7):
/// `755` and `644` raise nothing, while `666`, `662` and `777` raise it, at
/// Medium, or High when a target is the root or a top-level directory.
pub proof fn lemma_octal_chmod_world_writable(st: Stage, mode: Seq<char>, targets: Seq<Seq<char>>)
    requires
        st.name == "chmod"@,
        st.args == seq![mode] + targets,
        mode.len() > 0,
        forall|k: int| 0 <= k < mode.len() ==> '0' <= #[trigger] mode[k] <= '9',
        targets.len() > 0,
        forall|k: int| 0 <= k < targets.len() ==> (#[trigger] targets[k]).len() > 0 && targets[k][0] != '-',
        st.redirections.len() == 0,
        first_env_critical(st.args, 0) is None,
    ensures
        ({
            let d = mode.last();
            let writable = d == '2' || d == '3' || d == '6' || d == '7';
            &&& writable <==> classification(st, None) is Some
            &&& writable ==> classification(st, None) == Some(
                (
                    if any_critical(targets) {
                        RiskLevel::High
                    } else {
                        RiskLevel::Medium
                    },
                    "makes "@ + join(targets, ", "@) + " world-writable ("@ + mode + ")"@ + critical_suffix(
                        any_critical(targets),
                    ),
                ),
            )
        }),
{
    let args = st.args;
    assert forall|k: int| 0 <= k < args.len() implies (#[trigger] args[k]).len() > 0 && args[k][0] != '-' by {
        if k == 0 {
            assert(args[0] == mode);
            assert('0' <= mode[0] <= '9');
        } else {
            assert(args[k] == targets[k - 1]);
        }
    }
    lemma_non_flags_plain(args);
    assert(non_flags(args).drop_first() =~= targets);
    assert(non_flags(args)[0] == mode);
    assert(!has_short_flag_spec(args, 'R'));
    let d = mode.last();
    assert('0' <= d <= '9') by {
        assert(mode[mode.len() - 1] == d);
    }
    assert(world_writable_mode(mode) == (d == '2' || d == '3' || d == '6' || d == '7'));
    let fs = all_findings(st, None);
    assert(fs =~= command_findings(st));
}


/// A needle ending in `+w` found in `s` means `+w` is found there.
proof fn lemma_plus_w_infix(s: Seq<char>, needle: Seq<char>)
    requires
        needle.len() >= 2,
        needle.subrange(needle.len() - 2, needle.len() as int) == "+w"@,
        has_infix(s, needle),
    ensures
        has_infix(s, "+w"@),
{
    let k = choose|k: int| occurs_at(s, needle, k);
    let j = k + needle.len() - 2;
    assert(s.subrange(j, j + 2) =~= needle.subrange(needle.len() - 2, needle.len() as int));
    assert(occurs_at(s, "+w"@, j));
}

/// `chmod` with a symbolic mode (one that is not all digits) raises the
/// world-writable finding exactly when the mode adds `w`, i.e. holds `+w`
/// (`o+w`, `a+w`, `ugo+w` and `+w` all do; `u+x` does not).
pub proof fn lemma_symbolic_chmod_world_writable(st: Stage, mode: Seq<char>, targets: Seq<Seq<char>>)
    requires
        st.name == "chmod"@,
        st.args == seq![mode] + targets,
        mode.len() > 0,
        mode[0] != '-',
        exists|k: int| 0 <= k < mode.len() && !('0' <= #[trigger] mode[k] <= '9'),
        targets.len() > 0,
        forall|k: int| 0 <= k < targets.len() ==> (#[trigger] targets[k]).len() > 0 && targets[k][0] != '-',
        st.redirections.len() == 0,
        first_env_critical(st.args, 0) is None,
    ensures
        has_infix(mode, "+w"@) <==> classification(st, None) is Some,
{
    reveal_strlit("+w");
    reveal_strlit("o+w");
    reveal_strlit("a+w");
    reveal_strlit("ugo+w");
    let args = st.args;
    assert forall|k: int| 0 <= k < args.len() implies (#[trigger] args[k]).len() > 0 && args[k][0] != '-' by {
        if k == 0 {
            assert(args[0] == mode);
        } else {
            assert(args[k] == targets[k - 1]);
        }
    }
    lemma_non_flags_plain(args);
    assert(non_flags(args).drop_first() =~= targets);
    assert(non_flags(args)[0] == mode);
    assert(!has_short_flag_spec(args, 'R'));
    if has_infix(mode, "o+w"@) {
        assert("o+w"@.subrange(1, 3) =~= "+w"@);
        lemma_plus_w_infix(mode, "o+w"@);
    }
    if has_infix(mode, "a+w"@) {
        assert("a+w"@.subrange(1, 3) =~= "+w"@);
        lemma_plus_w_infix(mode, "a+w"@);
    }
    if has_infix(mode, "ugo+w"@) {
        assert("ugo+w"@.subrange(3, 5) =~= "+w"@);
        lemma_plus_w_infix(mode, "ugo+w"@);
    }
    assert(world_writable_mode(mode) == has_infix(mode, "+w"@));
    let fs = all_findings(st, None);
    assert(fs =~= command_findings(st));
}

} // verus!
