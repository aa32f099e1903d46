//! The informational commands: `env` and `printenv` over the session's
//! environment, and the output of `whoami`, `id` and `uname` from the
//! identity and system names the host reports.

use vstd::prelude::*;
use crate::handlers::{CommandResult, ShellHost};
use crate::order::{Keyed, keyed_view, sort_by_key, sort_keyed};
use crate::parser::Arg;
use crate::policy::risk::arg_views;
use crate::session::TerminalSession;
use crate::text::{decimal, decimal_text};
use crate::text::{chars_of, push_all, push_str, str_eq, string_from_chars};

verus! {

/// The environment's names keyed for sorting, each with its position.
pub open spec fn name_keys(names: Seq<Seq<char>>) -> Seq<Keyed> {
    Seq::new(names.len(), |i: int| (names[i], i))
}

/// The `NAME=value` lines of the first `n` names in `order`.
pub open spec fn env_lines(
    env: Map<Seq<char>, Seq<char>>,
    names: Seq<Seq<char>>,
    order: Seq<Keyed>,
    n: int,
) -> Seq<char>
    decreases n,
{
    if n <= 0 {
        Seq::empty()
    } else {
        let name = names[order[n - 1].1];
        env_lines(env, names, order, n - 1) + name + "="@ + env[name] + "\n"@
    }
}

/// What `env` prints: every variable as `NAME=value`, sorted by name.
pub open spec fn env_listing(env: Map<Seq<char>, Seq<char>>, names: Seq<Seq<char>>) -> Seq<char> {
    let order = sort_by_key(name_keys(names));
    env_lines(env, names, order, order.len() as int)
}

/// `env`: the session's variables as `NAME=value` lines, sorted by name.
pub fn cmd_env(session: &TerminalSession) -> (r: CommandResult)
    ensures
        r.stdout@ == env_listing(session.env_view(), session.env_names_view()),
        r.stderr@.len() == 0,
        r.exit_code == 0,
{
    let env = session.env();
    let names = env.names();
    let ghost nv = session.env_names_view();
    let mut keys: Vec<(Vec<char>, usize)> = Vec::new();
    let mut i: usize = 0;
    while i < names.len()
        invariant
            names@.map_values(|s: String| s@) == nv,
            i <= names@.len(),
            keys@.len() == i,
            forall|k: int| 0 <= k < i ==> (#[trigger] keys@[k]).0@ == nv[k] && keys@[k].1 == k,
        decreases names.len() - i,
    {
        keys.push((chars_of(names[i].as_str()), i));
        i = i + 1;
    }
    assert(keyed_view(keys@) =~= name_keys(nv));
    let order = sort_keyed(keys);
    let ghost ov = keyed_view(order@);
    proof {
        assert forall|k: int| 0 <= k < ov.len() implies 0 <= #[trigger] ov[k].1 < nv.len() by {
            crate::order::lemma_sort_by_key_member(name_keys(nv), k);
            let j = choose|j: int| 0 <= j < name_keys(nv).len() && name_keys(nv)[j] == ov[k];
            assert(name_keys(nv)[j].1 == j);
        }
        crate::order::lemma_sort_by_key(name_keys(nv));
    }
    let mut out: Vec<char> = Vec::new();
    let mut k: usize = 0;
    while k < order.len()
        invariant
            names@.map_values(|s: String| s@) == nv,
            env@ == session.env_view(),
            forall|q: Seq<char>| #[trigger] env@.contains_key(q) <==> nv.contains(q),
            ov == keyed_view(order@),
            ov == sort_by_key(name_keys(nv)),
            forall|m: int| 0 <= m < ov.len() ==> 0 <= #[trigger] ov[m].1 < nv.len(),
            k <= order@.len(),
            out@ == env_lines(session.env_view(), nv, ov, k as int),
        decreases order.len() - k,
    {
        let idx = order[k].1;
        assert(ov[k as int].1 == idx as int);
        let name = names[idx].as_str();
        assert(name@ == nv[idx as int]);
        assert(nv.contains(name@));
        match env.get(name) {
            Some(value) => {
                push_str(&mut out, name);
                push_str(&mut out, "=");
                push_str(&mut out, value.as_str());
                push_str(&mut out, "\n");
            },
            None => {
                assert(false);
            },
        }
        k = k + 1;
        assert(out@ =~= env_lines(session.env_view(), nv, ov, k as int));
    }
    let text = string_from_chars(out.as_slice());
    CommandResult::ok(text.as_str())
}

/// What `printenv NAME...` prints: the value of each set name, one per
/// line, in argument order.
pub open spec fn printenv_lines(env: Map<Seq<char>, Seq<char>>, names: Seq<Seq<char>>) -> Seq<char>
    decreases names.len(),
{
    if names.len() == 0 {
        Seq::empty()
    } else {
        printenv_lines(env, names.drop_last()) + if env.contains_key(names.last()) {
            env[names.last()] + "\n"@
        } else {
            Seq::empty()
        }
    }
}

/// `printenv [NAME...]`: with no names, as `env`; otherwise the value of
/// each set name, exiting 1 when some name is unset.
pub fn cmd_printenv(session: &TerminalSession, args: &[Arg]) -> (r: CommandResult)
    ensures
        args@.len() == 0 ==> r.stdout@ == env_listing(session.env_view(), session.env_names_view())
            && r.exit_code == 0,
        args@.len() > 0 ==> {
            &&& r.stdout@ == printenv_lines(session.env_view(), arg_views(args@))
            &&& r.exit_code == (if (forall|k: int|
                0 <= k < args@.len() ==> session.env_view().contains_key(#[trigger] arg_views(args@)[k])) {
                0i32
            } else {
                1i32
            })
        },
        r.stderr@.len() == 0,
{
    if args.len() == 0 {
        return cmd_env(session);
    }
    let ghost av = arg_views(args@);
    let env = session.env();
    let mut out: Vec<char> = Vec::new();
    let mut exit_code: i32 = 0;
    let mut i: usize = 0;
    while i < args.len()
        invariant
            av == arg_views(args@),
            env@ == session.env_view(),
            i <= args@.len(),
            out@ == printenv_lines(env@, av.take(i as int)),
            exit_code == (if (forall|k: int| 0 <= k < i ==> env@.contains_key(#[trigger] av[k])) {
                0i32
            } else {
                1i32
            }),
        decreases args.len() - i,
    {
        let name = args[i].as_str();
        assert(name@ == av[i as int]);
        assert(av.take(i + 1).drop_last() =~= av.take(i as int));
        match env.get(name) {
            Some(v) => {
                push_str(&mut out, v.as_str());
                push_str(&mut out, "\n");
            },
            None => {
                exit_code = 1;
            },
        }
        i = i + 1;
        assert(out@ =~= printenv_lines(env@, av.take(i as int)));
    }
    assert(av.take(i as int) =~= av);
    let text = string_from_chars(out.as_slice());
    CommandResult { stdout: text, stderr: String::new(), exit_code }
}

/// How a user or group is named: by its name when the host knows one,
/// else by its number.
pub open spec fn id_label(name: Option<Seq<char>>, id: u32) -> Seq<char> {
    match name {
        Some(n) => n,
        None => decimal(id as nat),
    }
}

fn id_label_exec(name: Option<String>, id: u32) -> (s: Vec<char>)
    ensures
        s@ == id_label(
            match name {
                Some(n) => Some(n@),
                None => None,
            },
            id,
        ),
{
    match name {
        Some(n) => chars_of(n.as_str()),
        None => decimal_text(id as usize),
    }
}

/// `whoami`: the current user's name (its number when it has none).
pub fn cmd_whoami(user_name: Option<String>, uid: u32) -> (r: CommandResult)
    ensures
        r.stdout@ == id_label(
            match user_name {
                Some(n) => Some(n@),
                None => None,
            },
            uid,
        ) + "\n"@,
        r.stderr@.len() == 0,
        r.exit_code == 0,
{
    let mut out = id_label_exec(user_name, uid);
    push_str(&mut out, "\n");
    let text = string_from_chars(out.as_slice());
    CommandResult::ok(text.as_str())
}

/// `id`: `uid=N(name) gid=M(group)`.
pub fn cmd_id(user_name: Option<String>, uid: u32, group_name: Option<String>, gid: u32) -> (r:
    CommandResult)
    ensures
        r.stdout@ == "uid="@ + decimal(uid as nat) + "("@ + id_label(
            match user_name {
                Some(n) => Some(n@),
                None => None,
            },
            uid,
        ) + ") gid="@ + decimal(gid as nat) + "("@ + id_label(
            match group_name {
                Some(n) => Some(n@),
                None => None,
            },
            gid,
        ) + ")\n"@,
        r.stderr@.len() == 0,
        r.exit_code == 0,
{
    let mut out = chars_of("uid=");
    let u = decimal_text(uid as usize);
    push_all(&mut out, u.as_slice());
    push_str(&mut out, "(");
    let un = id_label_exec(user_name, uid);
    push_all(&mut out, un.as_slice());
    push_str(&mut out, ") gid=");
    let g = decimal_text(gid as usize);
    push_all(&mut out, g.as_slice());
    push_str(&mut out, "(");
    let gn = id_label_exec(group_name, gid);
    push_all(&mut out, gn.as_slice());
    push_str(&mut out, ")\n");
    let text = string_from_chars(out.as_slice());
    CommandResult::ok(text.as_str())
}

/// The system names `uname` reports.
pub struct SystemNames {
    pub sysname: String,
    pub nodename: String,
    pub release: String,
    pub machine: String,
}

/// What `uname` prints for its arguments: all four names under `-a`,
/// otherwise the first of `-s` (or no argument), `-n`, `-r`, `-m` that is
/// given, and the system name when none is.
pub open spec fn uname_text(args: Seq<Seq<char>>, n: SystemNames) -> Seq<char> {
    if args.contains("-a"@) {
        n.sysname@ + " "@ + n.nodename@ + " "@ + n.release@ + " "@ + n.machine@ + "\n"@
    } else if args.contains("-s"@) || args.len() == 0 {
        n.sysname@ + "\n"@
    } else if args.contains("-n"@) {
        n.nodename@ + "\n"@
    } else if args.contains("-r"@) {
        n.release@ + "\n"@
    } else if args.contains("-m"@) {
        n.machine@ + "\n"@
    } else {
        n.sysname@ + "\n"@
    }
}

fn has_arg(args: &[Arg], word: &str) -> (b: bool)
    ensures
        b == arg_views(args@).contains(word@),
{
    let ghost av = arg_views(args@);
    let mut i: usize = 0;
    while i < args.len()
        invariant
            av == arg_views(args@),
            i <= args@.len(),
            forall|k: int| 0 <= k < i ==> av[k] != word@,
        decreases args.len() - i,
    {
        if str_eq(args[i].as_str(), word) {
            assert(av[i as int] == word@);
            return true;
        }
        i = i + 1;
    }
    false
}

/// `uname [-a|-s|-n|-r|-m]` over the names the host reported.
pub fn cmd_uname(args: &[Arg], names: &SystemNames) -> (r: CommandResult)
    ensures
        r.stdout@ == uname_text(arg_views(args@), *names),
        r.stderr@.len() == 0,
        r.exit_code == 0,
{
    let mut out: Vec<char> = Vec::new();
    if has_arg(args, "-a") {
        push_str(&mut out, names.sysname.as_str());
        push_str(&mut out, " ");
        push_str(&mut out, names.nodename.as_str());
        push_str(&mut out, " ");
        push_str(&mut out, names.release.as_str());
        push_str(&mut out, " ");
        push_str(&mut out, names.machine.as_str());
    } else if has_arg(args, "-s") || args.len() == 0 {
        push_str(&mut out, names.sysname.as_str());
    } else if has_arg(args, "-n") {
        push_str(&mut out, names.nodename.as_str());
    } else if has_arg(args, "-r") {
        push_str(&mut out, names.release.as_str());
    } else if has_arg(args, "-m") {
        push_str(&mut out, names.machine.as_str());
    } else {
        push_str(&mut out, names.sysname.as_str());
    }
    push_str(&mut out, "\n");
    let text = string_from_chars(out.as_slice());
    CommandResult::ok(text.as_str())
}

} // verus!

verus! {

/// `sleep SECONDS`: without an operand it fails; otherwise the host waits
/// for the first operand's interval (a float, so parsed there).
pub fn cmd_sleep<H: ShellHost>(host: &H, args: &[Arg]) -> (r: CommandResult)
    ensures
        args.len() == 0 ==> r.stdout@.len() == 0 && r.stderr@ == "sleep: missing operand\n"@ && r.exit_code
            == 1,
{
    if args.len() == 0 {
        return CommandResult::error("sleep: missing operand\n", 1);
    }
    host.sleep_for(args[0].as_str())
}

} // verus!
