//! `safeshell-pkg`: the mock package manager over the session's package
//! list (`list`, `install NAME [VERSION]`, `remove NAME`).

use vstd::prelude::*;
use crate::handlers::CommandResult;
use crate::mock_packages::MockPackage;
use crate::order::{Keyed, keyed_view, sort_by_key, sort_keyed};
use crate::parser::Arg;
use crate::policy::risk::arg_views;

use crate::session::TerminalSession;
use crate::text::{chars_of, push_str, str_eq, string_from_chars};

verus! {

/// How a package is listed: name, version, and a mark when essential.
pub open spec fn package_line(p: MockPackage) -> Seq<char> {
    p.name@ + "  "@ + p.version@ + (if p.essential {
        "  [essential]"@
    } else {
        Seq::empty()
    }) + "\n"@
}

/// The packages keyed by name, each with its position.
pub open spec fn package_keys(ps: Seq<MockPackage>) -> Seq<Keyed> {
    Seq::new(ps.len(), |i: int| (ps[i].name@, i))
}

/// The lines of the first `n` entries of `order`, each naming a package of
/// `ps` by position.
pub open spec fn listed_lines(ps: Seq<MockPackage>, order: Seq<Keyed>, n: int) -> Seq<char>
    decreases n,
{
    if n <= 0 {
        Seq::empty()
    } else {
        listed_lines(ps, order, n - 1) + package_line(ps[order[n - 1].1])
    }
}

/// The package list as `safeshell-pkg list` prints it: sorted by name,
/// packages with equal names in installation order.
pub open spec fn package_listing(ps: Seq<MockPackage>) -> Seq<char> {
    let order = sort_by_key(package_keys(ps));
    listed_lines(ps, order, order.len() as int)
}

/// The position of the first package named `name`.
pub open spec fn position_named(ps: Seq<MockPackage>, name: Seq<char>, from: int) -> Option<int>
    decreases ps.len() - from,
{
    if from < 0 || from >= ps.len() {
        None
    } else if ps[from].name@ == name {
        Some(from)
    } else {
        position_named(ps, name, from + 1)
    }
}

fn find_package(ps: &Vec<MockPackage>, name: &str) -> (r: Option<usize>)
    ensures
        match r {
            Some(i) => position_named(ps@, name@, 0) == Some(i as int) && i < ps@.len(),
            None => position_named(ps@, name@, 0) is None,
        },
{
    let mut i: usize = 0;
    while i < ps.len()
        invariant
            i <= ps@.len(),
            position_named(ps@, name@, 0) == position_named(ps@, name@, i as int),
        decreases ps.len() - i,
    {
        if str_eq(ps[i].name.as_str(), name) {
            return Some(i);
        }
        i = i + 1;
    }
    None
}

fn package_keys_exec(ps: &Vec<MockPackage>) -> (r: Vec<(Vec<char>, usize)>)
    ensures
        keyed_view(r@) == package_keys(ps@),
{
    let mut out: Vec<(Vec<char>, usize)> = Vec::new();
    let mut i: usize = 0;
    while i < ps.len()
        invariant
            i <= ps@.len(),
            out@.len() == i,
            forall|k: int| 0 <= k < i ==> (#[trigger] out@[k]).0@ == ps@[k].name@ && out@[k].1 == k,
        decreases ps.len() - i,
    {
        out.push((chars_of(ps[i].name.as_str()), i));
        i = i + 1;
    }
    assert(keyed_view(out@) =~= package_keys(ps@));
    out
}

/// `safeshell-pkg list`: every installed package, sorted by name.
pub fn pkg_list(session: &TerminalSession) -> (r: CommandResult)
    ensures
        r.stdout@ == package_listing(session.packages_view()),
        r.stderr@.len() == 0,
        r.exit_code == 0,
{
    let ps = session.packages();
    let keys = package_keys_exec(ps);
    let order = sort_keyed(keys);
    let ghost ov = keyed_view(order@);
    proof {
        crate::order::lemma_sort_by_key(package_keys(ps@));
        assert forall|k: int| 0 <= k < ov.len() implies 0 <= #[trigger] ov[k].1 < ps@.len() by {
            crate::order::lemma_sort_by_key_member(package_keys(ps@), k);
            let j = choose|j: int| 0 <= j < package_keys(ps@).len() && package_keys(ps@)[j] == ov[k];
            assert(package_keys(ps@)[j].1 == j);
        }
    }
    let mut out: Vec<char> = Vec::new();
    let mut k: usize = 0;
    while k < order.len()
        invariant
            ps@ == session.packages_view(),
            ov == keyed_view(order@),
            ov == sort_by_key(package_keys(ps@)),
            forall|m: int| 0 <= m < ov.len() ==> 0 <= #[trigger] ov[m].1 < ps@.len(),
            k <= order@.len(),
            out@ == listed_lines(ps@, ov, k as int),
        decreases order.len() - k,
    {
        let idx = order[k].1;
        assert(ov[k as int].1 == idx as int);
        let p = &ps[idx];
        push_str(&mut out, p.name.as_str());
        push_str(&mut out, "  ");
        push_str(&mut out, p.version.as_str());
        if p.essential {
            push_str(&mut out, "  [essential]");
        }
        push_str(&mut out, "\n");
        k = k + 1;
        assert(out@ =~= listed_lines(ps@, ov, k as int));
    }
    let text = string_from_chars(out.as_slice());
    CommandResult::ok(text.as_str())
}

/// Whether the session's environment, directory, history and last exit
/// status are as they were.
pub open spec fn session_state_kept(before: TerminalSession, after: TerminalSession) -> bool {
    &&& after.env_view() == before.env_view()
    &&& after.cwd_view() == before.cwd_view()
    &&& after.history_view() == before.history_view()
    &&& after.exit_status_view() == before.exit_status_view()
}

/// What `safeshell-pkg install ARGS` prints and does: the package named by
/// the first argument, at the version given second (`1.0.0` when none), is
/// appended unless a package of that name is installed.
pub open spec fn install_effect(
    before: TerminalSession,
    after: TerminalSession,
    args: Seq<Seq<char>>,
    r: CommandResult,
) -> bool {
    &&& session_state_kept(before, after)
    &&& args.len() == 0 ==> {
        &&& r.stderr@ == "safeshell-pkg install: missing package name\n"@
        &&& r.exit_code == 1
        &&& after.packages_view() == before.packages_view()
    }
    &&& args.len() > 0 && position_named(before.packages_view(), args[0], 0) is Some ==> {
        &&& r.stderr@ == "safeshell-pkg install: '"@ + args[0] + "' is already installed\n"@
        &&& r.exit_code == 1
        &&& after.packages_view() == before.packages_view()
    }
    &&& args.len() > 0 && position_named(before.packages_view(), args[0], 0) is None ==> {
        let version = if args.len() > 1 { args[1] } else { "1.0.0"@ };
        &&& r.stdout@ == "installed "@ + args[0] + " "@ + version + "\n"@
        &&& r.stderr@.len() == 0
        &&& r.exit_code == 0
        &&& after.packages_view().len() == before.packages_view().len() + 1
        &&& after.packages_view().drop_last() == before.packages_view()
        &&& after.packages_view().last().name@ == args[0]
        &&& after.packages_view().last().version@ == version
        &&& !after.packages_view().last().essential
    }
}

/// `safeshell-pkg install NAME [VERSION]`.
pub fn pkg_install(session: &mut TerminalSession, args: &[Arg]) -> (r: CommandResult)
    ensures
        install_effect(*old(session), *final(session), arg_views(args@), r),
{
    if args.len() == 0 {
        return CommandResult::error("safeshell-pkg install: missing package name\n", 1);
    }
    let name = args[0].as_str();
    let version: &str = if args.len() > 1 {
        args[1].as_str()
    } else {
        "1.0.0"
    };
    if find_package(session.packages(), name).is_some() {
        let mut msg = chars_of("safeshell-pkg install: '");
        push_str(&mut msg, name);
        push_str(&mut msg, "' is already installed\n");
        let text = string_from_chars(msg.as_slice());
        return CommandResult::error(text.as_str(), 1);
    }
    let package = MockPackage { name: name.to_string(), version: version.to_string(), essential: false };
    session.add_package(package);
    let mut msg = chars_of("installed ");
    push_str(&mut msg, name);
    push_str(&mut msg, " ");
    push_str(&mut msg, version);
    push_str(&mut msg, "\n");
    let text = string_from_chars(msg.as_slice());
    proof {
        let ps = final(session).packages_view();
        assert(ps.drop_last() =~= old(session).packages_view());
    }
    CommandResult::ok(text.as_str())
}

/// The note after a removal: a warning when the package was essential.
pub open spec fn removal_note(essential: bool) -> Seq<char> {
    if essential {
        " \u{2014} this package was marked essential; the simulated toolchain may now be broken\n"@
    } else {
        "\n"@
    }
}

/// What `safeshell-pkg remove ARGS` prints and does: the first package
/// named by the first argument is removed, with a warning when it was
/// essential.
pub open spec fn remove_effect(
    before: TerminalSession,
    after: TerminalSession,
    args: Seq<Seq<char>>,
    r: CommandResult,
) -> bool {
    &&& session_state_kept(before, after)
    &&& args.len() == 0 ==> {
        &&& r.stderr@ == "safeshell-pkg remove: missing package name\n"@
        &&& r.exit_code == 1
        &&& after.packages_view() == before.packages_view()
    }
    &&& args.len() > 0 ==> match position_named(before.packages_view(), args[0], 0) {
        None => {
            &&& r.stderr@ == "safeshell-pkg remove: '"@ + args[0] + "' is not installed\n"@
            &&& r.exit_code == 1
            &&& after.packages_view() == before.packages_view()
        },
        Some(i) => {
            let p = before.packages_view()[i];
            &&& r.stdout@ == "removed "@ + p.name@ + " "@ + p.version@ + removal_note(p.essential)
            &&& r.stderr@.len() == 0
            &&& r.exit_code == 0
            &&& after.packages_view() == before.packages_view().remove(i)
        },
    }
}

/// `safeshell-pkg remove NAME`.
pub fn pkg_remove(session: &mut TerminalSession, args: &[Arg]) -> (r: CommandResult)
    ensures
        remove_effect(*old(session), *final(session), arg_views(args@), r),
{
    if args.len() == 0 {
        return CommandResult::error("safeshell-pkg remove: missing package name\n", 1);
    }
    let name = args[0].as_str();
    match find_package(session.packages(), name) {
        None => {
            let mut msg = chars_of("safeshell-pkg remove: '");
            push_str(&mut msg, name);
            push_str(&mut msg, "' is not installed\n");
            let text = string_from_chars(msg.as_slice());
            CommandResult::error(text.as_str(), 1)
        },
        Some(i) => {
            let removed = session.remove_package(i);
            let mut msg = chars_of("removed ");
            push_str(&mut msg, removed.name.as_str());
            push_str(&mut msg, " ");
            push_str(&mut msg, removed.version.as_str());
            if removed.essential {
                push_str(
                    &mut msg,
                    " \u{2014} this package was marked essential; the simulated toolchain may now be broken\n",
                );
            } else {
                push_str(&mut msg, "\n");
            }
            let text = string_from_chars(msg.as_slice());
            CommandResult::ok(text.as_str())
        },
    }
}

/// The arguments after the first.
fn tail_args(args: &[Arg]) -> (r: Vec<Arg>)
    requires
        args@.len() > 0,
    ensures
        arg_views(r@) == arg_views(args@).skip(1),
{
    let mut out: Vec<Arg> = Vec::new();
    let mut i: usize = 1;
    while i < args.len()
        invariant
            1 <= i <= args@.len(),
            out@.len() == i - 1,
            forall|k: int| 0 <= k < out@.len() ==> (#[trigger] out@[k]).0@ == args@[k + 1].0@,
        decreases args.len() - i,
    {
        out.push(Arg(args[i].0.clone()));
        i = i + 1;
    }
    assert(arg_views(out@) =~= arg_views(args@).skip(1));
    out
}

/// The message for a subcommand other than `list`, `install`, `remove`.
pub open spec fn unknown_subcommand(other: Seq<char>) -> Seq<char> {
    "safeshell-pkg: unknown subcommand '"@ + other + "' (expected list|install|remove)\n"@
}

/// `safeshell-pkg SUBCOMMAND ...`: dispatches on the first argument.
pub fn cmd_safeshell_pkg(session: &mut TerminalSession, args: &[Arg]) -> (r: CommandResult)
    ensures
        session_state_kept(*old(session), *final(session)),
        args@.len() == 0 ==> r.stderr@ == "safeshell-pkg: missing subcommand (expected list|install|remove)\n"@
            && r.exit_code == 1 && final(session).packages_view() == old(session).packages_view(),
        args@.len() > 0 && args@[0].0@ == "list"@ ==> r.stdout@ == package_listing(
            old(session).packages_view(),
        ) && r.stderr@.len() == 0 && r.exit_code == 0 && final(session).packages_view()
            == old(session).packages_view(),
        args@.len() > 0 && args@[0].0@ == "install"@ ==> install_effect(
            *old(session),
            *final(session),
            arg_views(args@).skip(1),
            r,
        ),
        args@.len() > 0 && args@[0].0@ == "remove"@ ==> remove_effect(
            *old(session),
            *final(session),
            arg_views(args@).skip(1),
            r,
        ),
        args@.len() > 0 && args@[0].0@ != "list"@ && args@[0].0@ != "install"@ && args@[0].0@
            != "remove"@ ==> r.stderr@ == unknown_subcommand(args@[0].0@) && r.exit_code == 1
            && final(session).packages_view() == old(session).packages_view(),
{
    if args.len() == 0 {
        return CommandResult::error(
            "safeshell-pkg: missing subcommand (expected list|install|remove)\n",
            1,
        );
    }
    let sub = args[0].as_str();
    proof {
        reveal_strlit("list");
        reveal_strlit("install");
        reveal_strlit("remove");
        assert("list"@.len() == 4 && "install"@.len() == 7 && "remove"@.len() == 6);
    }
    if str_eq(sub, "list") {
        pkg_list(session)
    } else if str_eq(sub, "install") {
        let rest = tail_args(args);
        pkg_install(session, rest.as_slice())
    } else if str_eq(sub, "remove") {
        let rest = tail_args(args);
        pkg_remove(session, rest.as_slice())
    } else {
        let mut msg = chars_of("safeshell-pkg: unknown subcommand '");
        push_str(&mut msg, sub);
        push_str(&mut msg, "' (expected list|install|remove)\n");
        let text = string_from_chars(msg.as_slice());
        CommandResult::error(text.as_str(), 1)
    }
}

proof fn lemma_position_after_push(ps: Seq<MockPackage>, p: MockPackage, from: int)
    requires
        0 <= from <= ps.len(),
        position_named(ps, p.name@, from) is None,
    ensures
        position_named(ps.push(p), p.name@, from) == Some(ps.len() as int),
    decreases ps.len() - from,
{
    if from < ps.len() {
        assert(ps.push(p)[from] == ps[from]);
        lemma_position_after_push(ps, p, from + 1);
    }
}

/// Installing a package whose name is not installed and then removing
/// that name gives back the package list as it was: the removal finds the
/// new package, and only it.
pub proof fn lemma_install_then_remove(ps: Seq<MockPackage>, p: MockPackage)
    requires
        position_named(ps, p.name@, 0) is None,
    ensures
        position_named(ps.push(p), p.name@, 0) == Some(ps.len() as int),
        ps.push(p).remove(ps.len() as int) == ps,
{
    lemma_position_after_push(ps, p, 0);
    assert(ps.push(p).remove(ps.len() as int) =~= ps);
}

} // verus!
