//! SafeShell's command handlers: a command's result, option parsing,
//! operand checks, glob matching, and each handler's walk over its
//! operands through the layered file view. The view answers from the
//! host's layer directories, so what the handlers promise holds for
//! whatever it answers.

pub mod fs_ext;
pub mod info;
pub mod pkg;
pub mod text_filters;

use vstd::prelude::*;
use crate::fs_abstraction::SandboxPath;
use crate::parser::{Arg, Redirection, RedirectionKind};
use crate::handlers::fs_ext::{cmd_chmod, cmd_chown, cmd_cp, cmd_df, cmd_du, cmd_find, cmd_mv, cmd_rmdir, cmd_shred, cmd_truncate};
use crate::handlers::info::{cmd_env, cmd_id, cmd_printenv, cmd_sleep, cmd_uname, cmd_whoami, SystemNames};
use crate::handlers::pkg::cmd_safeshell_pkg;
use crate::handlers::text_filters::{cmd_cut, cmd_date, cmd_grep, cmd_head, cmd_sort, cmd_tail, cmd_uniq, cmd_wc, FilterRunner};
use crate::sandbox::worker::FileKind;
use crate::simulation::resolver::{FsError, LayeredView};
use crate::handlers::fs_ext::{resolve_arg, resolved_arg};
use crate::session::TerminalSession;
use crate::policy::risk::arg_views;
use crate::handlers::fs_ext::{flag_chars, operands, short_flags};
use crate::order::{Keyed, keyed_view, sort_by_key, sort_keyed};
use crate::simulation::diff::string_views;
use crate::text::{push_all, text_from_bytes, text_of_bytes, str_eq, contains_char, chars_eq, chars_of, first_occurrence_from, lemma_first_occurrence_from, occurs_at, has_prefix, has_suffix, join, join_strings, push_str, string_from_chars};

verus! {

/// What a command printed and how it exited.
#[derive(Debug, Clone, PartialEq, Eq)]
pub struct CommandResult {
    pub stdout: String,
    pub stderr: String,
    pub exit_code: i32,
}

impl CommandResult {
    /// Success with `stdout` and nothing on stderr.
    pub fn ok(stdout: &str) -> (r: Self)
        ensures
            r.stdout@ == stdout@,
            r.stderr@ == Seq::<char>::empty(),
            r.exit_code == 0,
    {
        CommandResult { stdout: stdout.to_string(), stderr: String::new(), exit_code: 0 }
    }

    /// Failure with `stderr` and `exit_code`, nothing on stdout.
    pub fn error(stderr: &str, exit_code: i32) -> (r: Self)
        ensures
            r.stdout@ == Seq::<char>::empty(),
            r.stderr@ == stderr@,
            r.exit_code == exit_code,
    {
        CommandResult { stdout: String::new(), stderr: stderr.to_string(), exit_code }
    }
}

/// `echo`: the arguments joined with single spaces, and a newline.
pub fn cmd_echo(args: &[Arg]) -> (r: CommandResult)
    ensures
        r.stdout@ == join(arg_views(args@), " "@) + "\n"@,
        r.stderr@.len() == 0,
        r.exit_code == 0,
{
    let ghost av = arg_views(args@);
    let mut words: Vec<Vec<char>> = Vec::new();
    let mut i: usize = 0;
    while i < args.len()
        invariant
            av == arg_views(args@),
            i <= args@.len(),
            words@.len() == i,
            forall|k: int| 0 <= k < i ==> #[trigger] words@[k]@ == av[k],
        decreases args.len() - i,
    {
        words.push(chars_of(args[i].as_str()));
        i = i + 1;
    }
    assert(words@.map_values(|p: Vec<char>| p@) =~= av);
    let mut out = join_strings(&words, " ");
    push_str(&mut out, "\n");
    let text = string_from_chars(out.as_slice());
    CommandResult::ok(text.as_str())
}

/// Whether `name` matches the glob `pattern`, in which `*` stands for any
/// run of characters (the empty one too) and every other character for
/// itself.
pub open spec fn glob_spec(pattern: Seq<char>, name: Seq<char>) -> bool
    decreases pattern.len(), name.len(),
{
    if pattern.len() == 0 {
        name.len() == 0
    } else if pattern[0] == '*' {
        glob_spec(pattern.skip(1), name) || (name.len() > 0 && glob_spec(pattern, name.skip(1)))
    } else {
        name.len() > 0 && name[0] == pattern[0] && glob_spec(pattern.skip(1), name.skip(1))
    }
}

/// A literal run matches exactly itself, after which the rest of the
/// pattern matches the rest of the name.
proof fn lemma_glob_literal(l: Seq<char>, q: Seq<char>, t: Seq<char>)
    requires
        !l.contains('*'),
    ensures
        glob_spec(l + q, t) == (has_prefix(t, l) && glob_spec(q, t.skip(l.len() as int))),
    decreases l.len(),
{
    if l.len() == 0 {
        assert(l + q =~= q);
        assert(t.skip(0) =~= t);
        assert(t.subrange(0, 0) =~= l);
    } else {
        assert(l[0] != '*') by {
            if l[0] == '*' {
                assert(l.contains('*'));
            }
        }
        let l1 = l.skip(1);
        assert(!l1.contains('*')) by {
            if l1.contains('*') {
                let k = choose|k: int| 0 <= k < l1.len() && l1[k] == '*';
                assert(l[k + 1] == '*');
            }
        }
        assert((l + q)[0] == l[0]);
        assert((l + q).skip(1) =~= l1 + q);
        if t.len() > 0 {
            lemma_glob_literal(l1, q, t.skip(1));
            if l.len() <= t.len() {
                assert(t.skip(1).skip(l1.len() as int) =~= t.skip(l.len() as int));
            }
            if has_prefix(t, l) {
                assert(t.skip(1).subrange(0, l1.len() as int) =~= l1);
                assert(t[0] == t.subrange(0, l.len() as int)[0]);
            }
            if t[0] == l[0] && has_prefix(t.skip(1), l1) {
                assert forall|i: int| 0 <= i < l.len() implies #[trigger] t.subrange(0, l.len() as int)[i] == l[i] by {
                    if i > 0 {
                        assert(t.skip(1).subrange(0, l1.len() as int)[i - 1] == l1[i - 1]);
                    }
                }
                assert(t.subrange(0, l.len() as int) =~= l);
            }
        }
    }
}

/// A star matches when the rest of the pattern matches some suffix.
proof fn lemma_glob_star(q: Seq<char>, t: Seq<char>)
    ensures
        glob_spec(seq!['*'] + q, t) == (exists|k: int|
            0 <= k <= t.len() && #[trigger] glob_spec(q, t.skip(k))),
    decreases t.len(),
{
    let p = seq!['*'] + q;
    assert(p[0] == '*');
    assert(p.skip(1) =~= q);
    assert(t.skip(0) =~= t);
    if glob_spec(q, t) {
        assert(glob_spec(q, t.skip(0)));
    }
    if t.len() > 0 {
        lemma_glob_star(q, t.skip(1));
        if glob_spec(p, t.skip(1)) {
            let k = choose|k: int| 0 <= k <= t.skip(1).len() && #[trigger] glob_spec(q, t.skip(1).skip(k));
            assert(t.skip(1).skip(k) =~= t.skip(k + 1));
            assert(glob_spec(q, t.skip(k + 1)));
        }
        if exists|k: int| 0 <= k <= t.len() && #[trigger] glob_spec(q, t.skip(k)) {
            let k = choose|k: int| 0 <= k <= t.len() && #[trigger] glob_spec(q, t.skip(k));
            if k > 0 {
                assert(t.skip(1).skip(k - 1) =~= t.skip(k));
                assert(glob_spec(q, t.skip(1).skip(k - 1)));
            }
        }
    } else {
        if exists|k: int| 0 <= k <= t.len() && #[trigger] glob_spec(q, t.skip(k)) {
            let k = choose|k: int| 0 <= k <= t.len() && #[trigger] glob_spec(q, t.skip(k));
            assert(k == 0);
        }
    }
}

/// A pattern starting with a star that matches a suffix of a name also
/// matches the whole name.
proof fn lemma_glob_star_extends(q: Seq<char>, t: Seq<char>, d: int)
    requires
        0 <= d <= t.len(),
        glob_spec(seq!['*'] + q, t.skip(d)),
    ensures
        glob_spec(seq!['*'] + q, t),
{
    lemma_glob_star(q, t.skip(d));
    lemma_glob_star(q, t);
    let k = choose|k: int| 0 <= k <= t.skip(d).len() && #[trigger] glob_spec(q, t.skip(d).skip(k));
    assert(t.skip(d).skip(k) =~= t.skip(d + k));
    assert(glob_spec(q, t.skip(d + k)));
}

/// Two stars in a row match as one does.
proof fn lemma_glob_double_star(rest: Seq<char>, u: Seq<char>)
    ensures
        glob_spec(seq!['*'] + (seq!['*'] + rest), u) == glob_spec(seq!['*'] + rest, u),
{
    lemma_glob_star(seq!['*'] + rest, u);
    assert(u.skip(0) =~= u);
    if glob_spec(seq!['*'] + rest, u) {
        assert(glob_spec(seq!['*'] + rest, u.skip(0)));
    }
    if glob_spec(seq!['*'] + (seq!['*'] + rest), u) {
        let k = choose|k: int| 0 <= k <= u.len() && #[trigger] glob_spec(seq!['*'] + rest, u.skip(k));
        lemma_glob_star_extends(rest, u, k);
    }
}

/// A star, a literal run and a final star-led rest match where the
/// leftmost occurrence of the run does: any later occurrence leaves less
/// for the rest to match.
proof fn lemma_glob_middle(seg: Seq<char>, rest: Seq<char>, s: Seq<char>, pos: int)
    requires
        !seg.contains('*'),
        0 <= pos <= s.len(),
    ensures
        glob_spec(seq!['*'] + (seg + (seq!['*'] + rest)), s.skip(pos)) == match first_occurrence_from(
            s,
            seg,
            pos,
        ) {
            Some(j) => glob_spec(seq!['*'] + rest, s.skip(j + seg.len())),
            None => false,
        },
{
    let q = seg + (seq!['*'] + rest);
    let u = s.skip(pos);
    lemma_glob_star(q, u);
    lemma_first_occurrence_from(s, seg, pos);
    if glob_spec(seq!['*'] + q, u) {
        let k = choose|k: int| 0 <= k <= u.len() && #[trigger] glob_spec(q, u.skip(k));
        lemma_glob_literal(seg, seq!['*'] + rest, u.skip(k));
        assert(u.skip(k) =~= s.skip(pos + k));
        assert(s.skip(pos + k).subrange(0, seg.len() as int) =~= s.subrange(pos + k, pos + k + seg.len()));
        assert(occurs_at(s, seg, pos + k));
        let j = first_occurrence_from(s, seg, pos)->0;
        assert(j <= pos + k);
        assert(s.skip(pos + k).skip(seg.len() as int) =~= s.skip(j + seg.len()).skip(pos + k - j));
        lemma_glob_star_extends(rest, s.skip(j + seg.len()), pos + k - j);
    }
    match first_occurrence_from(s, seg, pos) {
        Some(j) => {
            if glob_spec(seq!['*'] + rest, s.skip(j + seg.len())) {
                let k = j - pos;
                assert(u.skip(k) =~= s.skip(j));
                lemma_glob_literal(seg, seq!['*'] + rest, s.skip(j));
                assert(s.skip(j).subrange(0, seg.len() as int) =~= s.subrange(j, j + seg.len()));
                assert(s.skip(j).skip(seg.len() as int) =~= s.skip(j + seg.len()));
                assert(glob_spec(q, u.skip(k)));
            }
        },
        None => {},
    }
}

/// A star and a final literal run match exactly the names ending in it.
proof fn lemma_glob_last(seg: Seq<char>, u: Seq<char>)
    requires
        !seg.contains('*'),
    ensures
        glob_spec(seq!['*'] + seg, u) == has_suffix(u, seg),
{
    lemma_glob_star(seg, u);
    if glob_spec(seq!['*'] + seg, u) {
        let k = choose|k: int| 0 <= k <= u.len() && #[trigger] glob_spec(seg, u.skip(k));
        lemma_glob_literal(seg, Seq::empty(), u.skip(k));
        assert(seg + Seq::<char>::empty() =~= seg);
        assert(u.skip(k).subrange(0, seg.len() as int) =~= u.skip(k));
        assert(u.subrange(u.len() - seg.len(), u.len() as int) =~= u.skip(k));
    }
    if has_suffix(u, seg) {
        let k = u.len() - seg.len();
        lemma_glob_literal(seg, Seq::empty(), u.skip(k));
        assert(seg + Seq::<char>::empty() =~= seg);
        assert(u.skip(k) =~= u.subrange(u.len() - seg.len(), u.len() as int));
        assert(u.skip(k).subrange(0, seg.len() as int) =~= seg);
        assert(u.skip(k).skip(seg.len() as int) =~= Seq::<char>::empty());
        assert(glob_spec(seg, u.skip(k)));
    }
}

/// The position of the first `*` in `p` at or after `from`, or `p`'s
/// length.
fn next_star(p: &Vec<char>, from: usize) -> (r: usize)
    requires
        from <= p@.len(),
    ensures
        from <= r <= p@.len(),
        r < p@.len() ==> p@[r as int] == '*',
        !p@.subrange(from as int, r as int).contains('*'),
{
    let mut i = from;
    while i < p.len() && p[i] != '*'
        invariant
            from <= i <= p@.len(),
            forall|k: int| from <= k < i ==> p@[k] != '*',
        decreases p.len() - i,
    {
        i = i + 1;
    }
    assert forall|k: int| 0 <= k < i - from implies p@.subrange(from as int, i as int)[k] != '*' by {
        assert(p@.subrange(from as int, i as int)[k] == p@[from + k]);
    }
    i
}

fn sub_chars(p: &Vec<char>, lo: usize, hi: usize) -> (r: Vec<char>)
    requires
        lo <= hi <= p@.len(),
    ensures
        r@ == p@.subrange(lo as int, hi as int),
{
    let mut out: Vec<char> = Vec::new();
    let mut i = lo;
    while i < hi
        invariant
            lo <= i <= hi <= p@.len(),
            out@ == p@.subrange(lo as int, i as int),
        decreases hi - i,
    {
        out.push(p[i]);
        i = i + 1;
        assert(out@ =~= p@.subrange(lo as int, i as int));
    }
    out
}

/// Whether `name` matches the glob `pattern` (`*` for any run of
/// characters). The literal text before the first star must begin the
/// name, each run between stars is taken at its leftmost place, and the run
/// after the last star must end the name.
pub fn glob_match(pattern: &str, name: &str) -> (r: bool)
    ensures
        r == glob_spec(pattern@, name@),
{
    let p = chars_of(pattern);
    let s = chars_of(name);
    let a = next_star(&p, 0);
    assert(p@.subrange(0, a as int) =~= p@.take(a as int));
    if a == p.len() {
        proof {
            assert(p@.take(a as int) =~= p@);
            lemma_glob_literal(p@, Seq::empty(), s@);
            assert(p@ + Seq::<char>::empty() =~= p@);
            if has_prefix(s@, p@) && s@.skip(p@.len() as int).len() == 0 {
                assert(s@.subrange(0, p@.len() as int) =~= s@);
            }
            if s@ == p@ {
                assert(s@.subrange(0, p@.len() as int) =~= s@);
            }
        }
        return chars_eq(p.as_slice(), s.as_slice());
    }
    let lit = sub_chars(&p, 0, a);
    if !crate::text::starts_with(s.as_slice(), lit.as_slice()) {
        proof {
            assert(p@ =~= lit@ + p@.skip(a as int));
            lemma_glob_literal(lit@, p@.skip(a as int), s@);
        }
        return false;
    }
    proof {
        assert(p@ =~= lit@ + p@.skip(a as int));
        lemma_glob_literal(lit@, p@.skip(a as int), s@);
    }
    let mut pi: usize = a;
    let mut pos: usize = a;
    let plen = p.len();
    let slen = s.len();
    while true
        invariant
            plen == p@.len(),
            slen == s@.len(),
            p@ == pattern@,
            s@ == name@,
            pi < p@.len(),
            p@[pi as int] == '*',
            pos <= s@.len(),
            glob_spec(p@, s@) == glob_spec(p@.skip(pi as int), s@.skip(pos as int)),
        decreases p@.len() - pi,
    {
        assert(pi + 1 <= plen);
        let b = next_star(&p, pi + 1);
        let seg = sub_chars(&p, pi + 1, b);
        if b == p.len() {
            proof {
                assert(p@.skip(pi as int) =~= seq!['*'] + seg@);
                lemma_glob_last(seg@, s@.skip(pos as int));
            }
            let tail = sub_chars(&s, pos, s.len());
            assert(tail@ =~= s@.skip(pos as int));
            return crate::text::ends_with(tail.as_slice(), seg.as_slice());
        }
        proof {
            assert(p@.skip(pi as int) =~= seq!['*'] + (seg@ + (seq!['*'] + p@.skip(b + 1))));
            assert(p@.skip(b as int) =~= seq!['*'] + p@.skip(b + 1));
        }
        if seg.len() == 0 {
            proof {
                assert(seg@ + (seq!['*'] + p@.skip(b + 1)) =~= seq!['*'] + p@.skip(b + 1));
                lemma_glob_double_star(p@.skip(b + 1), s@.skip(pos as int));
            }
            pi = b;
        } else {
            proof {
                lemma_glob_middle(seg@, p@.skip(b + 1), s@, pos as int);
                lemma_first_occurrence_from(s@, seg@, pos as int);
            }
            match crate::text::find_from(s.as_slice(), seg.as_slice(), pos) {
                None => {
                    return false;
                },
                Some(j) => {
                    assert(occurs_at(s@, seg@, j as int));
                    pos = j + seg.len();
                    pi = b;
                },
            }
        }
    }
    false
}

/// The entries of a directory that match `pattern`, in their listed order.
pub open spec fn glob_filter(pattern: Seq<char>, entries: Seq<Seq<char>>) -> Seq<Seq<char>>
    decreases entries.len(),
{
    if entries.len() == 0 {
        Seq::empty()
    } else if glob_spec(pattern, entries.last()) {
        glob_filter(pattern, entries.drop_last()).push(entries.last())
    } else {
        glob_filter(pattern, entries.drop_last())
    }
}

/// Names keyed for sorting, each with its position.
pub open spec fn name_keys_of(names: Seq<Seq<char>>) -> Seq<Keyed> {
    Seq::new(names.len(), |i: int| (names[i], i))
}

/// `names` in sorted order.
pub open spec fn sorted_names(names: Seq<Seq<char>>) -> Seq<Seq<char>> {
    let order = sort_by_key(name_keys_of(names));
    Seq::new(order.len(), |k: int| names[order[k].1])
}

/// What a glob operand names in a directory: nothing to expand without a
/// `*`; otherwise the matching entries, sorted.
pub open spec fn glob_expansion(name: Seq<char>, entries: Seq<Seq<char>>) -> Option<Seq<Seq<char>>> {
    if !name.contains('*') {
        None
    } else {
        Some(sorted_names(glob_filter(name, entries)))
    }
}

pub(crate) fn sort_names(names: &Vec<String>) -> (r: Vec<String>)
    ensures
        string_views(r@) == sorted_names(string_views(names@)),
{
    let ghost nv = string_views(names@);
    let mut keys: Vec<(Vec<char>, usize)> = Vec::new();
    let mut i: usize = 0;
    while i < names.len()
        invariant
            nv == string_views(names@),
            i <= names@.len(),
            keys@.len() == i,
            forall|k: int| 0 <= k < i ==> (#[trigger] keys@[k]).0@ == nv[k] && keys@[k].1 == k,
        decreases names.len() - i,
    {
        keys.push((chars_of(names[i].as_str()), i));
        i = i + 1;
    }
    assert(keyed_view(keys@) =~= name_keys_of(nv));
    let order = sort_keyed(keys);
    let ghost ov = keyed_view(order@);
    proof {
        crate::order::lemma_sort_by_key(name_keys_of(nv));
        assert forall|k: int| 0 <= k < ov.len() implies 0 <= #[trigger] ov[k].1 < nv.len() by {
            crate::order::lemma_sort_by_key_member(name_keys_of(nv), k);
            let j = choose|j: int| 0 <= j < name_keys_of(nv).len() && name_keys_of(nv)[j] == ov[k];
            assert(name_keys_of(nv)[j].1 == j);
        }
    }
    let mut out: Vec<String> = Vec::new();
    let mut k: usize = 0;
    while k < order.len()
        invariant
            nv == string_views(names@),
            ov == keyed_view(order@),
            ov == sort_by_key(name_keys_of(nv)),
            forall|m: int| 0 <= m < ov.len() ==> 0 <= #[trigger] ov[m].1 < nv.len(),
            k <= order@.len(),
            out@.len() == k,
            forall|m: int| 0 <= m < k ==> #[trigger] out@[m]@ == nv[ov[m].1],
        decreases order.len() - k,
    {
        let idx = order[k].1;
        assert(ov[k as int].1 == idx as int);
        out.push(names[idx].clone());
        k = k + 1;
    }
    assert(string_views(out@) =~= sorted_names(nv));
    out
}

/// Expands a glob operand against the entries of its directory: `None`
/// when it has no `*`, else the matching entries, sorted.
pub fn expand_glob(name: &str, entries: &Vec<String>) -> (r: Option<Vec<String>>)
    ensures
        match r {
            Some(v) => glob_expansion(name@, string_views(entries@)) == Some(string_views(v@)),
            None => glob_expansion(name@, string_views(entries@)) is None,
        },
{
    let cs = chars_of(name);
    if !contains_char(cs.as_slice(), '*') {
        return None;
    }
    let ghost ev = string_views(entries@);
    let mut matching: Vec<String> = Vec::new();
    let mut i: usize = 0;
    assert(string_views(matching@) =~= glob_filter(name@, ev.take(0)));
    while i < entries.len()
        invariant
            ev == string_views(entries@),
            i <= entries@.len(),
            string_views(matching@) == glob_filter(name@, ev.take(i as int)),
        decreases entries.len() - i,
    {
        assert(ev.take(i + 1).drop_last() =~= ev.take(i as int));
        assert(ev.take(i + 1).last() == entries@[i as int]@);
        if glob_match(name, entries[i].as_str()) {
            let ghost before = string_views(matching@);
            matching.push(entries[i].clone());
            assert(string_views(matching@) =~= before.push(entries@[i as int]@));
        }
        i = i + 1;
    }
    assert(ev.take(i as int) =~= ev);
    Some(sort_names(&matching))
}

/// What `rm` will do: remove each target, directories too under `-r`/`-R`,
/// silently skipping what is missing under `-f`.
pub struct RmRequest {
    pub recursive: bool,
    pub force: bool,
    pub targets: Vec<String>,
}

/// `rm [-rRf] TARGET...`: the options and targets; with no target, `rm -f`
/// succeeds silently and plain `rm` fails for the missing operand.
pub fn rm_request(args: &[Arg]) -> (r: Result<RmRequest, CommandResult>)
    ensures
        ({
            let av = arg_views(args@);
            let fl = flag_chars(av);
            &&& operands(av).len() == 0 && fl.contains('f') ==> (r matches Err(e) && e.stdout@.len() == 0
                && e.stderr@.len() == 0 && e.exit_code == 0)
            &&& operands(av).len() == 0 && !fl.contains('f') ==> (r matches Err(e) && e.stdout@.len() == 0
                && e.stderr@ == "rm: missing operand\n"@ && e.exit_code == 1)
            &&& operands(av).len() > 0 ==> (r matches Ok(req) && req.recursive == (fl.contains('r')
                || fl.contains('R')) && req.force == fl.contains('f') && string_views(req.targets@)
                == operands(av))
        }),
{
    let (flags, targets) = short_flags(args);
    let recursive = contains_char(flags.as_slice(), 'r') || contains_char(flags.as_slice(), 'R');
    let force = contains_char(flags.as_slice(), 'f');
    if targets.len() == 0 {
        if force {
            proof {
                reveal_strlit("");
            }
            return Err(CommandResult::ok(""));
        }
        return Err(CommandResult::error("rm: missing operand\n", 1));
    }
    Ok(RmRequest { recursive, force, targets })
}

/// The command handlers, one per supported command name.
#[derive(Debug, Clone, Copy, PartialEq, Eq, Structural)]
pub enum Handler {
    Pwd,
    Cd,
    Mkdir,
    Touch,
    Ls,
    Cat,
    Echo,
    Rm,
    Rmdir,
    Cp,
    Mv,
    Chmod,
    Chown,
    Find,
    Du,
    Truncate,
    Shred,
    SafeshellPkg,
    Df,
    Wc,
    Sort,
    Uniq,
    Cut,
    Head,
    Tail,
    Date,
    Grep,
    Env,
    Printenv,
    Whoami,
    Id,
    Uname,
    Sleep,
}

/// The handler a command name is dispatched to, if any.
pub open spec fn handler_of(name: Seq<char>) -> Option<Handler> {
    if false {
        None
    } else if name == "pwd"@ {
        Some(Handler::Pwd)
    } else if name == "cd"@ {
        Some(Handler::Cd)
    } else if name == "mkdir"@ {
        Some(Handler::Mkdir)
    } else if name == "touch"@ {
        Some(Handler::Touch)
    } else if name == "ls"@ {
        Some(Handler::Ls)
    } else if name == "cat"@ {
        Some(Handler::Cat)
    } else if name == "echo"@ {
        Some(Handler::Echo)
    } else if name == "rm"@ {
        Some(Handler::Rm)
    } else if name == "rmdir"@ {
        Some(Handler::Rmdir)
    } else if name == "cp"@ {
        Some(Handler::Cp)
    } else if name == "mv"@ {
        Some(Handler::Mv)
    } else if name == "chmod"@ {
        Some(Handler::Chmod)
    } else if name == "chown"@ {
        Some(Handler::Chown)
    } else if name == "find"@ {
        Some(Handler::Find)
    } else if name == "du"@ {
        Some(Handler::Du)
    } else if name == "truncate"@ {
        Some(Handler::Truncate)
    } else if name == "shred"@ {
        Some(Handler::Shred)
    } else if name == "safeshell-pkg"@ {
        Some(Handler::SafeshellPkg)
    } else if name == "df"@ {
        Some(Handler::Df)
    } else if name == "wc"@ {
        Some(Handler::Wc)
    } else if name == "sort"@ {
        Some(Handler::Sort)
    } else if name == "uniq"@ {
        Some(Handler::Uniq)
    } else if name == "cut"@ {
        Some(Handler::Cut)
    } else if name == "head"@ {
        Some(Handler::Head)
    } else if name == "tail"@ {
        Some(Handler::Tail)
    } else if name == "date"@ {
        Some(Handler::Date)
    } else if name == "grep"@ {
        Some(Handler::Grep)
    } else if name == "env"@ {
        Some(Handler::Env)
    } else if name == "printenv"@ {
        Some(Handler::Printenv)
    } else if name == "whoami"@ {
        Some(Handler::Whoami)
    } else if name == "id"@ {
        Some(Handler::Id)
    } else if name == "uname"@ {
        Some(Handler::Uname)
    } else if name == "sleep"@ {
        Some(Handler::Sleep)
    } else {
        None
    }
}

/// Looks up the handler for a command name.
pub fn handler_for(name: &str) -> (r: Option<Handler>)
    ensures
        r == handler_of(name@),
{
    if false {
        None
    } else if str_eq(name, "pwd") {
        Some(Handler::Pwd)
    } else if str_eq(name, "cd") {
        Some(Handler::Cd)
    } else if str_eq(name, "mkdir") {
        Some(Handler::Mkdir)
    } else if str_eq(name, "touch") {
        Some(Handler::Touch)
    } else if str_eq(name, "ls") {
        Some(Handler::Ls)
    } else if str_eq(name, "cat") {
        Some(Handler::Cat)
    } else if str_eq(name, "echo") {
        Some(Handler::Echo)
    } else if str_eq(name, "rm") {
        Some(Handler::Rm)
    } else if str_eq(name, "rmdir") {
        Some(Handler::Rmdir)
    } else if str_eq(name, "cp") {
        Some(Handler::Cp)
    } else if str_eq(name, "mv") {
        Some(Handler::Mv)
    } else if str_eq(name, "chmod") {
        Some(Handler::Chmod)
    } else if str_eq(name, "chown") {
        Some(Handler::Chown)
    } else if str_eq(name, "find") {
        Some(Handler::Find)
    } else if str_eq(name, "du") {
        Some(Handler::Du)
    } else if str_eq(name, "truncate") {
        Some(Handler::Truncate)
    } else if str_eq(name, "shred") {
        Some(Handler::Shred)
    } else if str_eq(name, "safeshell-pkg") {
        Some(Handler::SafeshellPkg)
    } else if str_eq(name, "df") {
        Some(Handler::Df)
    } else if str_eq(name, "wc") {
        Some(Handler::Wc)
    } else if str_eq(name, "sort") {
        Some(Handler::Sort)
    } else if str_eq(name, "uniq") {
        Some(Handler::Uniq)
    } else if str_eq(name, "cut") {
        Some(Handler::Cut)
    } else if str_eq(name, "head") {
        Some(Handler::Head)
    } else if str_eq(name, "tail") {
        Some(Handler::Tail)
    } else if str_eq(name, "date") {
        Some(Handler::Date)
    } else if str_eq(name, "grep") {
        Some(Handler::Grep)
    } else if str_eq(name, "env") {
        Some(Handler::Env)
    } else if str_eq(name, "printenv") {
        Some(Handler::Printenv)
    } else if str_eq(name, "whoami") {
        Some(Handler::Whoami)
    } else if str_eq(name, "id") {
        Some(Handler::Id)
    } else if str_eq(name, "uname") {
        Some(Handler::Uname)
    } else if str_eq(name, "sleep") {
        Some(Handler::Sleep)
    } else {
        None
    }
}

/// The result for a name no handler answers to: exit code 127.
pub fn command_not_found(name: &str) -> (r: CommandResult)
    ensures
        r.stdout@.len() == 0,
        r.stderr@ == name@ + ": command not found"@,
        r.exit_code == 127,
{
    let mut msg = chars_of(name);
    push_str(&mut msg, ": command not found");
    let text = string_from_chars(msg.as_slice());
    CommandResult::error(text.as_str(), 127)
}

/// `pwd`: the working directory written from the root.
pub fn cmd_pwd(session: &TerminalSession) -> (r: CommandResult)
    ensures
        r.stdout@ == seq!['/'] + session.cwd_view() + "\n"@,
        r.stderr@.len() == 0,
        r.exit_code == 0,
{
    let shown = session.cwd().display();
    let mut out = chars_of(shown.as_str());
    push_str(&mut out, "\n");
    let text = string_from_chars(out.as_slice());
    CommandResult::ok(text.as_str())
}

/// Where `cd` goes: its first argument, or the root.
pub fn cd_target(args: &[Arg]) -> (r: &str)
    ensures
        args@.len() == 0 ==> r@ == "/"@,
        args@.len() > 0 ==> r@ == args@[0].0@,
{
    if args.len() == 0 {
        "/"
    } else {
        args[0].as_str()
    }
}

/// Finishes `cd` once the target has been resolved and looked at: a
/// directory becomes the working directory; anything else, or a failed
/// look, leaves it unchanged and fails.
pub fn finish_cd(session: &mut TerminalSession, raw: &str, target: SandboxPath, stat: Result<FileKind, String>) -> (r: CommandResult)
    ensures
        stat == Ok::<FileKind, String>(FileKind::Directory) ==> {
            &&& final(session).cwd_view() == target@
            &&& final(session).env_view() == old(session).env_view().insert("PWD"@, seq!['/'] + target@)
            &&& r.exit_code == 0
            &&& r.stdout@.len() == 0
            &&& r.stderr@.len() == 0
        },
        stat != Ok::<FileKind, String>(FileKind::Directory) ==> {
            &&& final(session).cwd_view() == old(session).cwd_view()
            &&& final(session).env_view() == old(session).env_view()
            &&& r.exit_code == 1
            &&& match stat {
                Ok(_) => r.stderr@ == "cd: "@ + raw@ + ": Not a directory\n"@,
                Err(e) => r.stderr@ == "cd: "@ + raw@ + ": "@ + e@ + "\n"@,
            }
        },
        final(session).history_view() == old(session).history_view(),
        final(session).packages_view() == old(session).packages_view(),
{
    match stat {
        Ok(FileKind::Directory) => {
            session.set_cwd(target);
            proof {
                reveal_strlit("");
            }
            CommandResult::ok("")
        },
        Ok(_) => {
            let mut msg = chars_of("cd: ");
            push_str(&mut msg, raw);
            push_str(&mut msg, ": Not a directory\n");
            let text = string_from_chars(msg.as_slice());
            CommandResult::error(text.as_str(), 1)
        },
        Err(e) => {
            let mut msg = chars_of("cd: ");
            push_str(&mut msg, raw);
            push_str(&mut msg, ": ");
            push_str(&mut msg, e.as_str());
            push_str(&mut msg, "\n");
            let text = string_from_chars(msg.as_slice());
            CommandResult::error(text.as_str(), 1)
        },
    }
}

/// What `ls` prints for the names of a directory: one per line, nothing
/// at all for an empty one.
pub fn ls_output(names: &Vec<String>) -> (r: CommandResult)
    ensures
        names@.len() == 0 ==> r.stdout@.len() == 0,
        names@.len() > 0 ==> r.stdout@ == join(string_views(names@), "\n"@) + "\n"@,
        r.stderr@.len() == 0,
        r.exit_code == 0,
{
    if names.len() == 0 {
        proof {
            reveal_strlit("");
        }
        return CommandResult::ok("");
    }
    let parts = crate::text::strings_to_chars(names);
    let mut out = join_strings(&parts, "\n");
    push_str(&mut out, "\n");
    let text = string_from_chars(out.as_slice());
    CommandResult::ok(text.as_str())
}

/// The refusal of input redirection: no handler reads standard input.
pub fn input_redirection_refused() -> (r: CommandResult)
    ensures
        r.stdout@.len() == 0,
        r.stderr@ == "SafeShell does not support input (`<`) redirection: no handler reads stdin\n"@,
        r.exit_code == 1,
{
    CommandResult::error("SafeShell does not support input (`<`) redirection: no handler reads stdin\n", 1)
}

/// What an output redirection writes: the command's output after the
/// file's current bytes for `>>`, alone for `>`.
pub fn redirected_contents(kind: RedirectionKind, existing: Vec<u8>, stdout: &str) -> (r: Vec<u8>)
    requires
        kind != RedirectionKind::Input,
    ensures
        kind == RedirectionKind::Append ==> r@ == existing@ + vstd::utf8::encode_utf8(stdout@),
        kind == RedirectionKind::Truncate ==> r@ == vstd::utf8::encode_utf8(stdout@),
{
    let mut out: Vec<u8> = if kind == RedirectionKind::Append {
        existing
    } else {
        Vec::new()
    };
    let bytes = stdout.as_bytes();
    let ghost start = out@;
    let mut i: usize = 0;
    while i < bytes.len()
        invariant
            i <= bytes@.len(),
            out@ == start + bytes@.take(i as int),
        decreases bytes.len() - i,
    {
        out.push(bytes[i]);
        i = i + 1;
        assert(out@ =~= start + bytes@.take(i as int));
    }
    assert(bytes@.take(i as int) =~= bytes@);
    out
}


/// Whether a handler's failures show: exit code 0 with nothing on stderr,
/// or exit code 1 with what went wrong on stderr.
pub open spec fn failure_shown(r: CommandResult) -> bool {
    ||| r.exit_code == 0 && r.stderr@.len() == 0
    ||| r.exit_code == 1 && r.stderr@.len() > 0
}

/// Segments written one after another.
pub open spec fn flatten(segs: Seq<Seq<char>>) -> Seq<char>
    decreases segs.len(),
{
    if segs.len() == 0 {
        Seq::empty()
    } else {
        flatten(segs.drop_last()) + segs.last()
    }
}

/// Whether `seg` is what the view's answers may add for one operand:
/// nothing, or lines of which the first begins with `prefix`.
pub open spec fn host_lines(seg: Seq<char>, prefix: Seq<char>) -> bool {
    seg.len() == 0 || has_prefix(seg, prefix)
}

/// Whether `stderr` is made of one segment per operand, in order: the
/// operand's own refusal and a newline where it has one, else only lines
/// from the view's answers, beginning with that operand's prefix.
pub open spec fn per_operand_stderr(
    stderr: Seq<char>,
    own: Seq<Option<Seq<char>>>,
    prefixes: Seq<Seq<char>>,
) -> bool {
    exists|segs: Seq<Seq<char>>|
        segs.len() == own.len() && stderr == flatten(segs) && forall|i: int|
            0 <= i < segs.len() ==> match #[trigger] own[i] {
                Some(m) => segs[i] == m + seq!['\n'],
                None => host_lines(segs[i], prefixes[i]),
            }
}

pub(crate) proof fn lemma_flatten_push(segs: Seq<Seq<char>>, x: Seq<char>)
    ensures
        flatten(segs.push(x)) == flatten(segs) + x,
{
    assert(segs.push(x).drop_last() =~= segs);
}

pub(crate) proof fn lemma_host_lines_extend(seg: Seq<char>, prefix: Seq<char>, line: Seq<char>)
    requires
        host_lines(seg, prefix),
        has_prefix(line, prefix),
    ensures
        host_lines(seg + line + seq!['\n'], prefix),
{
    let n = seg + line + seq!['\n'];
    if seg.len() == 0 {
        assert(n.subrange(0, prefix.len() as int) =~= line.subrange(0, prefix.len() as int));
    } else {
        assert(n.subrange(0, prefix.len() as int) =~= seg.subrange(0, prefix.len() as int));
    }
}

/// Whether the first `n` segments answer the operands as `own` and
/// `prefixes` say.
pub open spec fn segments_fit(
    segs: Seq<Seq<char>>,
    own: Seq<Option<Seq<char>>>,
    prefixes: Seq<Seq<char>>,
    n: int,
) -> bool {
    forall|k: int| 0 <= k < n ==> match #[trigger] own[k] {
        Some(m) => segs[k] == m + seq!['\n'],
        None => host_lines(segs[k], prefixes[k]),
    }
}

/// What one operand added to `stderr` (from `start` to `now`) is its
/// segment, and the segments still make up `stderr`.
pub(crate) proof fn lemma_segment_step(
    segs: Seq<Seq<char>>,
    start: Seq<char>,
    now: Seq<char>,
    own: Seq<Option<Seq<char>>>,
    prefixes: Seq<Seq<char>>,
)
    requires
        start == flatten(segs),
        segments_fit(segs, own, prefixes, segs.len() as int),
        segs.len() < own.len(),
        now.len() >= start.len(),
        now.subrange(0, start.len() as int) == start,
        match own[segs.len() as int] {
            Some(m) => now.skip(start.len() as int) == m + seq!['\n'],
            None => host_lines(now.skip(start.len() as int), prefixes[segs.len() as int]),
        },
    ensures
        now == flatten(segs.push(now.skip(start.len() as int))),
        segments_fit(segs.push(now.skip(start.len() as int)), own, prefixes, segs.len() + 1 as int),
{
    let seg = now.skip(start.len() as int);
    lemma_flatten_push(segs, seg);
    assert(now =~= start + seg);
    let s2 = segs.push(seg);
    assert forall|k: int| 0 <= k < segs.len() + 1 implies match #[trigger] own[k] {
        Some(m) => s2[k] == m + seq!['\n'],
        None => host_lines(s2[k], prefixes[k]),
    } by {
        if k < segs.len() {
            assert(s2[k] == segs[k]);
        }
    }
}

/// A failure line that begins with `prefix`, and its newline, are lines
/// from the view's answers for that operand.
pub(crate) proof fn lemma_host_line(prefix: Seq<char>, line: Seq<char>)
    requires
        line.len() >= prefix.len(),
        line.subrange(0, prefix.len() as int) == prefix,
    ensures
        host_lines(line + seq!['\n'], prefix),
{
    assert(line + seq!['\n'] =~= Seq::<char>::empty() + line + seq!['\n']);
    lemma_host_lines_extend(Seq::empty(), prefix, line);
}

/// The refusal a handler gives an operand that does not resolve.
pub open spec fn unresolved_refusal(tool: Seq<char>, cwd: Seq<char>, raw: Seq<char>) -> Option<Seq<char>> {
    match resolved_arg(cwd, raw) {
        Err(m) => Some(tool + ": "@ + m),
        Ok(_) => None,
    }
}

/// Whether `raw`, resolved from `cwd`, names a path below the root.
pub open spec fn names_below_root(cwd: Seq<char>, raw: Seq<char>) -> bool {
    resolved_arg(cwd, raw) matches Ok(p) && p.len() > 0
}

/// Adds one failure line to `stderr`: the text and a newline.
pub(crate) fn note_failure(stderr: &mut Vec<char>, exit_code: &mut i32, line: &[char])
    ensures
        final(stderr)@ == old(stderr)@ + line@ + seq!['\n'],
        *final(exit_code) == 1,
{
    push_all(stderr, line);
    stderr.push('\n');
    *exit_code = 1;
}

/// The line for a view error: `LEAD`, the error, and `TAIL` before it.
pub(crate) fn error_line(lead: &str, middle: &str, tail: &str, e: &FsError) -> (v: Vec<char>)
    ensures
        v@ == lead@ + middle@ + tail@ + e.message@,
{
    let mut v = chars_of(lead);
    push_str(&mut v, middle);
    push_str(&mut v, tail);
    push_str(&mut v, e.message.as_str());
    v
}

/// `cd [DIR]`: moves to the directory named (the root when none is), if the
/// view reports it as a directory; otherwise the working directory stays.
pub fn cmd_cd<R: LayeredView>(session: &mut TerminalSession, resolver: &R, args: &[Arg]) -> (r: CommandResult)
    ensures
        ({
            let raw = if args@.len() == 0 { "/"@ } else { args@[0].0@ };
            match resolved_arg(old(session).cwd_view(), raw) {
                Err(m) => r.stderr@ == "cd: "@ + m + "\n"@ && r.exit_code == 1 && r.stdout@.len() == 0
                    && final(session).cwd_view() == old(session).cwd_view(),
                Ok(target) => {
                    &&& r.exit_code == 0 ==> final(session).cwd_view() == target
                        && final(session).env_view() == old(session).env_view().insert("PWD"@, seq!['/'] + target)
                    &&& r.exit_code != 0 ==> r.exit_code == 1 && final(session).cwd_view() == old(session).cwd_view()
                        && final(session).env_view() == old(session).env_view()
                },
            }
        }),
        final(session).history_view() == old(session).history_view(),
        final(session).packages_view() == old(session).packages_view(),
{
    let raw = cd_target(args);
    proof {
        reveal_strlit("/");
    }
    let target = match resolve_arg(session.cwd(), raw) {
        Ok(p) => p,
        Err(e) => {
            let mut msg = chars_of("cd: ");
            push_str(&mut msg, e.as_str());
            push_str(&mut msg, "\n");
            let text = string_from_chars(msg.as_slice());
            return CommandResult::error(text.as_str(), 1);
        },
    };
    let stat = match resolver.stat(target.as_str()) {
        Ok(info) => Ok(info.kind),
        Err(e) => Err(e.message),
    };
    finish_cd(session, raw, target, stat)
}

/// The refusal `mkdir` gives an operand by itself, before asking the view:
/// one that does not resolve, or the root.
pub open spec fn mkdir_own_refusal(cwd: Seq<char>, raw: Seq<char>) -> Option<Seq<char>> {
    match resolved_arg(cwd, raw) {
        Err(m) => Some("mkdir: "@ + m),
        Ok(p) => if p.len() == 0 {
            Some("mkdir: cannot create the sandbox root"@)
        } else {
            None
        },
    }
}

/// The start of the line for a directory the view would not create.
pub open spec fn mkdir_failure_prefix(raw: Seq<char>) -> Seq<char> {
    "mkdir: cannot create directory '"@ + raw + "': "@
}

/// `mkdir DIR...`: creates each directory named (asking the view for the
/// last component in its parent); each one that cannot be created is
/// reported and makes the exit code 1.
pub fn cmd_mkdir<R: LayeredView>(session: &TerminalSession, resolver: &R, args: &[Arg]) -> (r: CommandResult)
    ensures
        args@.len() == 0 ==> r.stdout@.len() == 0 && r.stderr@ == "mkdir: missing operand\n"@
            && r.exit_code == 1,
        args@.len() > 0 ==> r.stdout@.len() == 0 && failure_shown(r),
        args@.len() > 0 ==> per_operand_stderr(
            r.stderr@,
            Seq::new(args@.len(), |i: int| mkdir_own_refusal(session.cwd_view(), args@[i].0@)),
            Seq::new(args@.len(), |i: int| mkdir_failure_prefix(args@[i].0@)),
        ),
        (exists|i: int| 0 <= i < args@.len() && !names_below_root(session.cwd_view(), #[trigger] args@[i].0@))
            ==> r.exit_code == 1,
{
    if args.len() == 0 {
        return CommandResult::error("mkdir: missing operand\n", 1);
    }
    let ghost own = Seq::new(args@.len(), |i: int| mkdir_own_refusal(session.cwd_view(), args@[i].0@));
    let ghost prefixes = Seq::new(args@.len(), |i: int| mkdir_failure_prefix(args@[i].0@));
    let mut stderr: Vec<char> = Vec::new();
    let mut exit_code: i32 = 0;
    let ghost mut segs: Seq<Seq<char>> = Seq::empty();
    let mut i: usize = 0;
    while i < args.len()
        invariant
            i <= args@.len(),
            own == Seq::new(args@.len(), |i: int| mkdir_own_refusal(session.cwd_view(), args@[i].0@)),
            prefixes == Seq::new(args@.len(), |i: int| mkdir_failure_prefix(args@[i].0@)),
            (exit_code == 0 && stderr@.len() == 0) || (exit_code == 1 && stderr@.len() > 0),
            forall|k: int| 0 <= k < i && !names_below_root(session.cwd_view(), #[trigger] args@[k].0@)
                ==> exit_code == 1,
            segs.len() == i,
            stderr@ == flatten(segs),
            segments_fit(segs, own, prefixes, i as int),
        decreases args.len() - i,
    {
        let raw = args[i].as_str();
        let ghost start = stderr@;
        assert(args@[i as int].0@ == raw@);
        match resolve_arg(session.cwd(), raw) {
            Err(e) => {
                let mut line = chars_of("mkdir: ");
                push_str(&mut line, e.as_str());
                note_failure(&mut stderr, &mut exit_code, line.as_slice());
                assert(stderr@.skip(start.len() as int) =~= line@ + seq!['\n']);
            },
            Ok(target) => match target.place() {
                None => {
                    let line = chars_of("mkdir: cannot create the sandbox root");
                    note_failure(&mut stderr, &mut exit_code, line.as_slice());
                    assert(stderr@.skip(start.len() as int) =~= line@ + seq!['\n']);
                },
                Some((parent, name)) => {
                    if let Err(e) = resolver.mkdir(parent.as_str(), name.as_str()) {
                        let line = error_line("mkdir: cannot create directory '", raw, "': ", &e);
                        proof {
                            assert(line@.subrange(0, mkdir_failure_prefix(raw@).len() as int)
                                =~= mkdir_failure_prefix(raw@));
                            lemma_host_line(mkdir_failure_prefix(raw@), line@);
                        }
                        note_failure(&mut stderr, &mut exit_code, line.as_slice());
                        assert(stderr@.skip(start.len() as int) =~= line@ + seq!['\n']);
                    } else {
                        assert(stderr@.skip(start.len() as int) =~= Seq::<char>::empty());
                    }
                },
            },
        }
        proof {
            assert(stderr@.subrange(0, start.len() as int) =~= start);
            lemma_segment_step(segs, start, stderr@, own, prefixes);
            segs = segs.push(stderr@.skip(start.len() as int));
        }
        i = i + 1;
    }
    let text = string_from_chars(stderr.as_slice());
    CommandResult { stdout: String::new(), stderr: text, exit_code }
}

/// The start of the line for a file the view would not touch.
pub open spec fn touch_failure_prefix(raw: Seq<char>) -> Seq<char> {
    "touch: cannot touch '"@ + raw + "': "@
}

/// `touch FILE...`: creates each file named that does not exist; each one
/// that cannot be touched is reported and makes the exit code 1.
pub fn cmd_touch<R: LayeredView>(session: &TerminalSession, resolver: &R, args: &[Arg]) -> (r: CommandResult)
    ensures
        args@.len() == 0 ==> r.stdout@.len() == 0 && r.stderr@ == "touch: missing operand\n"@
            && r.exit_code == 1,
        args@.len() > 0 ==> r.stdout@.len() == 0 && failure_shown(r),
        args@.len() > 0 ==> per_operand_stderr(
            r.stderr@,
            Seq::new(args@.len(), |i: int| unresolved_refusal("touch"@, session.cwd_view(), args@[i].0@)),
            Seq::new(args@.len(), |i: int| touch_failure_prefix(args@[i].0@)),
        ),
        (exists|i: int| 0 <= i < args@.len() && #[trigger] resolved_arg(session.cwd_view(), args@[i].0@) is Err)
            ==> r.exit_code == 1,
{
    if args.len() == 0 {
        return CommandResult::error("touch: missing operand\n", 1);
    }
    let ghost own = Seq::new(args@.len(), |i: int| unresolved_refusal("touch"@, session.cwd_view(), args@[i].0@));
    let ghost prefixes = Seq::new(args@.len(), |i: int| touch_failure_prefix(args@[i].0@));
    let mut stderr: Vec<char> = Vec::new();
    let mut exit_code: i32 = 0;
    let ghost mut segs: Seq<Seq<char>> = Seq::empty();
    let mut i: usize = 0;
    while i < args.len()
        invariant
            i <= args@.len(),
            own == Seq::new(args@.len(), |i: int| unresolved_refusal("touch"@, session.cwd_view(), args@[i].0@)),
            prefixes == Seq::new(args@.len(), |i: int| touch_failure_prefix(args@[i].0@)),
            (exit_code == 0 && stderr@.len() == 0) || (exit_code == 1 && stderr@.len() > 0),
            forall|k: int| 0 <= k < i && #[trigger] resolved_arg(session.cwd_view(), args@[k].0@) is Err
                ==> exit_code == 1,
            segs.len() == i,
            stderr@ == flatten(segs),
            segments_fit(segs, own, prefixes, i as int),
        decreases args.len() - i,
    {
        let raw = args[i].as_str();
        let ghost start = stderr@;
        assert(args@[i as int].0@ == raw@);
        match resolve_arg(session.cwd(), raw) {
            Err(e) => {
                let mut line = chars_of("touch: ");
                push_str(&mut line, e.as_str());
                note_failure(&mut stderr, &mut exit_code, line.as_slice());
                proof {
                    reveal_strlit("touch");
                    reveal_strlit("touch: ");
                    reveal_strlit(": ");
                    assert("touch"@ + ": "@ =~= "touch: "@);
                }
                assert(stderr@.skip(start.len() as int) =~= line@ + seq!['\n']);
            },
            Ok(target) => {
                if let Err(e) = resolver.touch(target.as_str()) {
                    let line = error_line("touch: cannot touch '", raw, "': ", &e);
                    proof {
                        assert(line@.subrange(0, touch_failure_prefix(raw@).len() as int)
                            =~= touch_failure_prefix(raw@));
                        lemma_host_line(touch_failure_prefix(raw@), line@);
                    }
                    note_failure(&mut stderr, &mut exit_code, line.as_slice());
                    assert(stderr@.skip(start.len() as int) =~= line@ + seq!['\n']);
                } else {
                    assert(stderr@.skip(start.len() as int) =~= Seq::<char>::empty());
                }
            },
        }
        proof {
            assert(stderr@.subrange(0, start.len() as int) =~= start);
            lemma_segment_step(segs, start, stderr@, own, prefixes);
            segs = segs.push(stderr@.skip(start.len() as int));
        }
        i = i + 1;
    }
    let text = string_from_chars(stderr.as_slice());
    CommandResult { stdout: String::new(), stderr: text, exit_code }
}

/// What `ls` prints for the names of a directory: one per line.
pub open spec fn ls_text(names: Seq<Seq<char>>) -> Seq<char> {
    if names.len() == 0 {
        Seq::empty()
    } else {
        join(names, "\n"@) + "\n"@
    }
}

/// The directory `ls` lists: the one its first argument names, else the
/// working directory (when that argument resolves).
pub open spec fn ls_target(cwd: Seq<char>, args: Seq<Arg>) -> Seq<char> {
    if args.len() > 0 {
        resolved_arg(cwd, args[0].0@)->Ok_0
    } else {
        cwd
    }
}

/// `ls [DIR]`: the names in the directory named (the working directory
/// when none is), one per line.
pub fn cmd_ls<R: LayeredView>(session: &TerminalSession, resolver: &R, args: &[Arg]) -> (r: CommandResult)
    ensures
        r.exit_code == 0 ==> exists|names: Seq<Seq<char>>| #[trigger] ls_text(names) == r.stdout@,
        (args@.len() == 0 || resolved_arg(session.cwd_view(), args@[0].0@) is Ok) && r.exit_code == 1
            ==> exists|m: Seq<char>|
            r.stderr@ == "ls: cannot access '/"@ + ls_target(session.cwd_view(), args@) + "': "@ + #[trigger] m.add(
                "\n"@,
            ),
        args@.len() > 0 && resolved_arg(session.cwd_view(), args@[0].0@) is Err ==> (resolved_arg(
            session.cwd_view(),
            args@[0].0@,
        ) matches Err(m) && r.stderr@ == "ls: "@ + m + "\n"@ && r.stdout@.len() == 0 && r.exit_code == 1),
        r.exit_code == 0 ==> r.stderr@.len() == 0,
        r.exit_code == 0 || (r.exit_code == 1 && r.stdout@.len() == 0),
{
    let target = if args.len() > 0 {
        match resolve_arg(session.cwd(), args[0].as_str()) {
            Ok(p) => p,
            Err(e) => {
                let mut msg = chars_of("ls: ");
                push_str(&mut msg, e.as_str());
                push_str(&mut msg, "\n");
                let text = string_from_chars(msg.as_slice());
                return CommandResult::error(text.as_str(), 1);
            },
        }
    } else {
        session.cwd().clone()
    };
    match resolver.read_dir(target.as_str()) {
        Ok(names) => {
            let r = ls_output(&names);
            assert(ls_text(string_views(names@)) == r.stdout@);
            r
        },
        Err(e) => {
            let shown = target.display();
            let mut line = error_line("ls: cannot access '", shown.as_str(), "': ", &e);
            push_str(&mut line, "\n");
            let text = string_from_chars(line.as_slice());
            let r = CommandResult::error(text.as_str(), 1);
            proof {
                reveal_strlit("ls: cannot access '");
                reveal_strlit("ls: cannot access '/");
                assert(r.stderr@ =~= "ls: cannot access '/"@ + ls_target(session.cwd_view(), args@) + "': "@
                    + e.message@.add("\n"@));
            }
            r
        },
    }
}

/// The start of the line for a file the view would not read.
pub open spec fn cat_failure_prefix(raw: Seq<char>) -> Seq<char> {
    "cat: "@ + raw + ": "@
}

/// Whether `piece` is what `cat` prints for one operand: nothing, or the
/// text of some bytes the view read.
pub open spec fn cat_piece(piece: Seq<char>) -> bool {
    piece.len() == 0 || exists|b: Seq<u8>| #[trigger] text_of_bytes(b) == piece
}

/// Whether `stdout` is made of one piece per operand, in order: nothing
/// for an operand refused by itself, else what `cat` prints for it.
pub open spec fn per_operand_stdout(stdout: Seq<char>, own: Seq<Option<Seq<char>>>) -> bool {
    exists|outs: Seq<Seq<char>>|
        outs.len() == own.len() && stdout == flatten(outs) && forall|i: int|
            0 <= i < outs.len() ==> if #[trigger] own[i] is Some {
                outs[i].len() == 0
            } else {
                cat_piece(outs[i])
            }
}

/// `cat FILE...`: the text of each file in turn; each one that cannot be
/// read is reported and makes the exit code 1.
pub fn cmd_cat<R: LayeredView>(session: &TerminalSession, resolver: &R, args: &[Arg]) -> (r: CommandResult)
    ensures
        args@.len() == 0 ==> r.stdout@.len() == 0 && r.stderr@ == "cat: missing operand\n"@
            && r.exit_code == 1,
        args@.len() > 0 ==> failure_shown(r),
        args@.len() > 0 ==> per_operand_stderr(
            r.stderr@,
            Seq::new(args@.len(), |i: int| unresolved_refusal("cat"@, session.cwd_view(), args@[i].0@)),
            Seq::new(args@.len(), |i: int| cat_failure_prefix(args@[i].0@)),
        ),
        args@.len() > 0 ==> per_operand_stdout(
            r.stdout@,
            Seq::new(args@.len(), |i: int| unresolved_refusal("cat"@, session.cwd_view(), args@[i].0@)),
        ),
        (exists|i: int| 0 <= i < args@.len() && #[trigger] resolved_arg(session.cwd_view(), args@[i].0@) is Err)
            ==> r.exit_code == 1,
{
    if args.len() == 0 {
        return CommandResult::error("cat: missing operand\n", 1);
    }
    let ghost own = Seq::new(args@.len(), |i: int| unresolved_refusal("cat"@, session.cwd_view(), args@[i].0@));
    let ghost prefixes = Seq::new(args@.len(), |i: int| cat_failure_prefix(args@[i].0@));
    let mut stdout: Vec<char> = Vec::new();
    let mut stderr: Vec<char> = Vec::new();
    let mut exit_code: i32 = 0;
    let ghost mut segs: Seq<Seq<char>> = Seq::empty();
    let ghost mut outs: Seq<Seq<char>> = Seq::empty();
    let mut i: usize = 0;
    while i < args.len()
        invariant
            i <= args@.len(),
            own == Seq::new(args@.len(), |i: int| unresolved_refusal("cat"@, session.cwd_view(), args@[i].0@)),
            prefixes == Seq::new(args@.len(), |i: int| cat_failure_prefix(args@[i].0@)),
            (exit_code == 0 && stderr@.len() == 0) || (exit_code == 1 && stderr@.len() > 0),
            forall|k: int| 0 <= k < i && #[trigger] resolved_arg(session.cwd_view(), args@[k].0@) is Err
                ==> exit_code == 1,
            segs.len() == i,
            stderr@ == flatten(segs),
            segments_fit(segs, own, prefixes, i as int),
            outs.len() == i,
            stdout@ == flatten(outs),
            forall|k: int| 0 <= k < i ==> if #[trigger] own[k] is Some {
                outs[k].len() == 0
            } else {
                cat_piece(outs[k])
            },
        decreases args.len() - i,
    {
        let raw = args[i].as_str();
        let ghost start = stderr@;
        let ghost out_start = stdout@;
        assert(args@[i as int].0@ == raw@);
        match resolve_arg(session.cwd(), raw) {
            Err(e) => {
                let mut line = chars_of("cat: ");
                push_str(&mut line, e.as_str());
                note_failure(&mut stderr, &mut exit_code, line.as_slice());
                proof {
                    reveal_strlit("cat");
                    reveal_strlit("cat: ");
                    reveal_strlit(": ");
                    assert("cat"@ + ": "@ =~= "cat: "@);
                }
                assert(stderr@.skip(start.len() as int) =~= line@ + seq!['\n']);
            },
            Ok(target) => match resolver.read_file(target.as_str()) {
                Ok(bytes) => {
                    let text = text_from_bytes(bytes.as_slice());
                    push_str(&mut stdout, text.as_str());
                    assert(text_of_bytes(bytes@) == stdout@.skip(out_start.len() as int));
                    assert(stderr@.skip(start.len() as int) =~= Seq::<char>::empty());
                },
                Err(e) => {
                    let line = error_line("cat: ", raw, ": ", &e);
                    proof {
                        assert(line@.subrange(0, cat_failure_prefix(raw@).len() as int)
                            =~= cat_failure_prefix(raw@));
                        lemma_host_line(cat_failure_prefix(raw@), line@);
                    }
                    note_failure(&mut stderr, &mut exit_code, line.as_slice());
                    assert(stderr@.skip(start.len() as int) =~= line@ + seq!['\n']);
                },
            },
        }
        proof {
            assert(stderr@.subrange(0, start.len() as int) =~= start);
            lemma_segment_step(segs, start, stderr@, own, prefixes);
            segs = segs.push(stderr@.skip(start.len() as int));
            let piece = stdout@.skip(out_start.len() as int);
            assert(stdout@ =~= out_start + piece);
            lemma_flatten_push(outs, piece);
            let o2 = outs.push(piece);
            assert forall|k: int| 0 <= k < i + 1 implies if #[trigger] own[k] is Some {
                o2[k].len() == 0
            } else {
                cat_piece(o2[k])
            } by {
                if k < i {
                    assert(o2[k] == outs[k]);
                }
            }
            outs = o2;
        }
        i = i + 1;
    }
    let out = string_from_chars(stdout.as_slice());
    let err = string_from_chars(stderr.as_slice());
    CommandResult { stdout: out, stderr: err, exit_code }
}

/// The names a `rm` operand stands for in its directory: the glob's
/// matches in the listing, sorted, when it has a `*` (a directory that
/// could not be listed matches nothing), else the name itself.
pub open spec fn rm_target_names(name: Seq<char>, listing: Result<Seq<Seq<char>>, ()>) -> Seq<Seq<char>> {
    if !name.contains('*') {
        seq![name]
    } else {
        match listing {
            Ok(entries) => match glob_expansion(name, entries) {
                Some(v) => v,
                None => Seq::empty(),
            },
            Err(_) => Seq::empty(),
        }
    }
}

/// Plans the names a `rm` operand removes from the directory's listing.
pub fn plan_rm_names(name: &str, listing: Result<Vec<String>, FsError>) -> (v: Vec<String>)
    ensures
        string_views(v@) == rm_target_names(
            name@,
            match listing {
                Ok(e) => Ok(string_views(e@)),
                Err(_) => Err(()),
            },
        ),
{
    if !contains_char(chars_of(name).as_slice(), '*') {
        let mut v: Vec<String> = Vec::new();
        v.push(name.to_string());
        assert(string_views(v@) =~= seq![name@]);
        return v;
    }
    let entries = match listing {
        Ok(e) => e,
        Err(_) => return Vec::new(),
    };
    match expand_glob(name, &entries) {
        Some(v) => v,
        None => Vec::new(),
    }
}

/// The names a `rm` operand stands for, listing the directory only for a
/// glob.
fn rm_names<R: LayeredView>(resolver: &R, parent: &SandboxPath, name: &str) -> (v: Vec<String>)
    ensures
        !name@.contains('*') ==> string_views(v@) == seq![name@],
{
    if !contains_char(chars_of(name).as_slice(), '*') {
        return plan_rm_names(name, Ok(Vec::new()));
    }
    plan_rm_names(name, resolver.read_dir(parent.as_str()))
}

/// The start of the line for a target the view would not remove.
pub open spec fn rm_failure_prefix(raw: Seq<char>) -> Seq<char> {
    "rm: cannot remove '"@ + raw + "': "@
}

/// What a failed removal prints: its line, or nothing under `-f` when the
/// target was not found.
pub fn rm_failure_line(raw: &str, e: &FsError, force: bool) -> (r: Option<Vec<char>>)
    ensures
        force && e.not_found ==> r is None,
        !(force && e.not_found) ==> (r matches Some(l) && l@ == rm_failure_prefix(raw@) + e.message@),
{
    if force && e.not_found {
        None
    } else {
        Some(error_line("rm: cannot remove '", raw, "': ", e))
    }
}

/// The refusal `rm` gives an operand by itself, before asking the view:
/// one that does not resolve, or the root; none under `-f`.
pub open spec fn rm_own_refusal(cwd: Seq<char>, raw: Seq<char>, force: bool) -> Option<Seq<char>> {
    if force {
        None
    } else {
        match resolved_arg(cwd, raw) {
            Err(m) => Some("rm: "@ + m),
            Ok(p) => if p.len() == 0 {
                Some("rm: cannot remove the sandbox root"@)
            } else {
                None
            },
        }
    }
}

/// `rm [-rRf] TARGET...`: removes each target (a `*` in its last component
/// expands against its directory), directories only under `-r`; every
/// failure is reported and makes the exit code 1, except that `-f` passes
/// over operands that do not resolve, the root, and what is not found.
pub fn cmd_rm<R: LayeredView>(session: &TerminalSession, resolver: &R, args: &[Arg]) -> (r: CommandResult)
    ensures
        ({
            let av = arg_views(args@);
            let fl = flag_chars(av);
            let ops = operands(av);
            &&& ops.len() == 0 && fl.contains('f') ==> r.stdout@.len() == 0 && r.stderr@.len() == 0
                && r.exit_code == 0
            &&& ops.len() == 0 && !fl.contains('f') ==> r.stdout@.len() == 0 && r.stderr@
                == "rm: missing operand\n"@ && r.exit_code == 1
            &&& ops.len() > 0 ==> r.stdout@.len() == 0 && failure_shown(r)
            &&& ops.len() > 0 ==> per_operand_stderr(
                r.stderr@,
                Seq::new(ops.len(), |i: int| rm_own_refusal(session.cwd_view(), ops[i], fl.contains('f'))),
                Seq::new(ops.len(), |i: int| rm_failure_prefix(ops[i])),
            )
            &&& ops.len() > 0 && !fl.contains('f') && (exists|i: int|
                0 <= i < ops.len() && !names_below_root(session.cwd_view(), #[trigger] ops[i]))
                ==> r.exit_code == 1
        }),
{
    let req = match rm_request(args) {
        Ok(q) => q,
        Err(e) => return e,
    };
    let ghost ops = string_views(req.targets@);
    let ghost own = Seq::new(ops.len(), |i: int| rm_own_refusal(session.cwd_view(), ops[i], req.force));
    let ghost prefixes = Seq::new(ops.len(), |i: int| rm_failure_prefix(ops[i]));
    let mut stderr: Vec<char> = Vec::new();
    let mut exit_code: i32 = 0;
    let ghost mut segs: Seq<Seq<char>> = Seq::empty();
    let mut i: usize = 0;
    while i < req.targets.len()
        invariant
            i <= req.targets@.len(),
            ops == string_views(req.targets@),
            own == Seq::new(ops.len(), |i: int| rm_own_refusal(session.cwd_view(), ops[i], req.force)),
            prefixes == Seq::new(ops.len(), |i: int| rm_failure_prefix(ops[i])),
            (exit_code == 0 && stderr@.len() == 0) || (exit_code == 1 && stderr@.len() > 0),
            forall|k: int| 0 <= k < i && !req.force && !names_below_root(session.cwd_view(), #[trigger] req.targets@[k]@)
                ==> exit_code == 1,
            segs.len() == i,
            stderr@ == flatten(segs),
            forall|k: int| 0 <= k < i ==> match #[trigger] own[k] {
                Some(m) => segs[k] == m + seq!['\n'],
                None => host_lines(segs[k], prefixes[k]),
            },
        decreases req.targets.len() - i,
    {
        let raw = req.targets[i].as_str();
        let ghost start = stderr@;
        assert(ops[i as int] == raw@);
        match resolve_arg(session.cwd(), raw) {
            Err(e) => {
                if !req.force {
                    let mut line = chars_of("rm: ");
                    push_str(&mut line, e.as_str());
                    note_failure(&mut stderr, &mut exit_code, line.as_slice());
                }
            },
            Ok(target) => match target.place() {
                None => {
                    if !req.force {
                        let line = chars_of("rm: cannot remove the sandbox root");
                        note_failure(&mut stderr, &mut exit_code, line.as_slice());
                    }
                },
                Some((parent, name)) => {
                    let names = rm_names(resolver, &parent, name.as_str());
                    let ghost before = exit_code;
                    let mut j: usize = 0;
                    while j < names.len()
                        invariant
                            j <= names@.len(),
                            before == 1 ==> exit_code == 1,
                            (exit_code == 0 && stderr@.len() == 0) || (exit_code == 1 && stderr@.len() > 0),
                            stderr@.len() >= start.len(),
                            stderr@.subrange(0, start.len() as int) == start,
                            host_lines(stderr@.skip(start.len() as int), rm_failure_prefix(raw@)),
                        decreases names.len() - j,
                    {
                        if let Err(e) = resolver.remove(parent.as_str(), names[j].as_str(), req.recursive) {
                            match rm_failure_line(raw, &e, req.force) {
                                Some(line) => {
                                    let ghost seg = stderr@.skip(start.len() as int);
                                    proof {
                                        assert(rm_failure_prefix(raw@).len() <= line@.len());
                                        assert(line@.subrange(0, rm_failure_prefix(raw@).len() as int)
                                            =~= rm_failure_prefix(raw@));
                                        lemma_host_lines_extend(seg, rm_failure_prefix(raw@), line@);
                                    }
                                    note_failure(&mut stderr, &mut exit_code, line.as_slice());
                                    assert(stderr@.skip(start.len() as int) =~= seg + line@ + seq!['\n']);
                                    assert(stderr@.subrange(0, start.len() as int) =~= start);
                                },
                                None => {},
                            }
                        }
                        j = j + 1;
                    }
                },
            },
        }
        let ghost seg = stderr@.skip(start.len() as int);
        proof {
            assert(stderr@ =~= start + seg);
            lemma_flatten_push(segs, seg);
            segs = segs.push(seg);
        }
        i = i + 1;
    }
    let text = string_from_chars(stderr.as_slice());
    CommandResult { stdout: String::new(), stderr: text, exit_code }
}


/// What the handlers ask of the host beyond the file view: running the
/// coreutils filters, who runs the session, the system's names, and
/// `sleep` (whose interval is a float).
pub trait ShellHost: FilterRunner {
    /// The user's name, if it has one, and id.
    fn user(&self) -> (Option<String>, u32);

    /// The group's name, if it has one, and id.
    fn group(&self) -> (Option<String>, u32);

    /// The system's names, or why they could not be read.
    fn system_names(&self) -> Result<SystemNames, String>;

    /// Waits for the interval that `interval` writes in seconds (a
    /// decimal float), or says why the interval is invalid.
    fn sleep_for(&self, interval: &str) -> CommandResult;
}

/// Whether two sessions agree on everything a command can see.
pub open spec fn session_kept(a: TerminalSession, b: TerminalSession) -> bool {
    &&& a.cwd_view() == b.cwd_view()
    &&& a.env_view() == b.env_view()
    &&& a.history_view() == b.history_view()
    &&& a.packages_view() == b.packages_view()
}

/// Runs the handler of the command `name`; an unknown name is answered
/// with exit code 127. Only `cd` and `safeshell-pkg` change the session.
pub fn dispatch_command<R: LayeredView, H: ShellHost>(
    name: &str,
    args: &[Arg],
    session: &mut TerminalSession,
    resolver: &R,
    host: &H,
) -> (r: CommandResult)
    ensures
        handler_of(name@) is None ==> r.stdout@.len() == 0 && r.stderr@ == name@ + ": command not found"@
            && r.exit_code == 127,
        handler_of(name@) == Some(Handler::Echo) ==> r.stdout@ == join(arg_views(args@), " "@) + "\n"@
            && r.exit_code == 0,
        handler_of(name@) == Some(Handler::Pwd) ==> r.stdout@ == seq!['/'] + old(session).cwd_view() + "\n"@
            && r.exit_code == 0,
        handler_of(name@) != Some(Handler::Cd) && handler_of(name@) != Some(Handler::SafeshellPkg)
            ==> session_kept(*final(session), *old(session)),
{
    let handler = match handler_for(name) {
        Some(h) => h,
        None => return command_not_found(name),
    };
    match handler {
        Handler::Pwd => cmd_pwd(session),
        Handler::Cd => cmd_cd(session, resolver, args),
        Handler::Mkdir => cmd_mkdir(session, resolver, args),
        Handler::Touch => cmd_touch(session, resolver, args),
        Handler::Ls => cmd_ls(session, resolver, args),
        Handler::Cat => cmd_cat(session, resolver, args),
        Handler::Echo => cmd_echo(args),
        Handler::Rm => cmd_rm(session, resolver, args),
        Handler::Rmdir => cmd_rmdir(session, resolver, args),
        Handler::Cp => cmd_cp(session, resolver, args),
        Handler::Mv => cmd_mv(session, resolver, args),
        Handler::Chmod => cmd_chmod(session, resolver, args),
        Handler::Chown => cmd_chown(session, resolver, args),
        Handler::Find => cmd_find(session, resolver, args),
        Handler::Du => cmd_du(session, resolver, args),
        Handler::Truncate => cmd_truncate(session, resolver, args),
        Handler::Shred => cmd_shred(session, resolver, args),
        Handler::SafeshellPkg => cmd_safeshell_pkg(session, args),
        Handler::Df => cmd_df(resolver),
        Handler::Wc => cmd_wc(session, resolver, host, args),
        Handler::Sort => cmd_sort(session, resolver, host, args),
        Handler::Uniq => cmd_uniq(session, resolver, host, args),
        Handler::Cut => cmd_cut(session, resolver, host, args),
        Handler::Head => cmd_head(session, resolver, host, args),
        Handler::Tail => cmd_tail(session, resolver, host, args),
        Handler::Date => cmd_date(host, args),
        Handler::Grep => cmd_grep(session, resolver, args),
        Handler::Env => cmd_env(session),
        Handler::Printenv => cmd_printenv(session, args),
        Handler::Whoami => {
            let (user_name, uid) = host.user();
            cmd_whoami(user_name, uid)
        },
        Handler::Id => {
            let (user_name, uid) = host.user();
            let (group_name, gid) = host.group();
            cmd_id(user_name, uid, group_name, gid)
        },
        Handler::Uname => match host.system_names() {
            Ok(names) => cmd_uname(args, &names),
            Err(e) => {
                let mut msg = chars_of("uname: ");
                push_str(&mut msg, e.as_str());
                push_str(&mut msg, "\n");
                let text = string_from_chars(msg.as_slice());
                CommandResult::error(text.as_str(), 1)
            },
        },
        Handler::Sleep => cmd_sleep(host, args),
    }
}

/// Applies the output redirections in order: `<` is refused; `>` and `>>`
/// write the command's output to their file (after its current bytes for
/// `>>`) instead of the terminal; a target that cannot be resolved or
/// written replaces the result with the error.
pub fn apply_redirections<R: LayeredView>(
    result: &mut CommandResult,
    redirections: &[Redirection],
    session: &TerminalSession,
    resolver: &R,
)
    ensures
        redirections@.len() == 0 ==> *final(result) == *old(result),
        redirections@.len() > 0 ==> final(result).stdout@.len() == 0,
        redirections@.len() > 0 && redirections@[0].kind == RedirectionKind::Input ==> final(result).stderr@
            == "SafeShell does not support input (`<`) redirection: no handler reads stdin\n"@
            && final(result).exit_code == 1,
        redirections@.len() > 0 && redirections@[0].kind != RedirectionKind::Input ==> (resolved_arg(
            session.cwd_view(),
            redirections@[0].target@,
        ) matches Err(m) ==> final(result).stderr@ == m + "\n"@ && final(result).exit_code == 1),
        final(result).exit_code == old(result).exit_code || final(result).exit_code == 1,
{
    let mut i: usize = 0;
    while i < redirections.len()
        invariant
            i <= redirections@.len(),
            i == 0 ==> *result == *old(result),
            i > 0 ==> result.stdout@.len() == 0,
            i > 0 ==> redirections@[0].kind != RedirectionKind::Input,
            i > 0 ==> resolved_arg(session.cwd_view(), redirections@[0].target@) is Ok,
            result.exit_code == old(result).exit_code,
        decreases redirections.len() - i,
    {
        let redir = &redirections[i];
        if redir.kind == RedirectionKind::Input {
            *result = input_redirection_refused();
            return;
        }
        let target = match resolve_arg(session.cwd(), redir.target.as_str()) {
            Ok(p) => p,
            Err(e) => {
                let mut msg = chars_of(e.as_str());
                push_str(&mut msg, "\n");
                let text = string_from_chars(msg.as_slice());
                *result = CommandResult::error(text.as_str(), 1);
                return;
            },
        };
        let existing = if redir.kind == RedirectionKind::Append {
            match resolver.read_file(target.as_str()) {
                Ok(b) => b,
                Err(_) => Vec::new(),
            }
        } else {
            Vec::new()
        };
        let contents = redirected_contents(redir.kind, existing, result.stdout.as_str());
        if let Err(e) = resolver.write_file(target.as_str(), contents.as_slice()) {
            let line = error_line("", redir.target.as_str(), ": ", &e);
            let mut msg = line;
            push_str(&mut msg, "\n");
            let text = string_from_chars(msg.as_slice());
            *result = CommandResult::error(text.as_str(), 1);
            return;
        }
        result.stdout = String::new();
        i = i + 1;
    }
}

/// Runs the command `name` and then its output redirections.
pub fn dispatch<R: LayeredView, H: ShellHost>(
    name: &str,
    args: &[Arg],
    redirections: &[Redirection],
    session: &mut TerminalSession,
    resolver: &R,
    host: &H,
) -> (r: CommandResult)
    ensures
        handler_of(name@) is None && redirections@.len() == 0 ==> r.stdout@.len() == 0 && r.stderr@ == name@
            + ": command not found"@ && r.exit_code == 127,
        redirections@.len() > 0 ==> r.stdout@.len() == 0,
        handler_of(name@) != Some(Handler::Cd) && handler_of(name@) != Some(Handler::SafeshellPkg)
            ==> session_kept(*final(session), *old(session)),
{
    let mut result = dispatch_command(name, args, session, resolver, host);
    apply_redirections(&mut result, redirections, session, resolver);
    result
}

} // verus!
